//! Aggregation of classified sessions into the course/variant hierarchy:
//! sessions are grouped by resolved code, then by (group, type) into
//! variants ordered by their keys; the canonical course name is picked by a
//! weighted vote; the course list is sorted by name, equal names keeping
//! code order; an index entry per (code, source) records each non-special
//! course for client-side discovery.
use vstd::prelude::*;

use crate::classify::{classify_spec, parse_summary, Classified};
use crate::feed::{
    extract_session, extract_spec, ical_events_of, included_spec, insert_sorted,
    insert_sorted_exec, lemma_strs_view_dv, lemma_strs_view_push, parse_ical_events, pevs_view,
    session_included, strs_view, PropEvent, SessionRec, SessionRecV,
};
use crate::model::{
    clone_event, clone_opt_string, clone_string_vec, courses_view, events_view,
    lemma_courses_view_push, lemma_events_view_push, lemma_variants_view_push, variants_view,
    Bundle, Course, CourseV, CourseVariant, EvV, EventIn, VariantV,
};
use crate::text::{chars_of, ci_eq_seq, ci_eq_str, lex_le, lex_le_exec, str_eq};
use crate::timefmt::{format_rfc3339_utc, rfc3339_utc_str_of, TS_MAX, TS_MIN};

verus! {

/// One classified session, ready for grouping.
pub struct Row {
    pub code: String,
    pub group: Option<String>,
    pub kind: Option<String>,
    pub name: String,
    pub event: EventIn,
}

pub ghost struct RowV {
    pub code: Seq<char>,
    pub group: Option<Seq<char>>,
    pub kind: Option<Seq<char>>,
    pub name: Seq<char>,
    pub event: EvV,
}

impl View for Row {
    type V = RowV;

    open spec fn view(&self) -> RowV {
        RowV {
            code: self.code@,
            group: self.group.deep_view(),
            kind: self.kind.deep_view(),
            name: self.name@,
            event: self.event@,
        }
    }
}

/// The views of a row list.
pub open spec fn rows_view(v: Seq<Row>) -> Seq<RowV> {
    v.map_values(|r: Row| r@)
}

/// Pushing a row pushes its view.
pub proof fn lemma_rows_view_push(v: Seq<Row>, r: Row)
    ensures
        rows_view(v.push(r)) == rows_view(v).push(r@),
{
    assert(rows_view(v.push(r)) =~= rows_view(v).push(r@));
}

/// The row a session record classifies to: the title decomposed, the event
/// carried over with its identifier.
pub open spec fn row_spec(rec: SessionRecV) -> RowV {
    let c = classify_spec(rec.summary);
    RowV {
        code: c.code,
        group: c.group,
        kind: c.kind,
        name: c.name,
        event: EvV {
            start: rec.start,
            end: rec.end,
            summary: rec.summary,
            location: rec.location,
            uid: Some(rec.uid),
            rrule: rec.rrule,
            exdates: rec.exdates,
            recurrence_id: rec.recurrence_id,
        },
    }
}

/// Classifies one extracted session into a row.
pub fn classify_session(rec: SessionRec) -> (r: Row)
    ensures
        r@ == row_spec(rec@),
{
    proof {
        lemma_strs_view_dv(&rec.exdates);
    }
    let c: Classified = parse_summary(rec.summary.as_str());
    Row {
        code: c.code,
        group: c.group,
        kind: c.kind,
        name: c.name,
        event: EventIn {
            start: rec.start,
            end: rec.end,
            summary: rec.summary,
            location: rec.location,
            uid: Some(rec.uid),
            rrule: rec.rrule,
            exdates: rec.exdates,
            recurrence_id: rec.recurrence_id,
        },
    }
}

/// The rows of a feed: each event extracted (with its generated identifier),
/// kept when the window includes it, and classified.
pub open spec fn rows_spec(
    evs: Seq<Seq<(Seq<char>, Option<Seq<char>>)>>,
    uids: Seq<Seq<char>>,
    now: int,
    ws: int,
    we: int,
) -> Seq<RowV>
    decreases evs.len(),
{
    if evs.len() == 0 {
        Seq::<RowV>::empty()
    } else {
        rows_spec(evs.drop_last(), uids.drop_last(), now, ws, we) + (match extract_spec(
            evs.last(),
            uids.last(),
            now,
        ) {
            Some(rec) => if included_spec(
                rec.recurrence_id is Some,
                rec.rrule is Some,
                rec.until_secs,
                rec.start_secs,
                ws,
                we,
            ) {
                seq![row_spec(rec)]
            } else {
                Seq::<RowV>::empty()
            },
            None => Seq::<RowV>::empty(),
        })
    }
}

/// Extracts, filters and classifies a whole feed's events.
pub fn build_rows(events: Vec<PropEvent>, now: i64, ws: i64, we: i64) -> (r: Vec<Row>)
    requires
        TS_MIN <= now <= TS_MAX,
    ensures
        exists|uids: Seq<Seq<char>>|
            uids.len() == events@.len() && rows_view(r@) == rows_spec(
                pevs_view(events@),
                uids,
                now as int,
                ws as int,
                we as int,
            ),
{
    let n = events.len();
    let mut out: Vec<Row> = Vec::new();
    let mut i: usize = 0;
    let ghost mut uids: Seq<Seq<char>> = Seq::<Seq<char>>::empty();
    proof {
        assert(pevs_view(events@).subrange(0, 0) =~= Seq::<
            Seq<(Seq<char>, Option<Seq<char>>)>,
        >::empty());
        assert(rows_view(out@) =~= rows_spec(
            pevs_view(events@).subrange(0, 0),
            uids,
            now as int,
            ws as int,
            we as int,
        ));
    }
    while i < n
        invariant
            n == events@.len(),
            i <= n,
            TS_MIN <= now <= TS_MAX,
            uids.len() == i,
            rows_view(out@) == rows_spec(
                pevs_view(events@).subrange(0, i as int),
                uids,
                now as int,
                ws as int,
                we as int,
            ),
        decreases n - i,
    {
        let ev = &events[i];
        proof {
            assert(pevs_view(events@)[i as int] == (*ev)@);
        }
        let ghost prev_uids = uids;
        let ghost prev_rows = rows_view(out@);
        let extracted = extract_session(ev, now);
        let ghost u = choose|u: Seq<char>|
            u.len() == 36 && crate::feed::opt_rec_view(extracted) == extract_spec(
                (*ev)@,
                u,
                now as int,
            );
        proof {
            uids = uids.push(u);
        }
        match extracted {
            Some(rec) => {
                let keep = session_included(&rec, ws, we);
                if keep {
                    let ghost prev = out@;
                    let row = classify_session(rec);
                    out.push(row);
                    proof {
                        lemma_rows_view_push(prev, row);
                    }
                }
            },
            None => {},
        }
        proof {
            assert(pevs_view(events@).subrange(0, i + 1).drop_last() =~= pevs_view(
                events@,
            ).subrange(0, i as int));
            assert(pevs_view(events@).subrange(0, i + 1).last() == pevs_view(events@)[i as int]);
            assert(uids.drop_last() =~= prev_uids);
            assert(uids.last() == u);
            assert(rows_view(out@) =~= rows_spec(
                pevs_view(events@).subrange(0, i + 1),
                uids,
                now as int,
                ws as int,
                we as int,
            ));
        }
        i = i + 1;
    }
    proof {
        assert(pevs_view(events@).subrange(0, n as int) =~= pevs_view(events@));
    }
    out
}

/// The distinct codes of a row list, in sorted order, as grouping in a
/// sorted map gives them.
pub open spec fn codes_of(rows: Seq<RowV>) -> Seq<Seq<char>>
    decreases rows.len(),
{
    if rows.len() == 0 {
        Seq::<Seq<char>>::empty()
    } else {
        insert_sorted(codes_of(rows.drop_last()), rows.last().code)
    }
}

fn codes_of_exec(rows: &Vec<Row>) -> (r: Vec<String>)
    ensures
        strs_view(r@) == codes_of(rows_view(rows@)),
{
    let n = rows.len();
    let mut out: Vec<String> = Vec::new();
    let mut i: usize = 0;
    proof {
        assert(rows_view(rows@).subrange(0, 0) =~= Seq::<RowV>::empty());
        assert(strs_view(out@) =~= codes_of(rows_view(rows@).subrange(0, 0)));
    }
    while i < n
        invariant
            n == rows@.len(),
            i <= n,
            strs_view(out@) == codes_of(rows_view(rows@).subrange(0, i as int)),
        decreases n - i,
    {
        proof {
            assert(rows_view(rows@).subrange(0, i + 1).drop_last() =~= rows_view(
                rows@,
            ).subrange(0, i as int));
            assert(rows_view(rows@).subrange(0, i + 1).last() == rows_view(rows@)[i as int]);
            assert(rows_view(rows@)[i as int] == rows@[i as int]@);
        }
        out = insert_sorted_exec(&out, rows[i].code.clone());
        i = i + 1;
    }
    proof {
        assert(rows_view(rows@).subrange(0, n as int) =~= rows_view(rows@));
    }
    out
}

/// The rows that carry one code, in order.
pub open spec fn rows_for_code(rows: Seq<RowV>, code: Seq<char>) -> Seq<RowV>
    decreases rows.len(),
{
    if rows.len() == 0 {
        Seq::<RowV>::empty()
    } else {
        rows_for_code(rows.drop_last(), code) + (if rows.last().code == code {
            seq![rows.last()]
        } else {
            Seq::<RowV>::empty()
        })
    }
}

fn clone_row(r: &Row) -> (c: Row)
    ensures
        c@ == r@,
{
    Row {
        code: r.code.clone(),
        group: clone_opt_string(&r.group),
        kind: clone_opt_string(&r.kind),
        name: r.name.clone(),
        event: clone_event(&r.event),
    }
}

fn rows_for_code_exec(rows: &Vec<Row>, code: &String) -> (r: Vec<Row>)
    ensures
        rows_view(r@) == rows_for_code(rows_view(rows@), code@),
{
    let n = rows.len();
    let mut out: Vec<Row> = Vec::new();
    let mut i: usize = 0;
    proof {
        assert(rows_view(rows@).subrange(0, 0) =~= Seq::<RowV>::empty());
        assert(rows_view(out@) =~= rows_for_code(rows_view(rows@).subrange(0, 0), code@));
    }
    while i < n
        invariant
            n == rows@.len(),
            i <= n,
            rows_view(out@) == rows_for_code(rows_view(rows@).subrange(0, i as int), code@),
        decreases n - i,
    {
        proof {
            assert(rows_view(rows@).subrange(0, i + 1).drop_last() =~= rows_view(
                rows@,
            ).subrange(0, i as int));
            assert(rows_view(rows@).subrange(0, i + 1).last() == rows_view(rows@)[i as int]);
            assert(rows_view(rows@)[i as int] == rows@[i as int]@);
        }
        if str_eq(rows[i].code.as_str(), code.as_str()) {
            let ghost prev = out@;
            let cl = clone_row(&rows[i]);
            out.push(cl);
            proof {
                lemma_rows_view_push(prev, cl);
            }
        }
        i = i + 1;
    }
    proof {
        assert(rows_view(rows@).subrange(0, n as int) =~= rows_view(rows@));
    }
    out
}

fn opt_str_eq(a: &Option<String>, b: &Option<String>) -> (r: bool)
    ensures
        r == (a.deep_view() == b.deep_view()),
{
    match (a, b) {
        (None, None) => true,
        (Some(x), Some(y)) => {
            let e = str_eq(x.as_str(), y.as_str());
            proof {
                if !e {
                    assert(a.deep_view() != b.deep_view());
                }
            }
            e
        },
        _ => false,
    }
}

/// Order of optional labels: absence comes first, labels lexicographically.
pub open spec fn opt_lt(a: Option<Seq<char>>, b: Option<Seq<char>>) -> bool {
    match a {
        None => b is Some,
        Some(x) => match b {
            None => false,
            Some(y) => x != y && lex_le(x, y),
        },
    }
}

/// Order of variant keys: by group first, then by type.
pub open spec fn key_le(
    a: (Option<Seq<char>>, Option<Seq<char>>),
    b: (Option<Seq<char>>, Option<Seq<char>>),
) -> bool {
    opt_lt(a.0, b.0) || (a.0 == b.0 && (a.1 == b.1 || opt_lt(a.1, b.1)))
}

/// Inserts a key into a sorted list of distinct keys.
pub open spec fn insert_key(
    ks: Seq<(Option<Seq<char>>, Option<Seq<char>>)>,
    k: (Option<Seq<char>>, Option<Seq<char>>),
) -> Seq<(Option<Seq<char>>, Option<Seq<char>>)>
    decreases ks.len(),
{
    if ks.len() == 0 {
        seq![k]
    } else if k == ks[0] {
        ks
    } else if key_le(k, ks[0]) {
        seq![k] + ks
    } else {
        seq![ks[0]] + insert_key(ks.drop_first(), k)
    }
}

/// The distinct (group, type) keys of a row list, in key order, as grouping
/// in a sorted map gives them.
pub open spec fn keys_of(rows: Seq<RowV>) -> Seq<(Option<Seq<char>>, Option<Seq<char>>)>
    decreases rows.len(),
{
    if rows.len() == 0 {
        Seq::<(Option<Seq<char>>, Option<Seq<char>>)>::empty()
    } else {
        insert_key(keys_of(rows.drop_last()), (rows.last().group, rows.last().kind))
    }
}

/// The views of a key list.
pub open spec fn okeys_view(v: Seq<(Option<String>, Option<String>)>) -> Seq<
    (Option<Seq<char>>, Option<Seq<char>>),
> {
    v.map_values(|k: (Option<String>, Option<String>)| (k.0.deep_view(), k.1.deep_view()))
}

fn opt_lt_exec(a: &Option<String>, b: &Option<String>) -> (r: bool)
    ensures
        r == opt_lt(a.deep_view(), b.deep_view()),
{
    match (a, b) {
        (None, Some(_)) => true,
        (Some(x), Some(y)) => {
            if str_eq(x.as_str(), y.as_str()) {
                false
            } else {
                let xc = chars_of(x.as_str());
                let yc = chars_of(y.as_str());
                lex_le_exec(&xc, &yc)
            }
        },
        _ => false,
    }
}

fn key_le_exec(
    a0: &Option<String>,
    a1: &Option<String>,
    b: &(Option<String>, Option<String>),
) -> (r: bool)
    ensures
        r == key_le((a0.deep_view(), a1.deep_view()), (b.0.deep_view(), b.1.deep_view())),
{
    opt_lt_exec(a0, &b.0) || (opt_str_eq(a0, &b.0) && (opt_str_eq(a1, &b.1) || opt_lt_exec(
        a1,
        &b.1,
    )))
}

fn clone_key(k: &(Option<String>, Option<String>)) -> (r: (Option<String>, Option<String>))
    ensures
        r.0.deep_view() == k.0.deep_view(),
        r.1.deep_view() == k.1.deep_view(),
{
    (clone_opt_string(&k.0), clone_opt_string(&k.1))
}

fn insert_key_from(
    ks: &Vec<(Option<String>, Option<String>)>,
    i: usize,
    k: (Option<String>, Option<String>),
) -> (r: Vec<(Option<String>, Option<String>)>)
    requires
        i <= ks@.len(),
    ensures
        okeys_view(r@) == insert_key(
            okeys_view(ks@).subrange(i as int, okeys_view(ks@).len() as int),
            (k.0.deep_view(), k.1.deep_view()),
        ),
    decreases ks@.len() - i,
{
    let ghost tail = okeys_view(ks@).subrange(i as int, okeys_view(ks@).len() as int);
    let ghost kv = (k.0.deep_view(), k.1.deep_view());
    if i >= ks.len() {
        let mut r: Vec<(Option<String>, Option<String>)> = Vec::new();
        r.push(k);
        proof {
            assert(okeys_view(r@) =~= seq![kv]);
        }
        return r;
    }
    proof {
        assert(tail[0] == okeys_view(ks@)[i as int]);
        assert(tail.drop_first() =~= okeys_view(ks@).subrange(i + 1, okeys_view(ks@).len() as int));
        assert(okeys_view(ks@)[i as int] == (ks@[i as int].0.deep_view(), ks@[
        i as int].1.deep_view()));
    }
    if opt_str_eq(&k.0, &ks[i].0) && opt_str_eq(&k.1, &ks[i].1) {
        let r = copy_keys_tail(ks, i);
        proof {
            assert(okeys_view(r@) =~= tail);
        }
        r
    } else if key_le_exec(&k.0, &k.1, &ks[i]) {
        let rest = copy_keys_tail(ks, i);
        let mut r: Vec<(Option<String>, Option<String>)> = Vec::new();
        r.push(k);
        let ghost head = okeys_view(r@);
        let m = rest.len();
        let mut j: usize = 0;
        proof {
            assert(head =~= seq![kv]);
            assert(okeys_view(r@) =~= head + okeys_view(rest@).subrange(0, 0));
        }
        while j < m
            invariant
                j <= m,
                m == rest@.len(),
                okeys_view(r@) == head + okeys_view(rest@).subrange(0, j as int),
            decreases m - j,
        {
            let ghost prev = r@;
            let cl = clone_key(&rest[j]);
            r.push(cl);
            j = j + 1;
            proof {
                assert(okeys_view(r@) =~= okeys_view(prev).push(okeys_view(rest@)[j - 1]));
                assert(okeys_view(rest@).subrange(0, j as int) =~= okeys_view(rest@).subrange(
                    0,
                    j - 1,
                ).push(okeys_view(rest@)[j - 1]));
                assert(okeys_view(r@) =~= head + okeys_view(rest@).subrange(0, j as int));
            }
        }
        proof {
            assert(okeys_view(rest@).subrange(0, m as int) =~= okeys_view(rest@));
            assert(okeys_view(r@) =~= seq![kv] + tail);
        }
        r
    } else {
        let rest = insert_key_from(ks, i + 1, k);
        let mut r: Vec<(Option<String>, Option<String>)> = Vec::new();
        r.push(clone_key(&ks[i]));
        let ghost head = okeys_view(r@);
        let m = rest.len();
        let mut j: usize = 0;
        proof {
            assert(okeys_view(r@) =~= head + okeys_view(rest@).subrange(0, 0));
        }
        while j < m
            invariant
                j <= m,
                m == rest@.len(),
                okeys_view(r@) == head + okeys_view(rest@).subrange(0, j as int),
            decreases m - j,
        {
            let ghost prev = r@;
            let cl = clone_key(&rest[j]);
            r.push(cl);
            j = j + 1;
            proof {
                assert(okeys_view(r@) =~= okeys_view(prev).push(okeys_view(rest@)[j - 1]));
                assert(okeys_view(rest@).subrange(0, j as int) =~= okeys_view(rest@).subrange(
                    0,
                    j - 1,
                ).push(okeys_view(rest@)[j - 1]));
                assert(okeys_view(r@) =~= head + okeys_view(rest@).subrange(0, j as int));
            }
        }
        proof {
            assert(okeys_view(rest@).subrange(0, m as int) =~= okeys_view(rest@));
            assert(okeys_view(r@) =~= seq![tail[0]] + insert_key(tail.drop_first(), kv));
        }
        r
    }
}

/// Clones the keys from position `i` on.
fn copy_keys_tail(ks: &Vec<(Option<String>, Option<String>)>, i: usize) -> (r: Vec<
    (Option<String>, Option<String>),
>)
    requires
        i <= ks@.len(),
    ensures
        okeys_view(r@) == okeys_view(ks@).subrange(i as int, okeys_view(ks@).len() as int),
{
    let n = ks.len();
    let mut r: Vec<(Option<String>, Option<String>)> = Vec::new();
    let mut j: usize = i;
    proof {
        assert(okeys_view(r@) =~= okeys_view(ks@).subrange(i as int, i as int));
    }
    while j < n
        invariant
            i <= j <= n,
            n == ks@.len(),
            okeys_view(r@) == okeys_view(ks@).subrange(i as int, j as int),
        decreases n - j,
    {
        let ghost prev = r@;
        let cl = clone_key(&ks[j]);
        r.push(cl);
        j = j + 1;
        proof {
            assert(okeys_view(r@) =~= okeys_view(prev).push(okeys_view(ks@)[j - 1]));
            assert(okeys_view(ks@).subrange(i as int, j as int) =~= okeys_view(ks@).subrange(
                i as int,
                j - 1,
            ).push(okeys_view(ks@)[j - 1]));
            assert(okeys_view(r@) =~= okeys_view(ks@).subrange(i as int, j as int));
        }
    }
    r
}

fn keys_of_exec(rows: &Vec<Row>) -> (r: Vec<(Option<String>, Option<String>)>)
    ensures
        okeys_view(r@) == keys_of(rows_view(rows@)),
{
    let n = rows.len();
    let mut out: Vec<(Option<String>, Option<String>)> = Vec::new();
    let mut i: usize = 0;
    proof {
        assert(rows_view(rows@).subrange(0, 0) =~= Seq::<RowV>::empty());
        assert(okeys_view(out@) =~= keys_of(rows_view(rows@).subrange(0, 0)));
    }
    while i < n
        invariant
            n == rows@.len(),
            i <= n,
            okeys_view(out@) == keys_of(rows_view(rows@).subrange(0, i as int)),
        decreases n - i,
    {
        proof {
            assert(rows_view(rows@).subrange(0, i + 1).drop_last() =~= rows_view(
                rows@,
            ).subrange(0, i as int));
            assert(rows_view(rows@).subrange(0, i + 1).last() == rows_view(rows@)[i as int]);
            assert(rows_view(rows@)[i as int] == rows@[i as int]@);
        }
        let k = (clone_opt_string(&rows[i].group), clone_opt_string(&rows[i].kind));
        proof {
            assert(okeys_view(out@).subrange(0, okeys_view(out@).len() as int) =~= okeys_view(
                out@,
            ));
        }
        out = insert_key_from(&out, 0, k);
        i = i + 1;
    }
    proof {
        assert(rows_view(rows@).subrange(0, n as int) =~= rows_view(rows@));
    }
    out
}

/// The events of the rows with one key, in order.
pub open spec fn events_for_key(
    rows: Seq<RowV>,
    key: (Option<Seq<char>>, Option<Seq<char>>),
) -> Seq<EvV>
    decreases rows.len(),
{
    if rows.len() == 0 {
        Seq::<EvV>::empty()
    } else {
        events_for_key(rows.drop_last(), key) + (if (rows.last().group, rows.last().kind) == key {
            seq![rows.last().event]
        } else {
            Seq::<EvV>::empty()
        })
    }
}

fn events_for_key_exec(rows: &Vec<Row>, g: &Option<String>, t: &Option<String>) -> (r: Vec<EventIn>)
    ensures
        events_view(r@) == events_for_key(rows_view(rows@), (g.deep_view(), t.deep_view())),
{
    let n = rows.len();
    let mut out: Vec<EventIn> = Vec::new();
    let mut i: usize = 0;
    proof {
        assert(rows_view(rows@).subrange(0, 0) =~= Seq::<RowV>::empty());
        assert(events_view(out@) =~= events_for_key(
            rows_view(rows@).subrange(0, 0),
            (g.deep_view(), t.deep_view()),
        ));
    }
    while i < n
        invariant
            n == rows@.len(),
            i <= n,
            events_view(out@) == events_for_key(
                rows_view(rows@).subrange(0, i as int),
                (g.deep_view(), t.deep_view()),
            ),
        decreases n - i,
    {
        proof {
            assert(rows_view(rows@).subrange(0, i + 1).drop_last() =~= rows_view(
                rows@,
            ).subrange(0, i as int));
            assert(rows_view(rows@).subrange(0, i + 1).last() == rows_view(rows@)[i as int]);
            assert(rows_view(rows@)[i as int] == rows@[i as int]@);
        }
        if opt_str_eq(&rows[i].group, g) && opt_str_eq(&rows[i].kind, t) {
            let ghost prev = out@;
            let cl = clone_event(&rows[i].event);
            out.push(cl);
            proof {
                lemma_events_view_push(prev, cl);
            }
        }
        i = i + 1;
    }
    proof {
        assert(rows_view(rows@).subrange(0, n as int) =~= rows_view(rows@));
    }
    out
}

/// The variants of a row list: one per (group, type) key, in key order,
/// holding that key's events.
pub open spec fn variants_of(rows: Seq<RowV>, ks: Seq<(Option<Seq<char>>, Option<Seq<char>>)>, i: int) -> Seq<VariantV>
    decreases ks.len() - i,
{
    if i < 0 || i >= ks.len() {
        Seq::<VariantV>::empty()
    } else {
        seq![
            VariantV { group: ks[i].0, kind: ks[i].1, events: events_for_key(rows, ks[i]) },
        ] + variants_of(rows, ks, i + 1)
    }
}

fn variants_of_exec(rows: &Vec<Row>, ks: &Vec<(Option<String>, Option<String>)>, i: usize) -> (r: Vec<CourseVariant>)
    requires
        i <= ks@.len(),
    ensures
        variants_view(r@) == variants_of(rows_view(rows@), okeys_view(ks@), i as int),
    decreases ks@.len() - i,
{
    if i >= ks.len() {
        let r: Vec<CourseVariant> = Vec::new();
        proof {
            assert(variants_view(r@) =~= variants_of(rows_view(rows@), okeys_view(ks@), i as int));
        }
        return r;
    }
    let evs = events_for_key_exec(rows, &ks[i].0, &ks[i].1);
    let v = CourseVariant {
        group: clone_opt_string(&ks[i].0),
        kind: clone_opt_string(&ks[i].1),
        events: evs,
    };
    let rest = variants_of_exec(rows, ks, i + 1);
    let mut out: Vec<CourseVariant> = Vec::new();
    out.push(v);
    let m = rest.len();
    let mut k: usize = 0;
    let ghost head = variants_view(out@);
    while k < m
        invariant
            k <= m,
            m == rest@.len(),
            variants_view(out@) == head + variants_view(rest@).subrange(0, k as int),
        decreases m - k,
    {
        let ghost prev = out@;
        let cl = clone_variant(&rest[k]);
        out.push(cl);
        k = k + 1;
        proof {
            lemma_variants_view_push(prev, cl);
            assert(variants_view(rest@).subrange(0, k as int) =~= variants_view(
                rest@,
            ).subrange(0, k - 1).push(variants_view(rest@)[k - 1]));
            assert(variants_view(out@) =~= head + variants_view(rest@).subrange(0, k as int));
        }
    }
    proof {
        assert(variants_view(rest@).subrange(0, m as int) =~= variants_view(rest@));
        assert(okeys_view(ks@)[i as int] == (ks@[i as int].0.deep_view(), ks@[
        i as int].1.deep_view()));
        assert(variants_view(out@) =~= variants_of(rows_view(rows@), okeys_view(ks@), i as int));
    }
    out
}

fn clone_variant(v: &CourseVariant) -> (c: CourseVariant)
    ensures
        c@ == v@,
{
    let n = v.events.len();
    let mut evs: Vec<EventIn> = Vec::new();
    let mut i: usize = 0;
    while i < n
        invariant
            n == v.events@.len(),
            i <= n,
            events_view(evs@) == events_view(v.events@).subrange(0, i as int),
        decreases n - i,
    {
        let ghost prev = evs@;
        let cl = clone_event(&v.events[i]);
        evs.push(cl);
        i = i + 1;
        proof {
            lemma_events_view_push(prev, cl);
            assert(events_view(v.events@).subrange(0, i as int) =~= events_view(
                v.events@,
            ).subrange(0, i - 1).push(events_view(v.events@)[i - 1]));
            assert(events_view(evs@) =~= events_view(v.events@).subrange(0, i as int));
        }
    }
    proof {
        assert(events_view(v.events@).subrange(0, n as int) =~= events_view(v.events@));
    }
    CourseVariant { group: clone_opt_string(&v.group), kind: clone_opt_string(&v.kind), events: evs }
}

/// The sorted distinct group labels of a row list.
pub open spec fn groups_of(rows: Seq<RowV>) -> Seq<Seq<char>>
    decreases rows.len(),
{
    if rows.len() == 0 {
        Seq::<Seq<char>>::empty()
    } else {
        match rows.last().group {
            Some(g) => insert_sorted(groups_of(rows.drop_last()), g),
            None => groups_of(rows.drop_last()),
        }
    }
}

fn groups_of_exec(rows: &Vec<Row>) -> (r: Vec<String>)
    ensures
        strs_view(r@) == groups_of(rows_view(rows@)),
{
    let n = rows.len();
    let mut out: Vec<String> = Vec::new();
    let mut i: usize = 0;
    proof {
        assert(rows_view(rows@).subrange(0, 0) =~= Seq::<RowV>::empty());
        assert(strs_view(out@) =~= groups_of(rows_view(rows@).subrange(0, 0)));
    }
    while i < n
        invariant
            n == rows@.len(),
            i <= n,
            strs_view(out@) == groups_of(rows_view(rows@).subrange(0, i as int)),
        decreases n - i,
    {
        proof {
            assert(rows_view(rows@).subrange(0, i + 1).drop_last() =~= rows_view(
                rows@,
            ).subrange(0, i as int));
            assert(rows_view(rows@).subrange(0, i + 1).last() == rows_view(rows@)[i as int]);
            assert(rows_view(rows@)[i as int] == rows@[i as int]@);
        }
        match &rows[i].group {
            Some(g) => {
                out = insert_sorted_exec(&out, g.clone());
            },
            None => {},
        }
        i = i + 1;
    }
    proof {
        assert(rows_view(rows@).subrange(0, n as int) =~= rows_view(rows@));
    }
    out
}

/// The sorted distinct name candidates of a row list.
pub open spec fn names_of(rows: Seq<RowV>) -> Seq<Seq<char>>
    decreases rows.len(),
{
    if rows.len() == 0 {
        Seq::<Seq<char>>::empty()
    } else {
        insert_sorted(names_of(rows.drop_last()), rows.last().name)
    }
}

fn names_of_exec(rows: &Vec<Row>) -> (r: Vec<String>)
    ensures
        strs_view(r@) == names_of(rows_view(rows@)),
{
    let n = rows.len();
    let mut out: Vec<String> = Vec::new();
    let mut i: usize = 0;
    proof {
        assert(rows_view(rows@).subrange(0, 0) =~= Seq::<RowV>::empty());
        assert(strs_view(out@) =~= names_of(rows_view(rows@).subrange(0, 0)));
    }
    while i < n
        invariant
            n == rows@.len(),
            i <= n,
            strs_view(out@) == names_of(rows_view(rows@).subrange(0, i as int)),
        decreases n - i,
    {
        proof {
            assert(rows_view(rows@).subrange(0, i + 1).drop_last() =~= rows_view(
                rows@,
            ).subrange(0, i as int));
            assert(rows_view(rows@).subrange(0, i + 1).last() == rows_view(rows@)[i as int]);
            assert(rows_view(rows@)[i as int] == rows@[i as int]@);
        }
        out = insert_sorted_exec(&out, rows[i].name.clone());
        i = i + 1;
    }
    proof {
        assert(rows_view(rows@).subrange(0, n as int) =~= rows_view(rows@));
    }
    out
}

/// How many rows carry one name candidate.
pub open spec fn count_name(rows: Seq<RowV>, nm: Seq<char>) -> int
    decreases rows.len(),
{
    if rows.len() == 0 {
        0int
    } else {
        count_name(rows.drop_last(), nm) + (if rows.last().name == nm {
            1int
        } else {
            0int
        })
    }
}

fn count_name_exec(rows: &Vec<Row>, nm: &String) -> (r: usize)
    ensures
        r == count_name(rows_view(rows@), nm@),
{
    let n = rows.len();
    let mut c: usize = 0;
    let mut i: usize = 0;
    proof {
        assert(rows_view(rows@).subrange(0, 0) =~= Seq::<RowV>::empty());
    }
    while i < n
        invariant
            n == rows@.len(),
            i <= n,
            c <= i,
            c == count_name(rows_view(rows@).subrange(0, i as int), nm@),
        decreases n - i,
    {
        proof {
            assert(rows_view(rows@).subrange(0, i + 1).drop_last() =~= rows_view(
                rows@,
            ).subrange(0, i as int));
            assert(rows_view(rows@).subrange(0, i + 1).last() == rows_view(rows@)[i as int]);
            assert(rows_view(rows@)[i as int] == rows@[i as int]@);
        }
        if str_eq(rows[i].name.as_str(), nm.as_str()) {
            c = c + 1;
        }
        i = i + 1;
    }
    proof {
        assert(rows_view(rows@).subrange(0, n as int) =~= rows_view(rows@));
    }
    c
}

/// The weight of a name candidate: the generic placeholder scores its raw
/// frequency, every other candidate ten times its frequency.
pub open spec fn name_score(rows: Seq<RowV>, nm: Seq<char>) -> int {
    if ci_eq_seq(nm, "Cours"@) {
        count_name(rows, nm)
    } else {
        10 * count_name(rows, nm)
    }
}

/// The vote over the sorted candidates: a later candidate wins only with a
/// strictly greater score, so ties keep the earlier (lexicographically
/// smaller) winner.
pub open spec fn vote(
    names: Seq<Seq<char>>,
    i: int,
    rows: Seq<RowV>,
    best: Option<(Seq<char>, int)>,
) -> Option<Seq<char>>
    decreases names.len() - i,
{
    if i < 0 || i >= names.len() {
        match best {
            Some(b) => Some(b.0),
            None => None,
        }
    } else {
        let sc = name_score(rows, names[i]);
        let best2 = match best {
            None => Some((names[i], sc)),
            Some(b) => if sc > b.1 {
                Some((names[i], sc))
            } else {
                Some(b)
            },
        };
        vote(names, i + 1, rows, best2)
    }
}

fn vote_exec(
    names: &Vec<String>,
    i: usize,
    rows: &Vec<Row>,
    best: Option<(String, u128)>,
) -> (r: Option<String>)
    requires
        i <= names@.len(),
    ensures
        r.deep_view() == vote(
            strs_view(names@),
            i as int,
            rows_view(rows@),
            match best {
                Some(b) => Some((b.0@, b.1 as int)),
                None => None,
            },
        ),
    decreases names@.len() - i,
{
    if i >= names.len() {
        return match best {
            Some(b) => Some(b.0),
            None => None,
        };
    }
    proof {
        assert(strs_view(names@)[i as int] == names@[i as int]@);
    }
    let cnt = count_name_exec(rows, &names[i]);
    let nm_chars = chars_of(names[i].as_str());
    let generic = ci_eq_str(&nm_chars, "Cours");
    let sc: u128 = if generic {
        cnt as u128
    } else {
        10 * (cnt as u128)
    };
    proof {
        assert(sc == name_score(rows_view(rows@), strs_view(names@)[i as int]));
    }
    let best2: Option<(String, u128)> = match best {
        None => Some((names[i].clone(), sc)),
        Some(b) => if sc > b.1 {
            Some((names[i].clone(), sc))
        } else {
            Some(b)
        },
    };
    vote_exec(names, i + 1, rows, best2)
}

/// One course assembled from the rows of one code.
pub open spec fn course_of(rows: Seq<RowV>, code: Seq<char>) -> CourseV {
    let rs = rows_for_code(rows, code);
    CourseV {
        name: match vote(names_of(rs), 0, rs, None) {
            Some(n) => n,
            None => code,
        },
        code: code,
        special: code == "special"@,
        groups: groups_of(rs),
        variants: variants_of(rs, keys_of(rs), 0),
    }
}

fn course_of_exec(rows: &Vec<Row>, code: &String) -> (r: Course)
    ensures
        r@ == course_of(rows_view(rows@), code@),
{
    let rs = rows_for_code_exec(rows, code);
    let names = names_of_exec(&rs);
    let name = match vote_exec(&names, 0, &rs, None) {
        Some(n) => n,
        None => code.clone(),
    };
    let ks = keys_of_exec(&rs);
    let special = str_eq(code.as_str(), "special");
    proof {
        if code@ == "special"@ {
            assert(special);
        }
    }
    let groups = groups_of_exec(&rs);
    proof {
        lemma_strs_view_dv(&groups);
    }
    Course {
        name,
        code: code.clone(),
        special,
        groups,
        variants: variants_of_exec(&rs, &ks, 0),
    }
}

/// Inserts a course after every course whose name does not come after its
/// own, keeping the build order among equal names.
pub open spec fn insert_course(cs: Seq<CourseV>, c: CourseV) -> Seq<CourseV>
    decreases cs.len(),
{
    if cs.len() == 0 {
        seq![c]
    } else if lex_le(cs[0].name, c.name) {
        seq![cs[0]] + insert_course(cs.drop_first(), c)
    } else {
        seq![c] + cs
    }
}

/// The course list sorted by name, stably.
pub open spec fn sort_courses(cs: Seq<CourseV>) -> Seq<CourseV>
    decreases cs.len(),
{
    if cs.len() == 0 {
        Seq::<CourseV>::empty()
    } else {
        insert_course(sort_courses(cs.drop_last()), cs.last())
    }
}

/// The whole course list of a feed's rows: one course per distinct code,
/// sorted by canonical name.
pub open spec fn build_courses_spec(rows: Seq<RowV>) -> Seq<CourseV> {
    sort_courses(courses_unsorted(rows, codes_of(rows), 0))
}

/// The unsorted course list, one per code.
pub open spec fn courses_unsorted(rows: Seq<RowV>, codes: Seq<Seq<char>>, i: int) -> Seq<CourseV>
    decreases codes.len() - i,
{
    if i < 0 || i >= codes.len() {
        Seq::<CourseV>::empty()
    } else {
        seq![course_of(rows, codes[i])] + courses_unsorted(rows, codes, i + 1)
    }
}

fn insert_course_exec(cs: Vec<Course>, i: usize, c: Course) -> (r: Vec<Course>)
    requires
        i <= cs@.len(),
    ensures
        courses_view(r@) == insert_course(
            courses_view(cs@).subrange(i as int, courses_view(cs@).len() as int),
            c@,
        ),
    decreases cs@.len() - i,
{
    let ghost tail = courses_view(cs@).subrange(i as int, courses_view(cs@).len() as int);
    if i >= cs.len() {
        let mut r: Vec<Course> = Vec::new();
        r.push(c);
        proof {
            assert(courses_view(r@) =~= seq![c@]);
        }
        return r;
    }
    proof {
        assert(tail[0] == courses_view(cs@)[i as int]);
        assert(tail.drop_first() =~= courses_view(cs@).subrange(
            i + 1,
            courses_view(cs@).len() as int,
        ));
    }
    let hn = chars_of(cs[i].name.as_str());
    let cn = chars_of(c.name.as_str());
    if lex_le_exec(&hn, &cn) {
        let head = clone_course(&cs[i]);
        let rest = insert_course_exec(cs, i + 1, c);
        let mut r: Vec<Course> = Vec::new();
        r.push(head);
        let r2 = append_courses(r, rest);
        proof {
            assert(courses_view(r2@) =~= seq![tail[0]] + insert_course(tail.drop_first(), c@));
        }
        r2
    } else {
        let mut r: Vec<Course> = Vec::new();
        r.push(c);
        proof {
            assert(courses_view(r@) =~= seq![c@] + courses_view(cs@).subrange(i as int, i as int));
        }
        let mut k: usize = i;
        let n = cs.len();
        while k < n
            invariant
                i <= k <= n,
                n == cs@.len(),
                courses_view(r@) == seq![c@] + courses_view(cs@).subrange(i as int, k as int),
            decreases n - k,
        {
            let ghost prev = r@;
            let cl = clone_course(&cs[k]);
            r.push(cl);
            k = k + 1;
            proof {
                lemma_courses_view_push(prev, cl);
                assert(courses_view(cs@).subrange(i as int, k as int) =~= courses_view(
                    cs@,
                ).subrange(i as int, k - 1).push(courses_view(cs@)[k - 1]));
                assert(courses_view(r@) =~= seq![c@] + courses_view(cs@).subrange(
                    i as int,
                    k as int,
                ));
            }
        }
        proof {
            assert(courses_view(r@) =~= seq![c@] + tail);
        }
        r
    }
}

fn append_courses(base: Vec<Course>, more: Vec<Course>) -> (r: Vec<Course>)
    ensures
        courses_view(r@) == courses_view(base@) + courses_view(more@),
{
    let mut r = base;
    let ghost head = courses_view(r@);
    let n = more.len();
    let mut k: usize = 0;
    proof {
        assert(courses_view(r@) =~= head + courses_view(more@).subrange(0, 0));
    }
    while k < n
        invariant
            k <= n,
            n == more@.len(),
            courses_view(r@) == head + courses_view(more@).subrange(0, k as int),
        decreases n - k,
    {
        let ghost prev = r@;
        let cl = clone_course(&more[k]);
        r.push(cl);
        k = k + 1;
        proof {
            lemma_courses_view_push(prev, cl);
            assert(courses_view(more@).subrange(0, k as int) =~= courses_view(more@).subrange(
                0,
                k - 1,
            ).push(courses_view(more@)[k - 1]));
            assert(courses_view(r@) =~= head + courses_view(more@).subrange(0, k as int));
        }
    }
    proof {
        assert(courses_view(more@).subrange(0, n as int) =~= courses_view(more@));
    }
    r
}

fn clone_course(c: &Course) -> (r: Course)
    ensures
        r@ == c@,
{
    let n = c.variants.len();
    let mut vs: Vec<CourseVariant> = Vec::new();
    let mut i: usize = 0;
    while i < n
        invariant
            n == c.variants@.len(),
            i <= n,
            variants_view(vs@) == variants_view(c.variants@).subrange(0, i as int),
        decreases n - i,
    {
        let ghost prev = vs@;
        let cl = clone_variant(&c.variants[i]);
        vs.push(cl);
        i = i + 1;
        proof {
            lemma_variants_view_push(prev, cl);
            assert(variants_view(c.variants@).subrange(0, i as int) =~= variants_view(
                c.variants@,
            ).subrange(0, i - 1).push(variants_view(c.variants@)[i - 1]));
            assert(variants_view(vs@) =~= variants_view(c.variants@).subrange(0, i as int));
        }
    }
    proof {
        assert(variants_view(c.variants@).subrange(0, n as int) =~= variants_view(c.variants@));
    }
    Course {
        name: c.name.clone(),
        code: c.code.clone(),
        special: c.special,
        groups: clone_string_vec(&c.groups),
        variants: vs,
    }
}

/// Builds the sorted course list of a feed's rows.
pub fn build_courses(rows: &Vec<Row>) -> (r: Vec<Course>)
    ensures
        courses_view(r@) == build_courses_spec(rows_view(rows@)),
{
    let codes = codes_of_exec(rows);
    let n = codes.len();
    let mut unsorted: Vec<Course> = Vec::new();
    let mut i: usize = 0;
    proof {
        assert(courses_view(unsorted@) =~= Seq::<CourseV>::empty());
    }
    while i < n
        invariant
            n == codes@.len(),
            strs_view(codes@) == codes_of(rows_view(rows@)),
            i <= n,
            courses_view(unsorted@).len() == i,
            forall|k: int|
                0 <= k < i ==> #[trigger] courses_view(unsorted@)[k] == course_of(
                    rows_view(rows@),
                    strs_view(codes@)[k],
                ),
        decreases n - i,
    {
        proof {
            assert(strs_view(codes@)[i as int] == codes@[i as int]@);
        }
        let ghost prev = unsorted@;
        let c = course_of_exec(rows, &codes[i]);
        unsorted.push(c);
        i = i + 1;
        proof {
            lemma_courses_view_push(prev, c);
        }
    }
    proof {
        lemma_courses_unsorted(rows_view(rows@), strs_view(codes@), courses_view(unsorted@), 0);
    }
    let m = unsorted.len();
    let mut out: Vec<Course> = Vec::new();
    let mut j: usize = 0;
    proof {
        assert(courses_view(out@) =~= sort_courses(courses_view(unsorted@).subrange(0, 0)));
    }
    while j < m
        invariant
            m == unsorted@.len(),
            j <= m,
            courses_view(out@) == sort_courses(courses_view(unsorted@).subrange(0, j as int)),
        decreases m - j,
    {
        proof {
            assert(courses_view(unsorted@).subrange(0, j + 1).drop_last() =~= courses_view(
                unsorted@,
            ).subrange(0, j as int));
            assert(courses_view(unsorted@).subrange(0, j + 1).last() == courses_view(
                unsorted@,
            )[j as int]);
            assert(courses_view(out@).subrange(0, courses_view(out@).len() as int) =~= courses_view(
                out@,
            ));
        }
        let cl = clone_course(&unsorted[j]);
        out = insert_course_exec(out, 0, cl);
        j = j + 1;
    }
    proof {
        assert(courses_view(unsorted@).subrange(0, m as int) =~= courses_view(unsorted@));
    }
    out
}

/// An element-wise equal course list is the unsorted course list.
proof fn lemma_courses_unsorted(
    rows: Seq<RowV>,
    codes: Seq<Seq<char>>,
    built: Seq<CourseV>,
    i: int,
)
    requires
        0 <= i <= codes.len(),
        built.len() == codes.len() - i,
        forall|k: int|
            0 <= k < built.len() ==> #[trigger] built[k] == course_of(rows, codes[i + k]),
    ensures
        built == courses_unsorted(rows, codes, i),
    decreases codes.len() - i,
{
    if i < codes.len() {
        assert(forall|k: int|
            0 <= k < built.len() - 1 ==> #[trigger] built.drop_first()[k] == built[k + 1]);
        lemma_courses_unsorted(rows, codes, built.drop_first(), i + 1);
        assert(built[0] == course_of(rows, codes[i]));
        assert(built =~= seq![built[0]] + built.drop_first());
    } else {
        assert(built =~= Seq::<CourseV>::empty());
    }
}

/// Builds one cohort and track's bundle: the sorted course list with the
/// generation timestamp.
pub fn build_bundle(rows: &Vec<Row>, master_year: &str, parcours: &str, now: i64) -> (r: Bundle)
    requires
        TS_MIN <= now <= TS_MAX,
    ensures
        courses_view(r.courses@) == build_courses_spec(rows_view(rows@)),
        r.master_year@ == master_year@,
        r.parcours@ == parcours@,
        r.updated_at@ == rfc3339_utc_str_of(now as int),
{
    Bundle {
        master_year: String::from_str(master_year),
        parcours: String::from_str(parcours),
        courses: build_courses(rows),
        updated_at: format_rfc3339_utc(now),
    }
}

/// Processes one raw feed document end to end: the document is parsed, each
/// event extracted with a fresh identifier where it carries none, the
/// academic-year window applied, every title classified, and the course
/// hierarchy aggregated and stamped.
pub fn process_feed(
    bytes: &[u8],
    master_year: &str,
    parcours: &str,
    now: i64,
    ws: i64,
    we: i64,
) -> (r: Bundle)
    requires
        TS_MIN <= now <= TS_MAX,
    ensures
        exists|uids: Seq<Seq<char>>|
            uids.len() == ical_events_of(bytes@).len() && courses_view(r.courses@)
                == build_courses_spec(
                rows_spec(ical_events_of(bytes@), uids, now as int, ws as int, we as int),
            ),
        r.master_year@ == master_year@,
        r.parcours@ == parcours@,
        r.updated_at@ == rfc3339_utc_str_of(now as int),
{
    let events = parse_ical_events(bytes);
    let rows = build_rows(events, now, ws, we);
    build_bundle(&rows, master_year, parcours, now)
}

/// One discovery-index entry: per (code, source), the course's display name,
/// the group labels observed, and the source identifier. Special courses are
/// excluded; distinct sources are never merged.
pub struct IndexEntry {
    pub name: String,
    pub code: String,
    pub groups: Vec<String>,
    pub source: String,
}

pub ghost struct IndexEntryV {
    pub name: Seq<char>,
    pub code: Seq<char>,
    pub groups: Seq<Seq<char>>,
    pub source: Seq<char>,
}

impl View for IndexEntry {
    type V = IndexEntryV;

    open spec fn view(&self) -> IndexEntryV {
        IndexEntryV {
            name: self.name@,
            code: self.code@,
            groups: strs_view(self.groups@),
            source: self.source@,
        }
    }
}

/// The views of an index list.
pub open spec fn index_view(v: Seq<IndexEntry>) -> Seq<IndexEntryV> {
    v.map_values(|e: IndexEntry| e@)
}

/// Group labels folded into a sorted set of labels.
pub open spec fn merge_groups(gs: Seq<Seq<char>>, add: Seq<Seq<char>>) -> Seq<Seq<char>>
    decreases add.len(),
{
    if add.len() == 0 {
        gs
    } else {
        insert_sorted(merge_groups(gs, add.drop_last()), add.last())
    }
}

fn merge_groups_exec(gs: Vec<String>, add: &Vec<String>) -> (r: Vec<String>)
    ensures
        strs_view(r@) == merge_groups(strs_view(gs@), strs_view(add@)),
{
    let n = add.len();
    let mut acc = gs;
    let ghost base = strs_view(acc@);
    let mut i: usize = 0;
    proof {
        assert(strs_view(add@).subrange(0, 0) =~= Seq::<Seq<char>>::empty());
        assert(merge_groups(base, strs_view(add@).subrange(0, 0)) == base);
    }
    while i < n
        invariant
            n == add@.len(),
            i <= n,
            strs_view(acc@) == merge_groups(base, strs_view(add@).subrange(0, i as int)),
        decreases n - i,
    {
        proof {
            assert(strs_view(add@).subrange(0, i + 1).drop_last() =~= strs_view(add@).subrange(
                0,
                i as int,
            ));
            assert(strs_view(add@).subrange(0, i + 1).last() == strs_view(add@)[i as int]);
            assert(strs_view(add@)[i as int] == add@[i as int]@);
        }
        acc = insert_sorted_exec(&acc, add[i].clone());
        i = i + 1;
    }
    proof {
        assert(strs_view(add@).subrange(0, n as int) =~= strs_view(add@));
    }
    acc
}

/// One non-special course merged into an entry that carries its key: the
/// first non-generic name is kept, the group labels are united.
pub open spec fn merge_entry(e: IndexEntryV, c: CourseV) -> IndexEntryV {
    IndexEntryV {
        name: if ci_eq_seq(e.name, "Cours"@) && !ci_eq_seq(c.name, "Cours"@) {
            c.name
        } else {
            e.name
        },
        code: e.code,
        groups: merge_groups(e.groups, c.groups),
        source: e.source,
    }
}

/// The fresh entry for a course first seen under a source.
pub open spec fn new_entry(c: CourseV, src: Seq<char>) -> IndexEntryV {
    IndexEntryV {
        name: c.name,
        code: c.code,
        groups: merge_groups(Seq::<Seq<char>>::empty(), c.groups),
        source: src,
    }
}

/// One non-special course folded into the index: the entry with its (code,
/// source) key is merged, or a fresh one appended.
pub open spec fn add_course_index(es: Seq<IndexEntryV>, c: CourseV, src: Seq<char>) -> Seq<
    IndexEntryV,
>
    decreases es.len(),
{
    if es.len() == 0 {
        seq![new_entry(c, src)]
    } else if es[0].code == c.code && es[0].source == src {
        seq![merge_entry(es[0], c)] + es.drop_first()
    } else {
        seq![es[0]] + add_course_index(es.drop_first(), c, src)
    }
}

/// A whole course list folded into the index, special courses skipped.
pub open spec fn update_index_spec(
    es: Seq<IndexEntryV>,
    cs: Seq<CourseV>,
    src: Seq<char>,
) -> Seq<IndexEntryV>
    decreases cs.len(),
{
    if cs.len() == 0 {
        es
    } else {
        let prior = update_index_spec(es, cs.drop_last(), src);
        if cs.last().special {
            prior
        } else {
            add_course_index(prior, cs.last(), src)
        }
    }
}

fn clone_index_entry(e: &IndexEntry) -> (r: IndexEntry)
    ensures
        r@ == e@,
{
    proof {
        lemma_strs_view_dv(&e.groups);
    }
    let groups = clone_string_vec(&e.groups);
    proof {
        lemma_strs_view_dv(&groups);
    }
    IndexEntry {
        name: e.name.clone(),
        code: e.code.clone(),
        groups,
        source: e.source.clone(),
    }
}

fn add_course_index_from(es: &Vec<IndexEntry>, i: usize, c: &Course, src: &String) -> (r: Vec<
    IndexEntry,
>)
    requires
        i <= es@.len(),
    ensures
        index_view(r@) == add_course_index(
            index_view(es@).subrange(i as int, index_view(es@).len() as int),
            (*c)@,
            src@,
        ),
    decreases es@.len() - i,
{
    let ghost tail = index_view(es@).subrange(i as int, index_view(es@).len() as int);
    if i >= es.len() {
        proof {
            lemma_strs_view_dv(&c.groups);
        }
        let empty_groups: Vec<String> = Vec::new();
        proof {
            assert(strs_view(empty_groups@) =~= Seq::<Seq<char>>::empty());
        }
        let groups = merge_groups_exec(empty_groups, &c.groups);
        let e = IndexEntry {
            name: c.name.clone(),
            code: c.code.clone(),
            groups,
            source: src.clone(),
        };
        let mut r: Vec<IndexEntry> = Vec::new();
        r.push(e);
        proof {
            assert(index_view(r@) =~= seq![new_entry((*c)@, src@)]);
        }
        return r;
    }
    proof {
        assert(tail[0] == index_view(es@)[i as int]);
        assert(tail.drop_first() =~= index_view(es@).subrange(i + 1, index_view(es@).len() as int));
    }
    if str_eq(es[i].code.as_str(), c.code.as_str()) && str_eq(es[i].source.as_str(), src.as_str()) {
        let old_name_chars = chars_of(es[i].name.as_str());
        let new_name_chars = chars_of(c.name.as_str());
        let name = if ci_eq_str(&old_name_chars, "Cours") && !ci_eq_str(&new_name_chars, "Cours") {
            c.name.clone()
        } else {
            es[i].name.clone()
        };
        proof {
            lemma_strs_view_dv(&es@[i as int].groups);
            lemma_strs_view_dv(&c.groups);
        }
        let gs = clone_string_vec(&es[i].groups);
        proof {
            lemma_strs_view_dv(&gs);
        }
        let groups = merge_groups_exec(gs, &c.groups);
        let merged = IndexEntry {
            name,
            code: es[i].code.clone(),
            groups,
            source: es[i].source.clone(),
        };
        let mut r: Vec<IndexEntry> = Vec::new();
        proof {
            assert(merged@ == merge_entry(tail[0], (*c)@));
        }
        r.push(merged);
        let n = es.len();
        let mut k: usize = i + 1;
        proof {
            assert(index_view(r@) =~= seq![merge_entry(tail[0], (*c)@)] + index_view(
                es@,
            ).subrange(i + 1, i + 1));
        }
        while k < n
            invariant
                i + 1 <= k <= n,
                n == es@.len(),
                index_view(r@) == seq![merge_entry(index_view(es@)[i as int], (*c)@)] + index_view(
                    es@,
                ).subrange(i + 1, k as int),
            decreases n - k,
        {
            let ghost prev = r@;
            let cl = clone_index_entry(&es[k]);
            r.push(cl);
            k = k + 1;
            proof {
                assert(index_view(r@) =~= index_view(prev).push(index_view(es@)[k - 1]));
                assert(index_view(es@).subrange(i + 1, k as int) =~= index_view(es@).subrange(
                    i + 1,
                    k - 1,
                ).push(index_view(es@)[k - 1]));
                assert(index_view(r@) =~= seq![merge_entry(index_view(es@)[i as int], (*c)@)]
                    + index_view(es@).subrange(i + 1, k as int));
            }
        }
        proof {
            assert(index_view(r@) =~= seq![merge_entry(tail[0], (*c)@)] + tail.drop_first());
        }
        r
    } else {
        let rest = add_course_index_from(es, i + 1, c, src);
        let mut r: Vec<IndexEntry> = Vec::new();
        r.push(clone_index_entry(&es[i]));
        let m = rest.len();
        let ghost head = index_view(r@);
        let mut k: usize = 0;
        proof {
            assert(index_view(r@) =~= head + index_view(rest@).subrange(0, 0));
        }
        while k < m
            invariant
                k <= m,
                m == rest@.len(),
                index_view(r@) == head + index_view(rest@).subrange(0, k as int),
            decreases m - k,
        {
            let ghost prev = r@;
            let cl = clone_index_entry(&rest[k]);
            r.push(cl);
            k = k + 1;
            proof {
                assert(index_view(r@) =~= index_view(prev).push(index_view(rest@)[k - 1]));
                assert(index_view(rest@).subrange(0, k as int) =~= index_view(rest@).subrange(
                    0,
                    k - 1,
                ).push(index_view(rest@)[k - 1]));
                assert(index_view(r@) =~= head + index_view(rest@).subrange(0, k as int));
            }
        }
        proof {
            assert(index_view(rest@).subrange(0, m as int) =~= index_view(rest@));
            assert(index_view(r@) =~= seq![tail[0]] + add_course_index(tail.drop_first(), (*c)@, src@));
        }
        r
    }
}

/// Folds one bundle's courses into a cohort's index, skipping special
/// courses, never merging distinct sources.
pub fn update_index(entries: Vec<IndexEntry>, courses: &Vec<Course>, source: &String) -> (r: Vec<
    IndexEntry,
>)
    ensures
        index_view(r@) == update_index_spec(index_view(entries@), courses_view(courses@), source@),
{
    let n = courses.len();
    let mut acc = entries;
    let ghost base = index_view(acc@);
    let mut i: usize = 0;
    proof {
        assert(courses_view(courses@).subrange(0, 0) =~= Seq::<CourseV>::empty());
    }
    while i < n
        invariant
            n == courses@.len(),
            i <= n,
            index_view(acc@) == update_index_spec(
                base,
                courses_view(courses@).subrange(0, i as int),
                source@,
            ),
        decreases n - i,
    {
        proof {
            assert(courses_view(courses@).subrange(0, i + 1).drop_last() =~= courses_view(
                courses@,
            ).subrange(0, i as int));
            assert(courses_view(courses@).subrange(0, i + 1).last() == courses_view(
                courses@,
            )[i as int]);
            assert(courses_view(courses@)[i as int] == courses@[i as int]@);
        }
        if !courses[i].special {
            proof {
                assert(index_view(acc@).subrange(0, index_view(acc@).len() as int) =~= index_view(
                    acc@,
                ));
            }
            acc = add_course_index_from(&acc, 0, &courses[i], source);
        }
        i = i + 1;
    }
    proof {
        assert(courses_view(courses@).subrange(0, n as int) =~= courses_view(courses@));
    }
    acc
}

} // verus!
