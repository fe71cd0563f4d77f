//! Reading one raw feed into session records: property access, identifier
//! generation, timestamp normalization, exclusion lists, and the
//! academic-year inclusion window.
use vstd::prelude::*;

use crate::classify::copy_range;
use crate::ics::{trim_spec, trim_str};
use crate::rrule::{next_char, next_char_exec, parse_rrule, parse_rrule_spec};
use crate::text::{chars_of, ci_eq_seq, ci_eq_str, lex_le, lex_le_exec, string_from_chars};
use crate::timefmt::{normalize_dt, normalize_secs, rfc3339_utc_str_of, TS_MAX, TS_MIN};

verus! {

/// One event of the raw feed, as its list of properties: each a name and an
/// optional value.
pub struct PropEvent {
    pub props: Vec<(String, Option<String>)>,
}

/// The view of one property list.
pub open spec fn props_view(ps: Seq<(String, Option<String>)>) -> Seq<(Seq<char>, Option<Seq<char>>)> {
    ps.map_values(|p: (String, Option<String>)| (p.0@, p.1.deep_view()))
}

impl View for PropEvent {
    type V = Seq<(Seq<char>, Option<Seq<char>>)>;

    open spec fn view(&self) -> Seq<(Seq<char>, Option<Seq<char>>)> {
        props_view(self.props@)
    }
}

/// The views of a list of feed events.
pub open spec fn pevs_view(evs: Seq<PropEvent>) -> Seq<Seq<(Seq<char>, Option<Seq<char>>)>> {
    evs.map_values(|e: PropEvent| e@)
}

/// The events that the outside calendar parser reads out of a feed document:
/// for each event, its properties in order, each a name and optional value.
pub uninterp spec fn ical_events_of(b: Seq<u8>) -> Seq<Seq<(Seq<char>, Option<Seq<char>>)>>;

/// Relies on `ical::IcalParser`: parsing is a function of the document bytes
/// alone; the events of the first calendar of the document are returned, and
/// an unreadable document yields none.
#[verifier::external_body]
pub fn parse_ical_events(bytes: &[u8]) -> (r: Vec<PropEvent>)
    ensures
        pevs_view(r@) == ical_events_of(bytes@),
{
    let mut parser = ical::IcalParser::new(bytes);
    let events = match parser.next() {
        Some(Ok(cal)) => cal.events,
        _ => Vec::new(),
    };
    events
        .into_iter()
        .map(|e| PropEvent {
            props: e.properties.into_iter().map(|p| (p.name, p.value)).collect(),
        })
        .collect()
}

/// A fresh identifier for an event that carries none.
pub fn fresh_uid() -> (r: String)
    ensures
        r@.len() == 36,
{
    uuid_v4_string()
}

/// Relies on `uuid::Uuid::new_v4` and its `Display` rendering: a random
/// identifier in the hyphenated form, which is exactly 36 characters;
/// nothing else is assumed of its value. The outside call aborts if the
/// operating system's random source fails — an environmental condition no
/// caller input excludes.
#[verifier::external_body]
fn uuid_v4_string() -> (r: String)
    ensures
        r@.len() == 36,
{
    uuid::Uuid::new_v4().to_string()
}

/// The views of a list of strings.
pub open spec fn strs_view(v: Seq<String>) -> Seq<Seq<char>> {
    v.map_values(|x: String| x@)
}

/// Pushing a string pushes its view.
pub proof fn lemma_strs_view_push(v: Seq<String>, x: String)
    ensures
        strs_view(v.push(x)) == strs_view(v).push(x@),
{
    assert(strs_view(v.push(x)) =~= strs_view(v).push(x@));
}

/// The two views of a string vector agree.
pub proof fn lemma_strs_view_dv(v: &Vec<String>)
    ensures
        v.deep_view() == strs_view(v@),
{
    assert(v.deep_view() =~= strs_view(v@));
}

/// The value of the first property with the given name (compared
/// case-insensitively), when that property carries one.
pub open spec fn get_prop_spec(
    ps: Seq<(Seq<char>, Option<Seq<char>>)>,
    name: Seq<char>,
) -> Option<Seq<char>>
    decreases ps.len(),
{
    if ps.len() == 0 {
        None
    } else if ci_eq_seq(ps[0].0, name) {
        ps[0].1
    } else {
        get_prop_spec(ps.drop_first(), name)
    }
}

/// Reads the first property with the given name.
pub fn get_prop(ev: &PropEvent, name: &str) -> (r: Option<String>)
    ensures
        r.deep_view() == get_prop_spec(ev@, name@),
{
    let n = ev.props.len();
    let mut i: usize = 0;
    proof {
        assert(ev@.subrange(0, n as int) =~= ev@);
    }
    while i < n
        invariant
            n == ev.props@.len(),
            i <= n,
            get_prop_spec(ev@, name@) == get_prop_spec(
                ev@.subrange(i as int, n as int),
                name@,
            ),
        decreases n - i,
    {
        let ghost tail = ev@.subrange(i as int, n as int);
        proof {
            assert(tail[0] == ev@[i as int]);
            assert(tail.drop_first() =~= ev@.subrange(i + 1, n as int));
        }
        let nm_chars = chars_of(ev.props[i].0.as_str());
        if ci_eq_str(&nm_chars, name) {
            match &ev.props[i].1 {
                Some(v) => {
                    return Some(v.clone());
                },
                None => {
                    return None;
                },
            }
        }
        i = i + 1;
    }
    proof {
        assert(ev@.subrange(n as int, n as int) =~= Seq::<(Seq<char>, Option<Seq<char>>)>::empty());
    }
    None
}

/// The values of every property with the given name, in order, properties
/// without a value passed over.
pub open spec fn get_props_spec(
    ps: Seq<(Seq<char>, Option<Seq<char>>)>,
    name: Seq<char>,
) -> Seq<Seq<char>>
    decreases ps.len(),
{
    if ps.len() == 0 {
        Seq::<Seq<char>>::empty()
    } else {
        (if ci_eq_seq(ps[0].0, name) {
            match ps[0].1 {
                Some(v) => seq![v],
                None => Seq::<Seq<char>>::empty(),
            }
        } else {
            Seq::<Seq<char>>::empty()
        }) + get_props_spec(ps.drop_first(), name)
    }
}

/// Reads every property with the given name.
pub fn get_props(ev: &PropEvent, name: &str) -> (r: Vec<String>)
    ensures
        strs_view(r@) == get_props_spec(ev@, name@),
{
    let n = ev.props.len();
    let mut out: Vec<String> = Vec::new();
    let mut i: usize = 0;
    proof {
        assert(strs_view(out@) + get_props_spec(ev@, name@) =~= get_props_spec(ev@, name@));
        assert(ev@.subrange(0, n as int) =~= ev@);
    }
    while i < n
        invariant
            n == ev.props@.len(),
            i <= n,
            get_props_spec(ev@, name@) == strs_view(out@) + get_props_spec(
                ev@.subrange(i as int, n as int),
                name@,
            ),
        decreases n - i,
    {
        let ghost tail = ev@.subrange(i as int, n as int);
        proof {
            assert(tail[0] == ev@[i as int]);
            assert(tail.drop_first() =~= ev@.subrange(i + 1, n as int));
        }
        let nm_chars = chars_of(ev.props[i].0.as_str());
        if ci_eq_str(&nm_chars, name) {
            match &ev.props[i].1 {
                Some(v) => {
                    let ghost prev = out@;
                    let cl = v.clone();
                    out.push(cl);
                    proof {
                        lemma_strs_view_push(prev, cl);
                        assert(strs_view(prev) + (seq![v@] + get_props_spec(
                            ev@.subrange(i + 1, n as int),
                            name@,
                        )) =~= strs_view(out@) + get_props_spec(
                            ev@.subrange(i + 1, n as int),
                            name@,
                        ));
                    }
                },
                None => {},
            }
        }
        i = i + 1;
    }
    proof {
        assert(ev@.subrange(n as int, n as int) =~= Seq::<(Seq<char>, Option<Seq<char>>)>::empty());
        assert(strs_view(out@) + get_props_spec(ev@.subrange(n as int, n as int), name@)
            =~= strs_view(out@));
    }
    out
}

/// Inserts a value into a sorted list of distinct values, keeping order and
/// dropping a duplicate.
pub open spec fn insert_sorted(xs: Seq<Seq<char>>, x: Seq<char>) -> Seq<Seq<char>>
    decreases xs.len(),
{
    if xs.len() == 0 {
        seq![x]
    } else if x == xs[0] {
        xs
    } else if lex_le(x, xs[0]) {
        seq![x] + xs
    } else {
        seq![xs[0]] + insert_sorted(xs.drop_first(), x)
    }
}

/// Inserts a value into a sorted list of distinct values.
pub fn insert_sorted_exec(xs: &Vec<String>, x: String) -> (r: Vec<String>)
    ensures
        strs_view(r@) == insert_sorted(strs_view(xs@), x@),
{
    proof {
        assert(strs_view(xs@).subrange(0, strs_view(xs@).len() as int) =~= strs_view(xs@));
    }
    insert_sorted_from(xs, 0, x)
}

fn insert_sorted_from(xs: &Vec<String>, i: usize, x: String) -> (r: Vec<String>)
    requires
        i <= xs@.len(),
    ensures
        strs_view(r@) == insert_sorted(
            strs_view(xs@).subrange(i as int, strs_view(xs@).len() as int),
            x@,
        ),
    decreases xs@.len() - i,
{
    let ghost tail = strs_view(xs@).subrange(i as int, strs_view(xs@).len() as int);
    if i >= xs.len() {
        let mut r: Vec<String> = Vec::new();
        r.push(x);
        proof {
            assert(strs_view(r@) =~= seq![x@]);
        }
        return r;
    }
    proof {
        assert(tail[0] == strs_view(xs@)[i as int]);
        assert(tail.drop_first() =~= strs_view(xs@).subrange(i + 1, strs_view(xs@).len() as int));
    }
    let xc = chars_of(x.as_str());
    let hc = chars_of(xs[i].as_str());
    if crate::text::str_eq(x.as_str(), xs[i].as_str()) {
        let r = copy_tail(xs, i);
        proof {
            assert(strs_view(r@) =~= tail);
        }
        r
    } else if lex_le_exec(&xc, &hc) {
        let rest = copy_tail(xs, i);
        let mut r: Vec<String> = Vec::new();
        r.push(x);
        let r2 = append_all(r, &rest);
        proof {
            assert(strs_view(r2@) =~= seq![x@] + tail);
        }
        r2
    } else {
        let rest = insert_sorted_from(xs, i + 1, x);
        let mut r: Vec<String> = Vec::new();
        r.push(xs[i].clone());
        let r2 = append_all(r, &rest);
        proof {
            assert(strs_view(r2@) =~= seq![tail[0]] + insert_sorted(tail.drop_first(), x@));
        }
        r2
    }
}

/// Clones the entries from position `i` on.
fn copy_tail(xs: &Vec<String>, i: usize) -> (r: Vec<String>)
    requires
        i <= xs@.len(),
    ensures
        strs_view(r@) == strs_view(xs@).subrange(i as int, strs_view(xs@).len() as int),
{
    let n = xs.len();
    let mut r: Vec<String> = Vec::new();
    let mut k: usize = i;
    while k < n
        invariant
            i <= k <= n,
            n == xs@.len(),
            r@.len() == k - i,
            forall|j: int| 0 <= j < k - i ==> r@[j] == xs@[i + j],
        decreases n - k,
    {
        r.push(xs[k].clone());
        k = k + 1;
    }
    proof {
        assert(strs_view(r@) =~= strs_view(xs@).subrange(i as int, strs_view(xs@).len() as int));
    }
    r
}

/// Appends clones of all entries of `more` to `base`.
fn append_all(base: Vec<String>, more: &Vec<String>) -> (r: Vec<String>)
    ensures
        strs_view(r@) == strs_view(base@) + strs_view(more@),
{
    let mut r = base;
    let ghost head = r@;
    let n = more.len();
    let mut k: usize = 0;
    while k < n
        invariant
            k <= n,
            n == more@.len(),
            r@.len() == head.len() + k,
            forall|j: int| 0 <= j < head.len() ==> r@[j] == head[j],
            forall|j: int| 0 <= j < k ==> r@[head.len() + j] == more@[j],
        decreases n - k,
    {
        r.push(more[k].clone());
        k = k + 1;
    }
    proof {
        assert(strs_view(r@) =~= strs_view(head) + strs_view(more@));
    }
    r
}

/// One exclusion value folded into the sorted exclusion list: the value is a
/// comma-separated list of timestamps, each trimmed and normalized.
pub open spec fn exdate_fold(v: Seq<char>, i: int, acc: Seq<Seq<char>>, now: int) -> Seq<Seq<char>>
    decreases v.len() - i,
{
    if i > v.len() {
        acc
    } else {
        let e = next_char(v, i, ',');
        let e2 = if i <= e <= v.len() {
            e
        } else {
            v.len() as int
        };
        let part = trim_spec(v.subrange(i, e2));
        let acc2 = insert_sorted(acc, rfc3339_utc_str_of(normalize_secs(part, now)));
        if e2 >= v.len() {
            acc2
        } else {
            exdate_fold(v, e2 + 1, acc2, now)
        }
    }
}

/// All exclusion values folded in order.
pub open spec fn exdates_spec(vals: Seq<Seq<char>>, now: int) -> Seq<Seq<char>>
    decreases vals.len(),
{
    if vals.len() == 0 {
        Seq::<Seq<char>>::empty()
    } else {
        exdate_fold(vals.last(), 0, exdates_spec(vals.drop_last(), now), now)
    }
}

fn exdate_fold_exec(v: &Vec<char>, i: usize, acc: Vec<String>, now: i64) -> (r: Vec<String>)
    requires
        i <= v@.len(),
        TS_MIN <= now <= TS_MAX,
    ensures
        strs_view(r@) == exdate_fold(v@, i as int, strs_view(acc@), now as int),
    decreases v@.len() - i,
{
    let e = next_char_exec(v, i, ',');
    let seg = copy_range(v, i, e);
    let seg_s = string_from_chars(&seg);
    let part = trim_str(seg_s.as_str());
    let (_t, iso) = normalize_dt(part.as_str(), now);
    let acc2 = insert_sorted_exec(&acc, iso);
    if e >= v.len() {
        acc2
    } else {
        exdate_fold_exec(v, e + 1, acc2, now)
    }
}

/// Builds the sorted exclusion list of one event.
pub fn exdates_exec(vals: &Vec<String>, now: i64) -> (r: Vec<String>)
    requires
        TS_MIN <= now <= TS_MAX,
    ensures
        strs_view(r@) == exdates_spec(strs_view(vals@), now as int),
{
    let n = vals.len();
    let mut acc: Vec<String> = Vec::new();
    let mut i: usize = 0;
    proof {
        assert(strs_view(acc@) =~= exdates_spec(strs_view(vals@).subrange(0, 0), now as int));
    }
    while i < n
        invariant
            n == vals@.len(),
            i <= n,
            TS_MIN <= now <= TS_MAX,
            strs_view(acc@) == exdates_spec(strs_view(vals@).subrange(0, i as int), now as int),
        decreases n - i,
    {
        let vc = chars_of(vals[i].as_str());
        proof {
            assert(strs_view(vals@).subrange(0, i + 1).drop_last() =~= strs_view(
                vals@,
            ).subrange(0, i as int));
            assert(strs_view(vals@).subrange(0, i + 1).last() == strs_view(vals@)[i as int]);
            assert(vc@ == strs_view(vals@)[i as int]);
        }
        acc = exdate_fold_exec(&vc, 0, acc, now);
        i = i + 1;
    }
    proof {
        assert(strs_view(vals@).subrange(0, n as int) =~= strs_view(vals@));
    }
    acc
}

/// One extracted session record, ready for classification and synthesis.
pub struct SessionRec {
    pub uid: String,
    pub summary: String,
    pub location: Option<String>,
    pub start_secs: i64,
    pub start: String,
    pub end: String,
    pub rrule: Option<String>,
    pub until_secs: Option<i64>,
    pub exdates: Vec<String>,
    pub recurrence_id: Option<String>,
}

pub ghost struct SessionRecV {
    pub uid: Seq<char>,
    pub summary: Seq<char>,
    pub location: Option<Seq<char>>,
    pub start_secs: int,
    pub start: Seq<char>,
    pub end: Seq<char>,
    pub rrule: Option<Seq<char>>,
    pub until_secs: Option<int>,
    pub exdates: Seq<Seq<char>>,
    pub recurrence_id: Option<Seq<char>>,
}

impl View for SessionRec {
    type V = SessionRecV;

    open spec fn view(&self) -> SessionRecV {
        SessionRecV {
            uid: self.uid@,
            summary: self.summary@,
            location: self.location.deep_view(),
            start_secs: self.start_secs as int,
            start: self.start@,
            end: self.end@,
            rrule: self.rrule.deep_view(),
            until_secs: match self.until_secs {
                Some(t) => Some(t as int),
                None => None,
            },
            exdates: strs_view(self.exdates@),
            recurrence_id: self.recurrence_id.deep_view(),
        }
    }
}

/// What one feed event extracts to, given the identifier `u` that would be
/// generated for it: records missing a start or end timestamp extract to
/// nothing; all timestamps are normalized against the current instant.
pub open spec fn extract_spec(
    e: Seq<(Seq<char>, Option<Seq<char>>)>,
    u: Seq<char>,
    now: int,
) -> Option<SessionRecV> {
    let summary = match get_prop_spec(e, "SUMMARY"@) {
        Some(x) => x,
        None => "(sans titre)"@,
    };
    let uid = match get_prop_spec(e, "UID"@) {
        Some(x) => x,
        None => u,
    };
    match get_prop_spec(e, "DTSTART"@) {
        None => None,
        Some(s0) => match get_prop_spec(e, "DTEND"@) {
            None => None,
            Some(e0) => {
                let rr = get_prop_spec(e, "RRULE"@);
                Some(
                    SessionRecV {
                        uid: uid,
                        summary: summary,
                        location: get_prop_spec(e, "LOCATION"@),
                        start_secs: normalize_secs(s0, now),
                        start: rfc3339_utc_str_of(normalize_secs(s0, now)),
                        end: rfc3339_utc_str_of(normalize_secs(e0, now)),
                        rrule: rr,
                        until_secs: match rr {
                            Some(r) => parse_rrule_spec(r, now).until_secs,
                            None => None,
                        },
                        exdates: exdates_spec(get_props_spec(e, "EXDATE"@), now),
                        recurrence_id: match get_prop_spec(e, "RECURRENCE-ID"@) {
                            Some(rid) => Some(rfc3339_utc_str_of(normalize_secs(rid, now))),
                            None => None,
                        },
                    },
                )
            },
        },
    }
}

/// The view of an optional session record.
pub open spec fn opt_rec_view(r: Option<SessionRec>) -> Option<SessionRecV> {
    match r {
        Some(x) => Some(x@),
        None => None,
    }
}

/// Extracts one session record from a feed event; an event missing its start
/// or end yields nothing; a missing identifier is replaced by a fresh one.
pub fn extract_session(ev: &PropEvent, now: i64) -> (r: Option<SessionRec>)
    requires
        TS_MIN <= now <= TS_MAX,
    ensures
        exists|u: Seq<char>| u.len() == 36 && opt_rec_view(r) == extract_spec(ev@, u, now as int),
        r matches Some(rec) ==> (rec@.rrule is None ==> rec@.until_secs is None),
        r matches Some(rec) ==> TS_MIN <= rec@.start_secs <= TS_MAX,
{
    let start_raw = get_prop(ev, "DTSTART");
    let end_raw = get_prop(ev, "DTEND");
    let generated = fresh_uid();
    let ghost gen_u = generated@;
    let uid = match get_prop(ev, "UID") {
        Some(x) => x,
        None => generated,
    };
    let summary = match get_prop(ev, "SUMMARY") {
        Some(x) => x,
        None => String::from_str("(sans titre)"),
    };
    match (start_raw, end_raw) {
        (Some(s0), Some(e0)) => {
            let (start_secs, start_iso) = normalize_dt(s0.as_str(), now);
            let (_end_secs, end_iso) = normalize_dt(e0.as_str(), now);
            let rr = get_prop(ev, "RRULE");
            let until_secs = match &rr {
                Some(r) => {
                    let parsed = parse_rrule(r.as_str(), now);
                    parsed.until_secs
                },
                None => None,
            };
            let ex_vals = get_props(ev, "EXDATE");
            let exdates = exdates_exec(&ex_vals, now);
            let recurrence_id = match get_prop(ev, "RECURRENCE-ID") {
                Some(rid) => {
                    let (_t, iso) = normalize_dt(rid.as_str(), now);
                    Some(iso)
                },
                None => None,
            };
            let rec = SessionRec {
                uid,
                summary,
                location: get_prop(ev, "LOCATION"),
                start_secs,
                start: start_iso,
                end: end_iso,
                rrule: rr,
                until_secs,
                exdates,
                recurrence_id,
            };
            proof {
                assert(opt_rec_view(Some(rec)) == extract_spec(ev@, gen_u, now as int));
            }
            Some(rec)
        },
        _ => {
            proof {
                assert(opt_rec_view(None::<SessionRec>) == extract_spec(ev@, gen_u, now as int));
            }
            None
        },
    }
}

/// Whether a session is relevant to the academic year: an override or
/// non-recurring session exactly when its start lies in the window; a
/// recurring one unless its rule's end instant lies strictly before the
/// window's start.
pub open spec fn included_spec(
    is_override: bool,
    has_rrule: bool,
    until: Option<int>,
    start: int,
    ws: int,
    we: int,
) -> bool {
    if is_override {
        ws <= start <= we
    } else if has_rrule {
        match until {
            Some(u) => !(u < ws),
            None => true,
        }
    } else {
        ws <= start <= we
    }
}

/// Decides the inclusion window for one session record.
pub fn session_included(rec: &SessionRec, ws: i64, we: i64) -> (r: bool)
    ensures
        r == included_spec(
            rec@.recurrence_id is Some,
            rec@.rrule is Some,
            rec@.until_secs,
            rec@.start_secs,
            ws as int,
            we as int,
        ),
{
    let is_override = match &rec.recurrence_id {
        Some(_) => true,
        None => false,
    };
    let has_rrule = match &rec.rrule {
        Some(_) => true,
        None => false,
    };
    if is_override {
        ws <= rec.start_secs && rec.start_secs <= we
    } else if has_rrule {
        match rec.until_secs {
            Some(u) => !(u < ws),
            None => true,
        }
    } else {
        ws <= rec.start_secs && rec.start_secs <= we
    }
}

} // verus!
