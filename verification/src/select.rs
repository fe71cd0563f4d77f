//! Selection of sessions out of aggregated bundles: each pick is resolved by
//! a case-insensitive code match within its named source, its variants are
//! filtered by the requested group, and every special course's sessions from
//! the matching bundles are appended under the course's canonical name.
use vstd::prelude::*;

use crate::model::{
    bundles_view, clone_event, clone_event_with_summary, courses_view, events_view,
    lemma_events_view_push, Bundle,
    BundleV, Course, CourseV, EvV, EventIn, ItemV, NamedBundle, NamedBundleV, RequestV,
    SelectionRequest, VariantV,
};
use crate::text::{chars_of, ci_eq_seq, ci_eq_str};

verus! {

/// Whether a variant is taken for a requested group: with no requested group
/// every variant is taken; with one, a variant is taken when it has no group
/// of its own (shared across groups) or exactly the requested one.
pub open spec fn variant_selected(req: Option<Seq<char>>, vg: Option<Seq<char>>) -> bool {
    match req {
        None => true,
        Some(g) => match vg {
            None => true,
            Some(h) => h == g,
        },
    }
}

/// The events of the selected variants, in variant order.
pub open spec fn selected_variant_events(vs: Seq<VariantV>, req: Option<Seq<char>>) -> Seq<EvV>
    decreases vs.len(),
{
    if vs.len() == 0 {
        Seq::<EvV>::empty()
    } else {
        selected_variant_events(vs.drop_last(), req) + (if variant_selected(req, vs.last().group) {
            vs.last().events
        } else {
            Seq::<EvV>::empty()
        })
    }
}

/// The events of all variants, in variant order.
pub open spec fn all_variant_events(vs: Seq<VariantV>) -> Seq<EvV>
    decreases vs.len(),
{
    if vs.len() == 0 {
        Seq::<EvV>::empty()
    } else {
        all_variant_events(vs.drop_last()) + vs.last().events
    }
}

/// The first bundle stored under the given source identifier.
pub open spec fn find_bundle(bs: Seq<NamedBundleV>, src: Seq<char>) -> Option<BundleV>
    decreases bs.len(),
{
    if bs.len() == 0 {
        None
    } else if bs[0].source == src {
        Some(bs[0].bundle)
    } else {
        find_bundle(bs.drop_first(), src)
    }
}

/// The first course whose code matches, case-insensitively.
pub open spec fn find_course(cs: Seq<CourseV>, code: Seq<char>) -> Option<CourseV>
    decreases cs.len(),
{
    if cs.len() == 0 {
        None
    } else if ci_eq_seq(cs[0].code, code) {
        Some(cs[0])
    } else {
        find_course(cs.drop_first(), code)
    }
}

/// The events one pick contributes: nothing if its source or code resolves to
/// nothing, else the events of the selected variants of the matched course.
pub open spec fn events_for_item(it: ItemV, bs: Seq<NamedBundleV>) -> Seq<EvV> {
    match find_bundle(bs, it.source) {
        None => Seq::<EvV>::empty(),
        Some(b) => match find_course(b.courses, it.code) {
            None => Seq::<EvV>::empty(),
            Some(c) => selected_variant_events(c.variants, it.group),
        },
    }
}

/// The events all picks contribute, in pick order.
pub open spec fn events_for_items(items: Seq<ItemV>, bs: Seq<NamedBundleV>) -> Seq<EvV>
    decreases items.len(),
{
    if items.len() == 0 {
        Seq::<EvV>::empty()
    } else {
        events_for_items(items.drop_last(), bs) + events_for_item(items.last(), bs)
    }
}

/// An event re-labelled with a course's canonical name as its summary.
pub open spec fn retag(ev: EvV, name: Seq<char>) -> EvV {
    EvV { summary: name, ..ev }
}

/// All events of a sequence re-labelled with one name.
pub open spec fn retag_all(evs: Seq<EvV>, name: Seq<char>) -> Seq<EvV> {
    evs.map_values(|e: EvV| retag(e, name))
}

/// The special-course events of a course list, each under its course's name.
pub open spec fn special_course_events(cs: Seq<CourseV>) -> Seq<EvV>
    decreases cs.len(),
{
    if cs.len() == 0 {
        Seq::<EvV>::empty()
    } else {
        special_course_events(cs.drop_last()) + (if cs.last().special {
            retag_all(all_variant_events(cs.last().variants), cs.last().name)
        } else {
            Seq::<EvV>::empty()
        })
    }
}

/// Whether a bundle passes the request's cohort and track filters; an absent
/// filter passes everything.
pub open spec fn bundle_matches(b: BundleV, my: Option<Seq<char>>, pc: Option<Seq<char>>) -> bool {
    &&& match my {
        Some(y) => b.master_year == y,
        None => true,
    }
    &&& match pc {
        Some(p) => b.parcours == p,
        None => true,
    }
}

/// The special-course events of every bundle that passes the filters.
pub open spec fn special_events(
    bs: Seq<NamedBundleV>,
    my: Option<Seq<char>>,
    pc: Option<Seq<char>>,
) -> Seq<EvV>
    decreases bs.len(),
{
    if bs.len() == 0 {
        Seq::<EvV>::empty()
    } else {
        special_events(bs.drop_last(), my, pc) + (if bundle_matches(bs.last().bundle, my, pc) {
            special_course_events(bs.last().bundle.courses)
        } else {
            Seq::<EvV>::empty()
        })
    }
}

/// Everything a selection request resolves to: the picks' events in order,
/// then the special-course events of the matching bundles.
pub open spec fn select_spec(req: RequestV) -> Seq<EvV> {
    events_for_items(req.items, req.bundles) + special_events(
        req.bundles,
        req.master_year,
        req.parcours,
    )
}

/// With no requested group, a pick takes every variant of the matched course.
pub proof fn lemma_selection_no_group(vs: Seq<VariantV>)
    ensures
        selected_variant_events(vs, None) == all_variant_events(vs),
    decreases vs.len(),
{
    if vs.len() > 0 {
        lemma_selection_no_group(vs.drop_last());
    }
}

/// With a requested group, a pick takes exactly the variants that carry no
/// group of their own or carry the requested one; variants bound to a
/// different explicit group are excluded.
pub proof fn lemma_selection_with_group(vs: Seq<VariantV>, g: Seq<char>)
    ensures
        selected_variant_events(vs, Some(g)) == all_variant_events(
            vs.filter(|v: VariantV| v.group is None || v.group == Some(g)),
        ),
    decreases vs.len(),
{
    if vs.len() == 0 {
        assert(vs.filter(|v: VariantV| v.group is None || v.group == Some(g)) =~= vs);
    } else {
        let pred = |v: VariantV| v.group is None || v.group == Some(g);
        lemma_selection_with_group(vs.drop_last(), g);
        reveal(Seq::filter);
        if pred(vs.last()) {
            assert(vs.filter(pred) == vs.drop_last().filter(pred).push(vs.last()));
            assert(vs.filter(pred).drop_last() =~= vs.drop_last().filter(pred));
            assert(vs.filter(pred).last() == vs.last());
            assert(variant_selected(Some(g), vs.last().group));
        } else {
            assert(vs.filter(pred) == vs.drop_last().filter(pred));
            assert(!variant_selected(Some(g), vs.last().group));
            assert(selected_variant_events(vs, Some(g)) =~= selected_variant_events(
                vs.drop_last(),
                Some(g),
            ));
        }
    }
}

/// Looks up a bundle by its source identifier.
fn find_bundle_exec<'a>(bs: &'a Vec<NamedBundle>, src: &String) -> (r: Option<&'a Bundle>)
    ensures
        match r {
            Some(b) => find_bundle(bundles_view(bs@), src@) == Some(b@),
            None => find_bundle(bundles_view(bs@), src@) is None,
        },
{
    let n = bs.len();
    let mut i: usize = 0;
    proof {
        assert(bundles_view(bs@).subrange(0, n as int) =~= bundles_view(bs@));
    }
    while i < n
        invariant
            n == bs@.len(),
            i <= n,
            find_bundle(bundles_view(bs@), src@) == find_bundle(
                bundles_view(bs@).subrange(i as int, n as int),
                src@,
            ),
        decreases n - i,
    {
        let ghost tail = bundles_view(bs@).subrange(i as int, n as int);
        proof {
            assert(tail[0] == bundles_view(bs@)[i as int]);
            assert(tail.drop_first() =~= bundles_view(bs@).subrange(i + 1, n as int));
        }
        if bs[i].source.eq(src) {
            return Some(&bs[i].bundle);
        }
        i = i + 1;
    }
    proof {
        assert(bundles_view(bs@).subrange(n as int, n as int) =~= Seq::<NamedBundleV>::empty());
    }
    None
}

/// Looks up a course by code, case-insensitively.
fn find_course_exec<'a>(cs: &'a Vec<Course>, code: &String) -> (r: Option<&'a Course>)
    ensures
        match r {
            Some(c) => find_course(courses_view(cs@), code@) == Some(c@),
            None => find_course(courses_view(cs@), code@) is None,
        },
{
    let code_chars = chars_of(code.as_str());
    let n = cs.len();
    let mut i: usize = 0;
    proof {
        assert(courses_view(cs@).subrange(0, n as int) =~= courses_view(cs@));
    }
    while i < n
        invariant
            n == cs@.len(),
            i <= n,
            code_chars@ == code@,
            find_course(courses_view(cs@), code@) == find_course(
                courses_view(cs@).subrange(i as int, n as int),
                code@,
            ),
        decreases n - i,
    {
        let ghost tail = courses_view(cs@).subrange(i as int, n as int);
        proof {
            assert(tail[0] == courses_view(cs@)[i as int]);
            assert(tail.drop_first() =~= courses_view(cs@).subrange(i + 1, n as int));
        }
        if ci_eq_str(&code_chars, cs[i].code.as_str()) {
            proof {
                lemma_ci_eq_seq_sym(code@, courses_view(cs@)[i as int].code);
            }
            return Some(&cs[i]);
        }
        proof {
            lemma_ci_eq_seq_sym(code@, courses_view(cs@)[i as int].code);
        }
        i = i + 1;
    }
    proof {
        assert(courses_view(cs@).subrange(n as int, n as int) =~= Seq::<CourseV>::empty());
    }
    None
}

/// Case-insensitive sequence equality is symmetric.
proof fn lemma_ci_eq_seq_sym(a: Seq<char>, b: Seq<char>)
    ensures
        ci_eq_seq(a, b) == ci_eq_seq(b, a),
{
    if ci_eq_seq(a, b) {
        assert forall|j: int| 0 <= j < b.len() implies crate::text::ci_eq_c(
            b[0 + j],
            #[trigger] a[j],
        ) by {
            assert(crate::text::ci_eq_c(a[0 + j], b[j]));
        }
    }
    if ci_eq_seq(b, a) {
        assert forall|j: int| 0 <= j < a.len() implies crate::text::ci_eq_c(
            a[0 + j],
            #[trigger] b[j],
        ) by {
            assert(crate::text::ci_eq_c(b[0 + j], a[j]));
        }
    }
}

/// Resolves a selection request against its bundles: for each pick, the
/// events of the matched course's variants that pass the group rule, in
/// order; then every special course's events from the bundles that pass the
/// cohort and track filters, re-labelled with the course's canonical name.
pub fn select_events(req: &SelectionRequest) -> (r: Vec<EventIn>)
    ensures
        r@.map_values(|e: EventIn| e@) == select_spec((*req)@),
{
    let mut out: Vec<EventIn> = Vec::new();
    let ghost bsv = (*req)@.bundles;
    let n = req.items.len();
    let mut i: usize = 0;
    proof {
        assert(events_view(out@) =~= events_for_items(
            (*req)@.items.subrange(0, 0),
            bsv,
        ));
    }
    while i < n
        invariant
            n == req.items@.len(),
            (*req)@.items.len() == n,
            bsv == (*req)@.bundles,
            i <= n,
            events_view(out@) == events_for_items(
                (*req)@.items.subrange(0, i as int),
                bsv,
            ),
        decreases n - i,
    {
        let it = &req.items[i];
        proof {
            assert((*req)@.items[i as int] == (*it)@);
        }
        let ghost before = events_view(out@);
        match find_bundle_exec(&req.bundles, &it.source) {
            None => {
                proof {
                    assert(events_for_item((*it)@, bsv) =~= Seq::<EvV>::empty());
                }
            },
            Some(bundle) => {
                match find_course_exec(&bundle.courses, &it.code) {
                    None => {
                        proof {
                            assert(events_for_item((*it)@, bsv) =~= Seq::<EvV>::empty());
                        }
                    },
                    Some(course) => {
                        push_selected_variants(&mut out, course, &it.group);
                        proof {
                            assert(events_for_item((*it)@, bsv) == selected_variant_events(
                                course@.variants,
                                (*it)@.group,
                            ));
                        }
                    },
                }
            },
        }
        proof {
            assert(events_view(out@) =~= before + events_for_item((*it)@, bsv));
            assert((*req)@.items.subrange(0, i + 1).drop_last() =~= (*req)@.items.subrange(
                0,
                i as int,
            ));
            assert((*req)@.items.subrange(0, i + 1).last() == (*req)@.items[i as int]);
        }
        i = i + 1;
    }
    proof {
        assert((*req)@.items.subrange(0, n as int) =~= (*req)@.items);
    }
    let ghost picked = events_view(out@);
    let m = req.bundles.len();
    let mut j: usize = 0;
    proof {
        assert(picked + special_events(bsv.subrange(0, 0), (*req)@.master_year, (*req)@.parcours)
            =~= picked);
    }
    while j < m
        invariant
            m == req.bundles@.len(),
            bsv == (*req)@.bundles,
            bsv.len() == m,
            j <= m,
            events_view(out@) == picked + special_events(
                bsv.subrange(0, j as int),
                (*req)@.master_year,
                (*req)@.parcours,
            ),
        decreases m - j,
    {
        let nb = &req.bundles[j];
        proof {
            assert(bsv[j as int] == (*nb)@);
        }
        let ghost before = events_view(out@);
        let keep_year = match &req.master_year {
            Some(y) => nb.bundle.master_year.eq(y),
            None => true,
        };
        let keep_parcours = match &req.parcours {
            Some(p) => nb.bundle.parcours.eq(p),
            None => true,
        };
        if keep_year && keep_parcours {
            push_special_courses(&mut out, &nb.bundle.courses);
            proof {
                assert(bundle_matches((*nb)@.bundle, (*req)@.master_year, (*req)@.parcours));
            }
        } else {
            proof {
                assert(!bundle_matches((*nb)@.bundle, (*req)@.master_year, (*req)@.parcours));
            }
        }
        proof {
            assert(events_view(out@) =~= before + (if bundle_matches(
                (*nb)@.bundle,
                (*req)@.master_year,
                (*req)@.parcours,
            ) {
                special_course_events((*nb)@.bundle.courses)
            } else {
                Seq::<EvV>::empty()
            }));
            assert(bsv.subrange(0, j + 1).drop_last() =~= bsv.subrange(0, j as int));
            assert(bsv.subrange(0, j + 1).last() == bsv[j as int]);
        }
        j = j + 1;
    }
    proof {
        assert(bsv.subrange(0, m as int) =~= bsv);
    }
    out
}

/// Appends the events of one course's variants that pass the group rule.
fn push_selected_variants(out: &mut Vec<EventIn>, course: &Course, req_group: &Option<String>)
    ensures
        final(out)@.map_values(|e: EventIn| e@) == old(out)@.map_values(|e: EventIn| e@)
            + selected_variant_events((*course)@.variants, req_group.deep_view()),
{
    let ghost base = events_view(out@);
    let ghost vsv = (*course)@.variants;
    let n = course.variants.len();
    let mut i: usize = 0;
    proof {
        assert(base + selected_variant_events(vsv.subrange(0, 0), req_group.deep_view()) =~= base);
    }
    while i < n
        invariant
            n == course.variants@.len(),
            vsv == (*course)@.variants,
            vsv.len() == n,
            i <= n,
            events_view(out@) == base + selected_variant_events(
                vsv.subrange(0, i as int),
                req_group.deep_view(),
            ),
        decreases n - i,
    {
        let v = &course.variants[i];
        proof {
            assert(vsv[i as int] == (*v)@);
        }
        let ghost before = events_view(out@);
        let keep = match req_group {
            None => true,
            Some(g) => match &v.group {
                None => true,
                Some(h) => h.eq(g),
            },
        };
        if keep {
            push_all_events(out, &v.events);
            proof {
                assert(variant_selected(req_group.deep_view(), (*v)@.group));
            }
        } else {
            proof {
                assert(!variant_selected(req_group.deep_view(), (*v)@.group));
            }
        }
        proof {
            assert(events_view(out@) =~= before + (if variant_selected(
                req_group.deep_view(),
                (*v)@.group,
            ) {
                (*v)@.events
            } else {
                Seq::<EvV>::empty()
            }));
            assert(vsv.subrange(0, i + 1).drop_last() =~= vsv.subrange(0, i as int));
            assert(vsv.subrange(0, i + 1).last() == vsv[i as int]);
        }
        i = i + 1;
    }
    proof {
        assert(vsv.subrange(0, n as int) =~= vsv);
    }
}

/// Appends clones of all events of a variant.
fn push_all_events(out: &mut Vec<EventIn>, events: &Vec<EventIn>)
    ensures
        final(out)@.map_values(|e: EventIn| e@) == old(out)@.map_values(|e: EventIn| e@)
            + events_view(events@),
{
    let ghost evv = events_view(events@);
    let ghost base = events_view(out@);
    let n = events.len();
    let mut i: usize = 0;
    while i < n
        invariant
            n == events@.len(),
            evv == events_view(events@),
            i <= n,
            events_view(out@) == base + evv.subrange(0, i as int),
        decreases n - i,
    {
        let cl = clone_event(&events[i]);
        let ghost prev = out@;
        out.push(cl);
        i = i + 1;
        proof {
            lemma_events_view_push(prev, cl);
            assert(evv.subrange(0, i as int) =~= evv.subrange(0, i - 1).push(evv[i - 1]));
            assert(events_view(out@) =~= base + evv.subrange(0, i as int));
        }
    }
    proof {
        assert(evv.subrange(0, n as int) =~= evv);
        assert(base + evv.subrange(0, n as int) =~= base + evv);
    }
}

/// Appends, for every special course, clones of all its events re-labelled
/// with the course's canonical name.
fn push_special_courses(out: &mut Vec<EventIn>, courses: &Vec<Course>)
    ensures
        final(out)@.map_values(|e: EventIn| e@) == old(out)@.map_values(|e: EventIn| e@)
            + special_course_events(courses_view(courses@)),
{
    let ghost csv = courses_view(courses@);
    let ghost base = events_view(out@);
    let n = courses.len();
    let mut i: usize = 0;
    proof {
        assert(base + special_course_events(csv.subrange(0, 0)) =~= base);
    }
    while i < n
        invariant
            n == courses@.len(),
            csv == courses_view(courses@),
            csv.len() == n,
            i <= n,
            events_view(out@) == base + special_course_events(
                csv.subrange(0, i as int),
            ),
        decreases n - i,
    {
        let c = &courses[i];
        proof {
            assert(csv[i as int] == (*c)@);
        }
        let ghost before = events_view(out@);
        if c.special {
            push_retagged_course(out, c);
        }
        proof {
            assert(events_view(out@) =~= before + (if csv[i as int].special {
                retag_all(all_variant_events(csv[i as int].variants), csv[i as int].name)
            } else {
                Seq::<EvV>::empty()
            }));
            assert(csv.subrange(0, i + 1).drop_last() =~= csv.subrange(0, i as int));
            assert(csv.subrange(0, i + 1).last() == csv[i as int]);
        }
        i = i + 1;
    }
    proof {
        assert(csv.subrange(0, n as int) =~= csv);
    }
}

/// Appends clones of every event of a course, under the course's name.
fn push_retagged_course(out: &mut Vec<EventIn>, course: &Course)
    ensures
        final(out)@.map_values(|e: EventIn| e@) == old(out)@.map_values(|e: EventIn| e@)
            + retag_all(all_variant_events((*course)@.variants), (*course)@.name),
{
    let ghost vsv = (*course)@.variants;
    let ghost base = events_view(out@);
    let n = course.variants.len();
    let mut i: usize = 0;
    proof {
        assert(retag_all(all_variant_events(vsv.subrange(0, 0)), (*course)@.name) =~= Seq::<
            EvV,
        >::empty());
        assert(base + retag_all(all_variant_events(vsv.subrange(0, 0)), (*course)@.name) =~= base);
    }
    while i < n
        invariant
            n == course.variants@.len(),
            vsv == (*course)@.variants,
            vsv.len() == n,
            i <= n,
            events_view(out@) == base + retag_all(
                all_variant_events(vsv.subrange(0, i as int)),
                (*course)@.name,
            ),
        decreases n - i,
    {
        let v = &course.variants[i];
        proof {
            assert(vsv[i as int] == (*v)@);
        }
        let ghost before = events_view(out@);
        let m = v.events.len();
        let mut j: usize = 0;
        proof {
            assert(before + retag_all((*v)@.events.subrange(0, 0), (*course)@.name) =~= before);
        }
        while j < m
            invariant
                m == v.events@.len(),
                (*v)@.events.len() == m,
                j <= m,
                events_view(out@) == before + retag_all(
                    (*v)@.events.subrange(0, j as int),
                    (*course)@.name,
                ),
            decreases m - j,
        {
            let cl = clone_event_with_summary(&v.events[j], &course.name);
            let ghost prev = out@;
            out.push(cl);
            j = j + 1;
            proof {
                lemma_events_view_push(prev, cl);
                assert((*v)@.events[j - 1] == v.events@[j - 1]@);
                assert((*v)@.events.subrange(0, j as int) =~= (*v)@.events.subrange(
                    0,
                    j - 1,
                ).push((*v)@.events[j - 1]));
                assert(retag_all((*v)@.events.subrange(0, j as int), (*course)@.name)
                    =~= retag_all((*v)@.events.subrange(0, j - 1), (*course)@.name).push(
                    retag((*v)@.events[j - 1], (*course)@.name)));
                assert(events_view(out@) =~= before + retag_all(
                    (*v)@.events.subrange(0, j as int),
                    (*course)@.name,
                ));
            }
        }
        proof {
            assert((*v)@.events.subrange(0, m as int) =~= (*v)@.events);
            assert(vsv.subrange(0, i + 1).drop_last() =~= vsv.subrange(0, i as int));
            assert(vsv.subrange(0, i + 1).last() == vsv[i as int]);
            assert(retag_all(all_variant_events(vsv.subrange(0, i + 1)), (*course)@.name) =~= retag_all(
                all_variant_events(vsv.subrange(0, i as int)),
                (*course)@.name,
            ) + retag_all((*v)@.events, (*course)@.name));
            assert(events_view(out@) =~= base + retag_all(
                all_variant_events(vsv.subrange(0, i + 1)),
                (*course)@.name,
            ));
        }
        i = i + 1;
    }
    proof {
        assert(vsv.subrange(0, n as int) =~= vsv);
    }
}

} // verus!
