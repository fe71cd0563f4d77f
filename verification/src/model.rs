//! The structured data the pipeline works over: events, course variants,
//! courses, bundles, and selection requests, each with a mathematical view.
use vstd::prelude::*;

verus! {

/// One calendar occurrence, recurring series base, or recurrence override,
/// ready for synthesis. The override marker (`recurrence_id`) and the
/// recurrence fields are mutually exclusive by construction of the renderer:
/// when the marker is present the rule and exclusions are not emitted.
pub struct EventIn {
    pub start: String,
    pub end: String,
    pub summary: String,
    pub location: Option<String>,
    pub uid: Option<String>,
    pub rrule: Option<String>,
    pub exdates: Vec<String>,
    pub recurrence_id: Option<String>,
}

/// The mathematical value of an [`EventIn`].
pub ghost struct EvV {
    pub start: Seq<char>,
    pub end: Seq<char>,
    pub summary: Seq<char>,
    pub location: Option<Seq<char>>,
    pub uid: Option<Seq<char>>,
    pub rrule: Option<Seq<char>>,
    pub exdates: Seq<Seq<char>>,
    pub recurrence_id: Option<Seq<char>>,
}

impl View for EventIn {
    type V = EvV;

    open spec fn view(&self) -> EvV {
        EvV {
            start: self.start@,
            end: self.end@,
            summary: self.summary@,
            location: self.location.deep_view(),
            uid: self.uid.deep_view(),
            rrule: self.rrule.deep_view(),
            exdates: self.exdates.deep_view(),
            recurrence_id: self.recurrence_id.deep_view(),
        }
    }
}

/// The sessions of one course that share a group label and a session type.
/// A group of `None` means the sessions are shared across all groups.
pub struct CourseVariant {
    pub group: Option<String>,
    pub kind: Option<String>,
    pub events: Vec<EventIn>,
}

pub ghost struct VariantV {
    pub group: Option<Seq<char>>,
    pub kind: Option<Seq<char>>,
    pub events: Seq<EvV>,
}

impl View for CourseVariant {
    type V = VariantV;

    open spec fn view(&self) -> VariantV {
        VariantV {
            group: self.group.deep_view(),
            kind: self.kind.deep_view(),
            events: events_view(self.events@),
        }
    }
}

/// One course of a bundle: its canonical name, resolved code, whether it is a
/// non-standard ("special") activity, the group labels observed, and its
/// variants.
pub struct Course {
    pub name: String,
    pub code: String,
    pub special: bool,
    pub groups: Vec<String>,
    pub variants: Vec<CourseVariant>,
}

pub ghost struct CourseV {
    pub name: Seq<char>,
    pub code: Seq<char>,
    pub special: bool,
    pub groups: Seq<Seq<char>>,
    pub variants: Seq<VariantV>,
}

impl View for Course {
    type V = CourseV;

    open spec fn view(&self) -> CourseV {
        CourseV {
            name: self.name@,
            code: self.code@,
            special: self.special,
            groups: self.groups.deep_view(),
            variants: variants_view(self.variants@),
        }
    }
}

/// One cohort and track's full course list plus a generation timestamp.
pub struct Bundle {
    pub master_year: String,
    pub parcours: String,
    pub courses: Vec<Course>,
    pub updated_at: String,
}

pub ghost struct BundleV {
    pub master_year: Seq<char>,
    pub parcours: Seq<char>,
    pub courses: Seq<CourseV>,
    pub updated_at: Seq<char>,
}

impl View for Bundle {
    type V = BundleV;

    open spec fn view(&self) -> BundleV {
        BundleV {
            master_year: self.master_year@,
            parcours: self.parcours@,
            courses: courses_view(self.courses@),
            updated_at: self.updated_at@,
        }
    }
}

/// One pick of a selection: a course code, an optional group, and the source
/// (bundle) it is to be found in.
pub struct SelectionItem {
    pub code: String,
    pub group: Option<String>,
    pub source: String,
}

pub ghost struct ItemV {
    pub code: Seq<char>,
    pub group: Option<Seq<char>>,
    pub source: Seq<char>,
}

impl View for SelectionItem {
    type V = ItemV;

    open spec fn view(&self) -> ItemV {
        ItemV { code: self.code@, group: self.group.deep_view(), source: self.source@ }
    }
}

/// A bundle under the source identifier the selection refers to it by.
pub struct NamedBundle {
    pub source: String,
    pub bundle: Bundle,
}

pub ghost struct NamedBundleV {
    pub source: Seq<char>,
    pub bundle: BundleV,
}

impl View for NamedBundle {
    type V = NamedBundleV;

    open spec fn view(&self) -> NamedBundleV {
        NamedBundleV { source: self.source@, bundle: self.bundle@ }
    }
}

/// Calendar metadata plus an explicit session list: the direct synthesis input.
pub struct BuildInput {
    pub calendar_name: Option<String>,
    pub timezone: Option<String>,
    pub events: Vec<EventIn>,
}

pub ghost struct BuildInputV {
    pub calendar_name: Option<Seq<char>>,
    pub timezone: Option<Seq<char>>,
    pub events: Seq<EvV>,
}

impl View for BuildInput {
    type V = BuildInputV;

    open spec fn view(&self) -> BuildInputV {
        BuildInputV {
            calendar_name: self.calendar_name.deep_view(),
            timezone: self.timezone.deep_view(),
            events: events_view(self.events@),
        }
    }
}

/// Calendar metadata, optional cohort and track filters, the ordered picks,
/// and the bundles the picks refer to.
pub struct SelectionRequest {
    pub calendar_name: Option<String>,
    pub timezone: Option<String>,
    pub master_year: Option<String>,
    pub parcours: Option<String>,
    pub items: Vec<SelectionItem>,
    pub bundles: Vec<NamedBundle>,
}

pub ghost struct RequestV {
    pub calendar_name: Option<Seq<char>>,
    pub timezone: Option<Seq<char>>,
    pub master_year: Option<Seq<char>>,
    pub parcours: Option<Seq<char>>,
    pub items: Seq<ItemV>,
    pub bundles: Seq<NamedBundleV>,
}

impl View for SelectionRequest {
    type V = RequestV;

    open spec fn view(&self) -> RequestV {
        RequestV {
            calendar_name: self.calendar_name.deep_view(),
            timezone: self.timezone.deep_view(),
            master_year: self.master_year.deep_view(),
            parcours: self.parcours.deep_view(),
            items: items_view(self.items@),
            bundles: bundles_view(self.bundles@),
        }
    }
}


/// The views of a sequence of events.
pub open spec fn events_view(v: Seq<EventIn>) -> Seq<EvV> {
    v.map_values(|e: EventIn| e@)
}

/// The views of a sequence of variants.
pub open spec fn variants_view(v: Seq<CourseVariant>) -> Seq<VariantV> {
    v.map_values(|x: CourseVariant| x@)
}

/// The views of a sequence of courses.
pub open spec fn courses_view(v: Seq<Course>) -> Seq<CourseV> {
    v.map_values(|c: Course| c@)
}

/// The views of a sequence of named bundles.
pub open spec fn bundles_view(v: Seq<NamedBundle>) -> Seq<NamedBundleV> {
    v.map_values(|b: NamedBundle| b@)
}

/// The views of a sequence of selection items.
pub open spec fn items_view(v: Seq<SelectionItem>) -> Seq<ItemV> {
    v.map_values(|i: SelectionItem| i@)
}

/// Pushing an event onto a vector pushes its view onto the views.
pub proof fn lemma_events_view_push(s: Seq<EventIn>, e: EventIn)
    ensures
        events_view(s.push(e)) == events_view(s).push(e@),
{
    assert(events_view(s.push(e)) =~= events_view(s).push(e@));
}

/// Pushing a variant onto a vector pushes its view onto the views.
pub proof fn lemma_variants_view_push(v: Seq<CourseVariant>, x: CourseVariant)
    ensures
        variants_view(v.push(x)) == variants_view(v).push(x@),
{
    assert(variants_view(v.push(x)) =~= variants_view(v).push(x@));
}

/// Pushing a course onto a vector pushes its view onto the views.
pub proof fn lemma_courses_view_push(v: Seq<Course>, x: Course)
    ensures
        courses_view(v.push(x)) == courses_view(v).push(x@),
{
    assert(courses_view(v.push(x)) =~= courses_view(v).push(x@));
}

/// Clones an optional string, field for field.
pub fn clone_opt_string(o: &Option<String>) -> (r: Option<String>)
    ensures
        r.deep_view() == o.deep_view(),
{
    match o {
        Some(s) => Some(s.clone()),
        None => None,
    }
}

/// Clones a string vector, element for element.
pub fn clone_string_vec(v: &Vec<String>) -> (r: Vec<String>)
    ensures
        r.deep_view() == v.deep_view(),
{
    let mut r: Vec<String> = Vec::new();
    let n = v.len();
    let mut i: usize = 0;
    while i < n
        invariant
            n == v@.len(),
            i <= n,
            r@.len() == i,
            forall|k: int| 0 <= k < i ==> r@[k] == v@[k],
        decreases n - i,
    {
        r.push(v[i].clone());
        i = i + 1;
    }
    proof {
        assert(r@ =~= v@);
    }
    r
}

/// Clones an event, field for field.
pub fn clone_event(ev: &EventIn) -> (r: EventIn)
    ensures
        r@ == ev@,
{
    EventIn {
        start: ev.start.clone(),
        end: ev.end.clone(),
        summary: ev.summary.clone(),
        location: clone_opt_string(&ev.location),
        uid: clone_opt_string(&ev.uid),
        rrule: clone_opt_string(&ev.rrule),
        exdates: clone_string_vec(&ev.exdates),
        recurrence_id: clone_opt_string(&ev.recurrence_id),
    }
}

/// Clones an event but replaces its summary, as appending a special course's
/// sessions under the course's canonical name requires.
pub fn clone_event_with_summary(ev: &EventIn, summary: &String) -> (r: EventIn)
    ensures
        r@ == (EvV { summary: summary@, ..ev@ }),
{
    EventIn {
        start: ev.start.clone(),
        end: ev.end.clone(),
        summary: summary.clone(),
        location: clone_opt_string(&ev.location),
        uid: clone_opt_string(&ev.uid),
        rrule: clone_opt_string(&ev.rrule),
        exdates: clone_string_vec(&ev.exdates),
        recurrence_id: clone_opt_string(&ev.recurrence_id),
    }
}

} // verus!
