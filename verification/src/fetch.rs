//! The decisions of conditional feed retrieval: response classification,
//! the validator store, and the fallback validator for origins that send
//! none. The network loop itself lives outside the library and feeds its
//! observations back in.
use vstd::prelude::*;

use crate::text::{chars_of, push_chars, push_seq, str_eq, string_from_chars};

verus! {

/// What a response status means for the retry loop.
#[derive(Clone, Copy, Debug, PartialEq, Eq, Structural)]
pub enum StatusClass {
    /// Fresh content: terminate the loop with the body.
    Success,
    /// The feed did not change: terminate the loop with no body.
    NotModified,
    /// A transient condition: retry within the backoff budget.
    Transient,
    /// A permanent failure: stop retrying.
    Permanent,
}

/// The classification of a response status code: success and not-modified are
/// terminal; not-found, unauthorized and forbidden are permanent;
/// rate-limited, bad-gateway, unavailable, gateway-timeout and every other
/// server error are transient; anything else is an unexpected condition,
/// treated as permanent.
pub open spec fn classify_spec(code: u16) -> StatusClass {
    if code == 200 {
        StatusClass::Success
    } else if code == 304 {
        StatusClass::NotModified
    } else if code == 404 || code == 401 || code == 403 {
        StatusClass::Permanent
    } else if code == 429 || code == 502 || code == 503 || code == 504 {
        StatusClass::Transient
    } else if 500 <= code && code <= 599 {
        StatusClass::Transient
    } else {
        StatusClass::Permanent
    }
}

/// Classifies a response status code for the retry loop.
pub fn classify_status(code: u16) -> (r: StatusClass)
    ensures
        r == classify_spec(code),
{
    if code == 200 {
        StatusClass::Success
    } else if code == 304 {
        StatusClass::NotModified
    } else if code == 404 || code == 401 || code == 403 {
        StatusClass::Permanent
    } else if code == 429 || code == 502 || code == 503 || code == 504 {
        StatusClass::Transient
    } else if 500 <= code && code <= 599 {
        StatusClass::Transient
    } else {
        StatusClass::Permanent
    }
}

/// The outcome of one feed's retrieval, after the retry loop has finished.
pub enum FetchOutcome {
    /// Fresh content, with the origin's validator if it sent one.
    Fresh { body: Vec<u8>, validator: Option<String> },
    /// The origin reported the feed unchanged.
    Unchanged,
    /// The retrieval failed permanently.
    Failed,
}

/// The digest, as 64 lowercase hex characters, that the outside hash function
/// computes for a byte sequence.
pub uninterp spec fn blake3_hex_of(bytes: Seq<u8>) -> Seq<char>;

/// Relies on `blake3::hash` and `blake3::Hash::to_hex`: a 256-bit digest of
/// the bytes alone, rendered as 64 lowercase hex characters.
#[verifier::external_body]
fn blake3_hex(bytes: &[u8]) -> (r: String)
    ensures
        r@ == blake3_hex_of(bytes@),
        r@.len() == 64,
{
    blake3::hash(bytes).to_hex().as_str().to_string()
}

/// The weak validator derived from a feed body when the origin sends none.
pub open spec fn fallback_validator_spec(body: Seq<u8>) -> Seq<char> {
    "W/\""@ + blake3_hex_of(body) + "\""@
}

/// Computes the content-derived weak validator, so that a future run can
/// still detect an unchanged feed when the origin omits a validator.
pub fn fallback_validator(body: &Vec<u8>) -> (r: String)
    ensures
        r@ == fallback_validator_spec(body@),
{
    let hex = blake3_hex(body.as_slice());
    let hex_chars = chars_of(hex.as_str());
    let mut out: Vec<char> = Vec::new();
    push_chars(&mut out, "W/\"");
    push_seq(&mut out, &hex_chars);
    push_chars(&mut out, "\"");
    proof {
        assert(out@ =~= fallback_validator_spec(body@));
    }
    string_from_chars(&out)
}

/// The validator that an outcome stores, if any: a fresh response stores the
/// origin's validator, or the content-derived fallback; anything else stores
/// nothing.
pub open spec fn validator_update(o: FetchOutcome) -> Option<Seq<char>> {
    match o {
        FetchOutcome::Fresh { body, validator } => match validator {
            Some(v) => Some(v@),
            None => Some(fallback_validator_spec(body@)),
        },
        FetchOutcome::Unchanged => None,
        FetchOutcome::Failed => None,
    }
}

/// Turns a terminal response into the retrieval's outcome: fresh content on
/// success, a no-change report on not-modified, a failure otherwise.
pub fn response_outcome(status: u16, body: Vec<u8>, validator: Option<String>) -> (r: FetchOutcome)
    ensures
        classify_spec(status) == StatusClass::Success ==> (r matches FetchOutcome::Fresh {
            body: b,
            validator: v,
        } && b@ == body@ && v.deep_view() == validator.deep_view()),
        classify_spec(status) == StatusClass::NotModified ==> r is Unchanged,
        classify_spec(status) != StatusClass::Success && classify_spec(status)
            != StatusClass::NotModified ==> r is Failed,
{
    match classify_status(status) {
        StatusClass::Success => FetchOutcome::Fresh { body, validator },
        StatusClass::NotModified => FetchOutcome::Unchanged,
        StatusClass::Transient => FetchOutcome::Failed,
        StatusClass::Permanent => FetchOutcome::Failed,
    }
}

/// No two entries share a feed identifier.
pub open spec fn unique_keys(entries: Seq<(String, String)>) -> bool {
    forall|i: int, j: int|
        0 <= i < j < entries.len() ==> (#[trigger] entries[i]).0@ != (#[trigger] entries[j]).0@
}

/// The mapping an entry list stands for, later entries overriding earlier.
pub open spec fn store_map(entries: Seq<(String, String)>) -> Map<Seq<char>, Seq<char>>
    decreases entries.len(),
{
    if entries.len() == 0 {
        Map::<Seq<char>, Seq<char>>::empty()
    } else {
        store_map(entries.drop_last()).insert(entries.last().0@, entries.last().1@)
    }
}

/// A key is in the mapping exactly when some entry carries it.
proof fn lemma_store_map_contains(entries: Seq<(String, String)>, k: Seq<char>)
    ensures
        store_map(entries).contains_key(k) <==> (exists|i: int|
            0 <= i < entries.len() && (#[trigger] entries[i]).0@ == k),
    decreases entries.len(),
{
    if entries.len() > 0 {
        lemma_store_map_contains(entries.drop_last(), k);
        if entries.last().0@ == k {
            assert(entries[entries.len() - 1].0@ == k);
        } else if store_map(entries).contains_key(k) {
            let i = choose|i: int| 0 <= i < entries.len() - 1 && (#[trigger] entries.drop_last()[i]).0@ == k;
            assert(entries[i].0@ == k);
        } else {
            assert(forall|i: int|
                0 <= i < entries.len() - 1 ==> (#[trigger] entries[i]).0@ == entries.drop_last()[i].0@);
        }
    }
}

/// With unique keys, each entry's value is the mapping's value for its key.
proof fn lemma_store_map_value(entries: Seq<(String, String)>, i: int)
    requires
        unique_keys(entries),
        0 <= i < entries.len(),
    ensures
        store_map(entries).contains_key(entries[i].0@),
        store_map(entries)[entries[i].0@] == entries[i].1@,
    decreases entries.len(),
{
    if i == entries.len() - 1 {
    } else {
        assert(forall|a: int, b: int|
            0 <= a < b < entries.len() - 1 ==> (#[trigger] entries.drop_last()[a]).0@ != (
            #[trigger] entries.drop_last()[b]).0@);
        lemma_store_map_value(entries.drop_last(), i);
        assert(entries.last().0@ != entries[i].0@);
        assert(entries.drop_last()[i] == entries[i]);
    }
}

/// Replacing the entry that holds a key is inserting into the mapping.
proof fn lemma_store_map_update(entries: Seq<(String, String)>, i: int, v: (String, String))
    requires
        unique_keys(entries),
        0 <= i < entries.len(),
        v.0@ == entries[i].0@,
    ensures
        store_map(entries.update(i, v)) == store_map(entries).insert(v.0@, v.1@),
    decreases entries.len(),
{
    let e2 = entries.update(i, v);
    if i == entries.len() - 1 {
        assert(e2.drop_last() =~= entries.drop_last());
        assert(e2.last() == v);
        assert(store_map(e2) =~= store_map(entries).insert(v.0@, v.1@));
    } else {
        assert(e2.drop_last() =~= entries.drop_last().update(i, v));
        assert(forall|a: int, b: int|
            0 <= a < b < entries.len() - 1 ==> (#[trigger] entries.drop_last()[a]).0@ != (
            #[trigger] entries.drop_last()[b]).0@);
        assert(entries.drop_last()[i] == entries[i]);
        lemma_store_map_update(entries.drop_last(), i, v);
        assert(e2.last() == entries.last());
        assert(entries.last().0@ != v.0@);
        assert(store_map(e2) =~= store_map(entries).insert(v.0@, v.1@));
    }
}

/// The mapping from feed identifier to the validator seen at the last
/// successful retrieval. Persisted across runs; no entry is ever removed.
pub struct ValidatorStore {
    entries: Vec<(String, String)>,
}

impl View for ValidatorStore {
    type V = Map<Seq<char>, Seq<char>>;

    closed spec fn view(&self) -> Map<Seq<char>, Seq<char>> {
        store_map(self.entries@)
    }
}

impl ValidatorStore {
    /// Every feed identifier occurs at most once.
    pub closed spec fn wf(&self) -> bool {
        unique_keys(self.entries@)
    }

    /// An empty store.
    pub fn new() -> (r: ValidatorStore)
        ensures
            r.wf(),
            r@ == Map::<Seq<char>, Seq<char>>::empty(),
    {
        ValidatorStore { entries: Vec::new() }
    }

    /// How many feeds have a stored validator.
    pub fn len(&self) -> (r: usize)
        requires
            self.wf(),
        ensures
            r == self@.dom().len(),
    {
        proof {
            self.lemma_len();
        }
        self.entries.len()
    }

    /// With unique keys the mapping has exactly one key per entry.
    proof fn lemma_len(&self)
        requires
            self.wf(),
        ensures
            self@.dom().len() == self.entries@.len(),
    {
        lemma_entries_len(self.entries@);
    }

    /// The validator stored for a feed, if any.
    pub fn get(&self, url: &str) -> (r: Option<&String>)
        requires
            self.wf(),
        ensures
            match r {
                Some(v) => self@.contains_key(url@) && self@[url@] == v@,
                None => !self@.contains_key(url@),
            },
    {
        let n = self.entries.len();
        let mut i: usize = 0;
        while i < n
            invariant
                n == self.entries@.len(),
                unique_keys(self.entries@),
                i <= n,
                forall|k: int| 0 <= k < i ==> (#[trigger] self.entries@[k]).0@ != url@,
            decreases n - i,
        {
            if str_eq(self.entries[i].0.as_str(), url) {
                proof {
                    lemma_store_map_value(self.entries@, i as int);
                }
                return Some(&self.entries[i].1);
            }
            i = i + 1;
        }
        proof {
            lemma_store_map_contains(self.entries@, url@);
        }
        None
    }

    /// Stores a validator for a feed, replacing any prior one.
    pub fn insert(&mut self, url: &str, validator: String)
        requires
            old(self).wf(),
        ensures
            final(self).wf(),
            final(self)@ == old(self)@.insert(url@, validator@),
    {
        let n = self.entries.len();
        let mut i: usize = 0;
        while i < n
            invariant
                n == self.entries@.len(),
                unique_keys(self.entries@),
                i <= n,
                self == old(self),
                forall|k: int| 0 <= k < i ==> (#[trigger] self.entries@[k]).0@ != url@,
            decreases n - i,
        {
            if str_eq(self.entries[i].0.as_str(), url) {
                let ghost before = self.entries@;
                let nv = (String::from_str(url), validator);
                proof {
                    assert(nv.0@ == before[i as int].0@);
                }
                self.entries[i] = nv;
                proof {
                    assert(self.entries@ =~= before.update(i as int, nv));
                    lemma_store_map_update(before, i as int, nv);
                    assert(unique_keys(self.entries@));
                }
                return ;
            }
            i = i + 1;
        }
        let ghost before = self.entries@;
        self.entries.push((String::from_str(url), validator));
        proof {
            assert(self.entries@.drop_last() =~= before);
            assert(unique_keys(self.entries@));
        }
    }

    /// The stored entries, for persistence: each feed identifier once, with
    /// its validator.
    pub fn entries(&self) -> (r: &Vec<(String, String)>)
        ensures
            store_map(r@) == self@,
            self.wf() ==> unique_keys(r@),
    {
        &self.entries
    }
}

/// With unique keys the mapping's domain has one key per entry.
proof fn lemma_entries_len(entries: Seq<(String, String)>)
    requires
        unique_keys(entries),
    ensures
        store_map(entries).dom().len() == entries.len(),
        store_map(entries).dom().finite(),
    decreases entries.len(),
{
    if entries.len() > 0 {
        assert(forall|a: int, b: int|
            0 <= a < b < entries.len() - 1 ==> (#[trigger] entries.drop_last()[a]).0@ != (
            #[trigger] entries.drop_last()[b]).0@);
        lemma_entries_len(entries.drop_last());
        lemma_store_map_contains(entries.drop_last(), entries.last().0@);
        assert(forall|i: int|
            0 <= i < entries.len() - 1 ==> (#[trigger] entries.drop_last()[i]).0@ == entries[i].0@);
        assert(!store_map(entries.drop_last()).contains_key(entries.last().0@));
    }
}

/// Applies one retrieval's stored validator, if any, to the mapping.
pub open spec fn apply_validator_update(
    m: Map<Seq<char>, Seq<char>>,
    url: Seq<char>,
    upd: Option<Seq<char>>,
) -> Map<Seq<char>, Seq<char>> {
    match upd {
        None => m,
        Some(v) => m.insert(url, v),
    }
}

/// Records one feed's outcome in the store: fresh content stores the origin's
/// validator or the content-derived fallback; an unchanged or failed feed
/// leaves the store untouched.
pub fn record_fetch(store: &mut ValidatorStore, url: &str, outcome: &FetchOutcome)
    requires
        old(store).wf(),
    ensures
        final(store).wf(),
        final(store)@ == apply_validator_update(old(store)@, url@, validator_update(*outcome)),
{
    match outcome {
        FetchOutcome::Fresh { body, validator } => {
            let v = match validator {
                Some(v) => v.clone(),
                None => fallback_validator(body),
            };
            store.insert(url, v);
        },
        FetchOutcome::Unchanged => {},
        FetchOutcome::Failed => {},
    }
}

/// Whether the local copy of a feed is to be overwritten: only fresh content
/// is written; an unchanged or failed feed leaves the copy untouched.
pub fn should_write_feed(outcome: &FetchOutcome) -> (r: bool)
    ensures
        r == (outcome is Fresh),
{
    match outcome {
        FetchOutcome::Fresh { .. } => true,
        FetchOutcome::Unchanged => false,
        FetchOutcome::Failed => false,
    }
}

/// The feed address for one cohort and track, from the fixed template.
pub fn feed_url(master_year: &str, parcours: &str) -> (r: String)
    ensures
        r@ == "https://cal.ufr-info-p6.jussieu.fr/caldav.php/"@ + parcours@ + "/"@ + master_year@
            + "_"@ + parcours@ + "/"@,
{
    let mut out: Vec<char> = Vec::new();
    push_chars(&mut out, "https://cal.ufr-info-p6.jussieu.fr/caldav.php/");
    push_chars(&mut out, parcours);
    push_chars(&mut out, "/");
    push_chars(&mut out, master_year);
    push_chars(&mut out, "_");
    push_chars(&mut out, parcours);
    push_chars(&mut out, "/");
    proof {
        assert(out@ =~= "https://cal.ufr-info-p6.jussieu.fr/caldav.php/"@ + parcours@ + "/"@
            + master_year@ + "_"@ + parcours@ + "/"@);
    }
    string_from_chars(&out)
}

/// A whole run's effect on the store: each feed's stored validator applied in
/// order.
pub open spec fn run_updates(
    m: Map<Seq<char>, Seq<char>>,
    steps: Seq<(Seq<char>, Option<Seq<char>>)>,
) -> Map<Seq<char>, Seq<char>>
    decreases steps.len(),
{
    if steps.len() == 0 {
        m
    } else {
        apply_validator_update(
            run_updates(m, steps.drop_last()),
            steps.last().0,
            steps.last().1,
        )
    }
}

/// Idempotence of retrieval: when every feed of a run reports no change (as
/// an unchanged origin makes it, through the not-modified classification and
/// the unchanged outcome), the validator store ends the run exactly as it
/// began.
pub proof fn lemma_unchanged_run_preserves_store(
    m: Map<Seq<char>, Seq<char>>,
    steps: Seq<(Seq<char>, Option<Seq<char>>)>,
)
    requires
        forall|i: int| 0 <= i < steps.len() ==> (#[trigger] steps[i]).1 is None,
    ensures
        run_updates(m, steps) == m,
    decreases steps.len(),
{
    if steps.len() > 0 {
        assert(forall|i: int|
            0 <= i < steps.len() - 1 ==> (#[trigger] steps.drop_last()[i]).1 is None);
        lemma_unchanged_run_preserves_store(m, steps.drop_last());
        assert(steps[steps.len() - 1].1 is None);
    }
}

} // verus!
