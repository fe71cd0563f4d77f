//! Parsing of recurrence rules: the rule is split into key=value parts; the
//! frequency, interval, end instant, count and weekday list are read out.
//! The rule is never expanded into occurrences; only its end instant takes
//! part in the inclusion window.
use vstd::prelude::*;

use crate::ics::{trim_spec, trim_str};
use crate::text::{
    chars_of, ci_eq_seq, ci_eq_str, digits_value, is_digit, is_digit_c, string_from_chars,
    upper_chars, upper_seq,
};
use crate::timefmt::{normalize_dt, normalize_secs, rfc3339_utc_str_of, TS_MAX, TS_MIN};

verus! {

/// A parsed recurrence rule: frequency, repeat interval, optional end
/// instant (as an absolute instant and its normalized text), optional
/// occurrence count, and the weekdays it falls on, Monday first.
pub struct RRule {
    pub freq: Option<String>,
    pub interval: u32,
    pub until_secs: Option<i64>,
    pub until_iso: Option<String>,
    pub count: Option<u32>,
    pub byday: Vec<u8>,
}

pub ghost struct RRuleV {
    pub freq: Option<Seq<char>>,
    pub interval: u32,
    pub until_secs: Option<int>,
    pub until_iso: Option<Seq<char>>,
    pub count: Option<u32>,
    pub byday: Seq<u8>,
}

impl View for RRule {
    type V = RRuleV;

    open spec fn view(&self) -> RRuleV {
        RRuleV {
            freq: self.freq.deep_view(),
            interval: self.interval,
            until_secs: match self.until_secs {
                Some(t) => Some(t as int),
                None => None,
            },
            until_iso: self.until_iso.deep_view(),
            count: self.count,
            byday: self.byday@,
        }
    }
}

/// The rule every parse starts from: weekly-less, interval one, no bounds.
pub open spec fn rrule_init() -> RRuleV {
    RRuleV {
        freq: None,
        interval: 1,
        until_secs: None,
        until_iso: None,
        count: None,
        byday: Seq::<u8>::empty(),
    }
}

/// The index of the first occurrence of `c` at or after `i`, or the length.
pub open spec fn next_char(s: Seq<char>, i: int, c: char) -> int
    decreases s.len() - i,
{
    if 0 <= i < s.len() {
        if s[i] == c {
            i
        } else {
            next_char(s, i + 1, c)
        }
    } else {
        i
    }
}

pub fn next_char_exec(cs: &Vec<char>, i: usize, c: char) -> (r: usize)
    requires
        i <= cs@.len(),
    ensures
        r == next_char(cs@, i as int, c),
        i <= r <= cs@.len(),
    decreases cs@.len() - i,
{
    if i < cs.len() {
        if cs[i] == c {
            i
        } else {
            next_char_exec(cs, i + 1, c)
        }
    } else {
        i
    }
}

/// Every character is an ASCII digit.
pub open spec fn all_digits(s: Seq<char>) -> bool {
    forall|k: int| 0 <= k < s.len() ==> is_digit_c(#[trigger] s[k])
}

/// The number the outside integer parser reads: an optional plus sign, then
/// only digits, rejected when empty or too large.
pub open spec fn parse_u32_spec(v: Seq<char>) -> Option<u32> {
    let body = if v.len() > 0 && v[0] == '+' {
        v.drop_first()
    } else {
        v
    };
    if body.len() >= 1 && all_digits(body) && digits_value(body) <= u32::MAX {
        Some(digits_value(body) as u32)
    } else {
        None
    }
}

/// The value of a digit text never shrinks as digits are appended.
proof fn lemma_digits_value_nonneg(s: Seq<char>)
    requires
        all_digits(s),
    ensures
        digits_value(s) >= 0,
    decreases s.len(),
{
    if s.len() > 0 {
        assert(forall|k: int| 0 <= k < s.len() - 1 ==> is_digit_c(#[trigger] s.drop_last()[k]));
        lemma_digits_value_nonneg(s.drop_last());
    }
}

/// A prefix of a digit text is worth no more than the whole.
proof fn lemma_digits_value_prefix(s: Seq<char>, i: int)
    requires
        all_digits(s),
        0 <= i <= s.len(),
    ensures
        digits_value(s.subrange(0, i)) <= digits_value(s),
    decreases s.len() - i,
{
    if i < s.len() {
        lemma_digits_value_prefix(s, i + 1);
        let a = s.subrange(0, i);
        let b = s.subrange(0, i + 1);
        assert(b.drop_last() =~= a);
        assert(forall|k: int| 0 <= k < a.len() ==> is_digit_c(#[trigger] a[k]));
        assert(all_digits(a));
        lemma_digits_value_nonneg(a);
        assert(digits_value(b) == digits_value(a) * 10 + (b.last() as int - '0' as int));
        assert(is_digit_c(s[i]));
        assert(digits_value(b) >= digits_value(a));
    } else {
        assert(s.subrange(0, i) =~= s);
    }
}

fn parse_u32_exec(v: &Vec<char>) -> (r: Option<u32>)
    ensures
        r == parse_u32_spec(v@),
{
    let start: usize = if v.len() > 0 && v[0] == '+' {
        1
    } else {
        0
    };
    let ghost body = if v@.len() > 0 && v@[0] == '+' {
        v@.drop_first()
    } else {
        v@
    };
    proof {
        assert(body =~= v@.subrange(start as int, v@.len() as int));
    }
    let n = v.len();
    if n == start {
        return None;
    }
    let mut acc: u64 = 0;
    let mut i: usize = start;
    proof {
        assert(body.subrange(0, 0) =~= Seq::<char>::empty());
    }
    while i < n
        invariant
            n == v@.len(),
            start <= i <= n,
            body == v@.subrange(start as int, n as int),
            body == (if v@.len() > 0 && v@[0] == '+' {
                v@.drop_first()
            } else {
                v@
            }),
            v@.len() > 0 && v@[0] == '+' ==> start == 1,
            !(v@.len() > 0 && v@[0] == '+') ==> start == 0,
            forall|k: int| 0 <= k < i - start ==> is_digit_c(body[k]),
            acc == digits_value(body.subrange(0, i - start)),
            acc <= u32::MAX,
        decreases n - i,
    {
        let c = v[i];
        proof {
            assert(body[i - start] == v@[i as int]);
        }
        if !is_digit(c) {
            proof {
                let specbody = if v@.len() > 0 && v@[0] == '+' {
                    v@.drop_first()
                } else {
                    v@
                };
                assert(specbody == body);
                assert(0 <= i - start < specbody.len());
                assert(!is_digit_c(specbody[i - start]));
                assert(!all_digits(specbody));
                assert(parse_u32_spec(v@) is None);
            }
            return None;
        }
        let d = (c as u32) - ('0' as u32);
        let acc2: u64 = acc * 10 + (d as u64);
        proof {
            assert(body.subrange(0, i - start + 1).drop_last() =~= body.subrange(0, i - start));
            assert(body.subrange(0, i - start + 1).last() == body[i - start]);
        }
        if acc2 > 0xFFFF_FFFFu64 {
            proof {
                assert(forall|k: int|
                    0 <= k < i - start + 1 ==> is_digit_c(
                        #[trigger] body.subrange(0, i - start + 1)[k],
                    ));
                assert(digits_value(body.subrange(0, i - start + 1)) == acc2);
                if all_digits(body) {
                    lemma_digits_value_prefix(body, i - start + 1);
                    assert(digits_value(body) > u32::MAX);
                }
                assert(parse_u32_spec(v@) is None);
            }
            return None;
        }
        acc = acc2;
        i = i + 1;
    }
    proof {
        assert(body.subrange(0, n - start) =~= body);
        assert(all_digits(body));
        assert(parse_u32_spec(v@) == Some(acc as u32));
    }
    Some(acc as u32)
}

/// The weekday a two-letter code names, Monday first, if it names one.
pub open spec fn map_day(t: Seq<char>) -> Option<u8> {
    if ci_eq_seq(t, "MO"@) {
        Some(0u8)
    } else if ci_eq_seq(t, "TU"@) {
        Some(1u8)
    } else if ci_eq_seq(t, "WE"@) {
        Some(2u8)
    } else if ci_eq_seq(t, "TH"@) {
        Some(3u8)
    } else if ci_eq_seq(t, "FR"@) {
        Some(4u8)
    } else if ci_eq_seq(t, "SA"@) {
        Some(5u8)
    } else if ci_eq_seq(t, "SU"@) {
        Some(6u8)
    } else {
        None
    }
}

fn map_day_exec(t: &Vec<char>) -> (r: Option<u8>)
    ensures
        r == map_day(t@),
{
    if ci_eq_str(t, "MO") {
        Some(0u8)
    } else if ci_eq_str(t, "TU") {
        Some(1u8)
    } else if ci_eq_str(t, "WE") {
        Some(2u8)
    } else if ci_eq_str(t, "TH") {
        Some(3u8)
    } else if ci_eq_str(t, "FR") {
        Some(4u8)
    } else if ci_eq_str(t, "SA") {
        Some(5u8)
    } else if ci_eq_str(t, "SU") {
        Some(6u8)
    } else {
        None
    }
}

/// The weekday codes of a comma-separated list, each trimmed, unknown codes
/// dropped, in the order written.
pub open spec fn byday_codes(v: Seq<char>, i: int) -> Seq<u8>
    decreases v.len() - i + 1,
{
    if i > v.len() {
        Seq::<u8>::empty()
    } else {
        let e = next_char(v, i, ',');
        let e2 = if i <= e <= v.len() {
            e
        } else {
            v.len() as int
        };
        let part = trim_spec(v.subrange(i, e2));
        let here = match map_day(part) {
            Some(d) => seq![d],
            None => Seq::<u8>::empty(),
        };
        if e2 >= v.len() {
            here
        } else {
            here + byday_codes(v, e2 + 1)
        }
    }
}

/// How many of the listed codes name one weekday.
pub open spec fn count_day(s: Seq<u8>, d: u8) -> int
    decreases s.len(),
{
    if s.len() == 0 {
        0int
    } else {
        count_day(s.drop_last(), d) + if s.last() == d {
            1int
        } else {
            0int
        }
    }
}

/// The codes in stable weekday order, Monday first: each weekday as often as
/// it was listed.
pub open spec fn sorted_byday(s: Seq<u8>) -> Seq<u8> {
    Seq::new(count_day(s, 0) as nat, |k: int| 0u8) + Seq::new(count_day(s, 1) as nat, |k: int| 1u8)
        + Seq::new(count_day(s, 2) as nat, |k: int| 2u8) + Seq::new(
        count_day(s, 3) as nat,
        |k: int| 3u8,
    ) + Seq::new(count_day(s, 4) as nat, |k: int| 4u8) + Seq::new(
        count_day(s, 5) as nat,
        |k: int| 5u8,
    ) + Seq::new(count_day(s, 6) as nat, |k: int| 6u8)
}

fn count_day_exec(s: &Vec<u8>, d: u8) -> (r: usize)
    ensures
        r == count_day(s@, d),
{
    let n = s.len();
    let mut c: usize = 0;
    let mut i: usize = 0;
    proof {
        assert(s@.subrange(0, 0) =~= Seq::<u8>::empty());
    }
    while i < n
        invariant
            n == s@.len(),
            i <= n,
            c == count_day(s@.subrange(0, i as int), d),
            c <= i,
        decreases n - i,
    {
        proof {
            assert(s@.subrange(0, i + 1).drop_last() =~= s@.subrange(0, i as int));
        }
        if s[i] == d {
            c = c + 1;
        }
        i = i + 1;
    }
    proof {
        assert(s@.subrange(0, n as int) =~= s@);
    }
    c
}

fn sorted_byday_exec(s: &Vec<u8>) -> (r: Vec<u8>)
    ensures
        r@ == sorted_byday(s@),
{
    let mut out: Vec<u8> = Vec::new();
    let mut d: u8 = 0;
    while d < 7
        invariant
            d <= 7,
            out@ == sorted_prefix(s@, d as int),
        decreases 7 - d,
    {
        let c = count_day_exec(s, d);
        let mut j: usize = 0;
        let ghost base = out@;
        while j < c
            invariant
                j <= c,
                c == count_day(s@, d),
                out@ == base + Seq::new(j as nat, |k: int| d),
            decreases c - j,
        {
            out.push(d);
            j = j + 1;
            proof {
                assert(out@ =~= base + Seq::new(j as nat, |k: int| d));
            }
        }
        proof {
            assert(out@ =~= sorted_prefix(s@, d as int + 1));
        }
        d = d + 1;
    }
    proof {
        reveal_with_fuel(sorted_prefix, 8);
        assert(sorted_prefix(s@, 7) =~= sorted_byday(s@));
    }
    out
}

/// The sorted list up to (excluding) weekday `d`.
pub open spec fn sorted_prefix(s: Seq<u8>, d: int) -> Seq<u8>
    decreases d,
{
    if d <= 0 {
        Seq::<u8>::empty()
    } else {
        sorted_prefix(s, d - 1) + Seq::new(count_day(s, (d - 1) as u8) as nat, |k: int| (d - 1) as u8)
    }
}

fn byday_codes_exec(v: &Vec<char>, i: usize) -> (r: Vec<u8>)
    requires
        i <= v@.len(),
    ensures
        r@ == byday_codes(v@, i as int),
    decreases v@.len() - i,
{
    let e = next_char_exec(v, i, ',');
    let seg = crate::classify::copy_range(v, i, e);
    let trimmed_s = {
        let st = string_from_chars(&seg);
        trim_str(st.as_str())
    };
    let part = chars_of(trimmed_s.as_str());
    let mut out: Vec<u8> = Vec::new();
    match map_day_exec(&part) {
        Some(d) => {
            out.push(d);
        },
        None => {},
    }
    if e >= v.len() {
        proof {
            assert(out@ =~= byday_codes(v@, i as int));
        }
        out
    } else {
        let rest = byday_codes_exec(v, e + 1);
        let mut all = out;
        let ghost head = all@;
        let n = rest.len();
        let mut k: usize = 0;
        while k < n
            invariant
                n == rest@.len(),
                k <= n,
                all@ == head + rest@.subrange(0, k as int),
            decreases n - k,
        {
            all.push(rest[k]);
            k = k + 1;
            proof {
                assert(all@ =~= head + rest@.subrange(0, k as int));
            }
        }
        proof {
            assert(rest@.subrange(0, n as int) =~= rest@);
            assert(all@ =~= byday_codes(v@, i as int));
        }
        all
    }
}

/// One key=value part applied to the rule: unknown keys leave it unchanged;
/// the interval is never below one; the end instant is normalized like any
/// feed timestamp.
pub open spec fn apply_part(st: RRuleV, part: Seq<char>, now: int) -> RRuleV {
    let eq = next_char(part, 0, '=');
    let eq2 = if 0 <= eq <= part.len() {
        eq
    } else {
        part.len() as int
    };
    let key = upper_seq(part.subrange(0, eq2));
    let val = if eq2 < part.len() {
        part.subrange(eq2 + 1, part.len() as int)
    } else {
        Seq::<char>::empty()
    };
    if key == "FREQ"@ {
        RRuleV { freq: Some(upper_seq(val)), ..st }
    } else if key == "INTERVAL"@ {
        match parse_u32_spec(val) {
            Some(n) => RRuleV {
                interval: if n >= 1 {
                    n
                } else {
                    1
                },
                ..st
            },
            None => st,
        }
    } else if key == "UNTIL"@ {
        RRuleV {
            until_secs: Some(normalize_secs(val, now)),
            until_iso: Some(rfc3339_utc_str_of(normalize_secs(val, now))),
            ..st
        }
    } else if key == "COUNT"@ {
        match parse_u32_spec(val) {
            Some(n) => RRuleV { count: Some(n), ..st },
            None => st,
        }
    } else if key == "BYDAY"@ {
        RRuleV { byday: sorted_byday(byday_codes(val, 0)), ..st }
    } else {
        st
    }
}

/// The whole rule text folded part by part, parts separated by semicolons.
pub open spec fn rrule_fold(s: Seq<char>, i: int, st: RRuleV, now: int) -> RRuleV
    decreases s.len() - i,
{
    if i > s.len() {
        st
    } else {
        let e = next_char(s, i, ';');
        let e2 = if i <= e <= s.len() {
            e
        } else {
            s.len() as int
        };
        let st2 = apply_part(st, s.subrange(i, e2), now);
        if e2 >= s.len() {
            st2
        } else {
            rrule_fold(s, e2 + 1, st2, now)
        }
    }
}

/// The parsed form of a recurrence rule for the given current instant.
pub open spec fn parse_rrule_spec(s: Seq<char>, now: int) -> RRuleV {
    rrule_fold(s, 0, rrule_init(), now)
}

fn rrule_fold_exec(cs: &Vec<char>, i: usize, st: RRule, now: i64) -> (r: RRule)
    requires
        i <= cs@.len(),
        TS_MIN <= now <= TS_MAX,
    ensures
        r@ == rrule_fold(cs@, i as int, st@, now as int),
    decreases cs@.len() - i,
{
    let e = next_char_exec(cs, i, ';');
    let part = crate::classify::copy_range(cs, i, e);
    let st2 = apply_part_exec(st, &part, now);
    if e >= cs.len() {
        st2
    } else {
        rrule_fold_exec(cs, e + 1, st2, now)
    }
}

fn apply_part_exec(st: RRule, part: &Vec<char>, now: i64) -> (r: RRule)
    requires
        TS_MIN <= now <= TS_MAX,
    ensures
        r@ == apply_part(st@, part@, now as int),
{
    let eq = next_char_exec(part, 0, '=');
    let key_raw = crate::classify::copy_range(part, 0, eq);
    let key = upper_chars(&key_raw);
    let val: Vec<char> = if eq < part.len() {
        crate::classify::copy_range(part, eq + 1, part.len())
    } else {
        Vec::new()
    };
    proof {
        if !(eq < part@.len()) {
            assert(val@ =~= Seq::<char>::empty());
        }
    }
    let key_s = string_from_chars(&key);
    if crate::text::str_eq(key_s.as_str(), "FREQ") {
        let up = upper_chars(&val);
        RRule { freq: Some(string_from_chars(&up)), ..st }
    } else if crate::text::str_eq(key_s.as_str(), "INTERVAL") {
        match parse_u32_exec(&val) {
            Some(n) => RRule { interval: if n >= 1 { n } else { 1 }, ..st },
            None => st,
        }
    } else if crate::text::str_eq(key_s.as_str(), "UNTIL") {
        let vs = string_from_chars(&val);
        let (t, iso) = normalize_dt(vs.as_str(), now);
        RRule { until_secs: Some(t), until_iso: Some(iso), ..st }
    } else if crate::text::str_eq(key_s.as_str(), "COUNT") {
        match parse_u32_exec(&val) {
            Some(n) => RRule { count: Some(n), ..st },
            None => st,
        }
    } else if crate::text::str_eq(key_s.as_str(), "BYDAY") {
        let codes = byday_codes_exec(&val, 0);
        let sorted = sorted_byday_exec(&codes);
        RRule { byday: sorted, ..st }
    } else {
        st
    }
}

/// Parses a recurrence rule; the given current instant backs the end
/// instant's fallback, as in any timestamp normalization.
pub fn parse_rrule(s: &str, now: i64) -> (r: RRule)
    requires
        TS_MIN <= now <= TS_MAX,
    ensures
        r@ == parse_rrule_spec(s@, now as int),
{
    let cs = chars_of(s);
    let init = RRule {
        freq: None,
        interval: 1,
        until_secs: None,
        until_iso: None,
        count: None,
        byday: Vec::new(),
    };
    proof {
        assert(init@.byday =~= rrule_init().byday);
    }
    rrule_fold_exec(&cs, 0, init, now)
}

} // verus!
