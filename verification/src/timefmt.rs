//! Timestamp normalization: the three textual shapes a feed carries
//! (timezone-qualified, floating basic format, date-only) are converted to
//! absolute UTC instants, interpreting floating and date-only values in the
//! institution's home zone; unparseable input falls back to the given current
//! instant. Also the academic-year inclusion window.
use vstd::prelude::*;

use crate::text::{chars_of, is_digit, is_digit_c, string_from_chars};

verus! {

/// The smallest timestamp the calendar library can represent: the first
/// second of the outside date library's minimum date.
pub const TS_MIN: i64 = -8334601228800;

/// The largest timestamp the calendar library can represent: the last second
/// of the outside date library's maximum date (its type holds one further
/// year, but only as internal headroom).
pub const TS_MAX: i64 = 8210266876799;

/// The instant, in seconds, that the outside date-time parser reads from a
/// timezone-qualified timestamp text, if it accepts it.
pub uninterp spec fn rfc3339_secs_of(s: Seq<char>) -> Option<int>;

/// Relies on `chrono::DateTime::parse_from_rfc3339` and
/// `chrono::DateTime::timestamp`: the parse is a function of the text alone,
/// and an accepted instant lies within the outside library's representable
/// range.
#[verifier::external_body]
pub fn parse_rfc3339_secs(s: &str) -> (r: Option<i64>)
    ensures
        match r {
            Some(t) => rfc3339_secs_of(s@) == Some(t as int) && TS_MIN <= t <= TS_MAX,
            None => rfc3339_secs_of(s@) is None,
        },
{
    chrono::DateTime::parse_from_rfc3339(s).ok().map(|d| d.timestamp())
}

/// The text that the outside formatter produces for an instant.
pub uninterp spec fn rfc3339_utc_str_of(t: int) -> Seq<char>;

/// Relies on `chrono::DateTime::from_timestamp` and
/// `chrono::DateTime::to_rfc3339`: formatting is a function of the instant
/// alone, and every instant within the representable range is accepted.
#[verifier::external_body]
pub fn format_rfc3339_utc(t: i64) -> (r: String)
    requires
        TS_MIN <= t <= TS_MAX,
    ensures
        r@ == rfc3339_utc_str_of(t as int),
{
    chrono::DateTime::<chrono::Utc>::from_timestamp(t, 0).unwrap().to_rfc3339()
}

/// The instant that a wall-clock time in the institution's home zone denotes,
/// when it denotes exactly one (a time inside a daylight-saving gap or repeat
/// denotes none).
pub uninterp spec fn paris_local_secs_of(
    y: int,
    mo: int,
    d: int,
    h: int,
    mi: int,
    sec: int,
) -> Option<int>;

/// Relies on `chrono::TimeZone::with_ymd_and_hms` for `chrono_tz`'s Paris
/// zone and `chrono::LocalResult::single`: the conversion is a function of
/// the wall-clock fields alone, and a converted instant lies within the
/// outside library's representable range.
#[verifier::external_body]
pub fn paris_local_to_utc_secs(y: i32, mo: u8, d: u8, h: u8, mi: u8, sec: u8) -> (r: Option<i64>)
    requires
        1 <= mo <= 12,
        1 <= d <= 31,
        h <= 23,
        mi <= 59,
        sec <= 59,
    ensures
        match r {
            Some(t) => paris_local_secs_of(
                y as int,
                mo as int,
                d as int,
                h as int,
                mi as int,
                sec as int,
            ) == Some(t as int) && TS_MIN <= t <= TS_MAX,
            None => paris_local_secs_of(
                y as int,
                mo as int,
                d as int,
                h as int,
                mi as int,
                sec as int,
            ) is None,
        },
{
    chrono::TimeZone::with_ymd_and_hms(
        &chrono_tz::Europe::Paris,
        y,
        mo as u32,
        d as u32,
        h as u32,
        mi as u32,
        sec as u32,
    ).single().map(|d| d.timestamp())
}

/// The home-zone calendar year and month of an instant.
pub uninterp spec fn paris_ym_of(t: int) -> (int, int);

/// Relies on `chrono::DateTime::from_timestamp`, `chrono::DateTime::with_timezone`
/// with `chrono_tz`'s Paris zone, and `chrono::Datelike::year` / `month`: the
/// home-zone date is a function of the instant alone and the month is counted
/// from one. The year stays within the outside library's date range plus one:
/// in the last home-zone-offset hours below the range's top, the local date
/// rolls into the library's headroom year past its maximum date, which the
/// date type holds without aborting.
#[verifier::external_body]
pub fn paris_year_month(t: i64) -> (r: (i32, u8))
    requires
        TS_MIN <= t <= TS_MAX,
    ensures
        paris_ym_of(t as int) == (r.0 as int, r.1 as int),
        1 <= r.1 <= 12,
        -262144 <= r.0 <= 262144,
{
    let dt = chrono::DateTime::<chrono::Utc>::from_timestamp(t, 0).unwrap().with_timezone(
        &chrono_tz::Europe::Paris,
    );
    (chrono::Datelike::year(&dt), chrono::Datelike::month(&dt) as u8)
}

/// Relies on `chrono::Utc::now` and `chrono::DateTime::timestamp` for the
/// machine's current instant; nothing is assumed of the clock's value, and
/// callers clamp it before use. The outside call itself aborts on a machine
/// clock that reads before 1970 — an environmental condition no caller input
/// excludes.
#[verifier::external_body]
pub fn now_utc_secs() -> i64 {
    chrono::Utc::now().timestamp()
}

/// Clamps an instant into the representable range, for a machine clock that
/// cannot be trusted.
pub fn clamp_instant(t: i64) -> (r: i64)
    ensures
        TS_MIN <= r <= TS_MAX,
        TS_MIN <= t <= TS_MAX ==> r == t,
{
    if t < TS_MIN {
        TS_MIN
    } else if t > TS_MAX {
        TS_MAX
    } else {
        t
    }
}

/// A leap year of the proleptic Gregorian calendar.
pub open spec fn is_leap(y: int) -> bool {
    (y % 4 == 0 && y % 100 != 0) || y % 400 == 0
}

/// The number of days in a month.
pub open spec fn days_in_month(y: int, mo: int) -> int {
    if mo == 1 || mo == 3 || mo == 5 || mo == 7 || mo == 8 || mo == 10 || mo == 12 {
        31
    } else if mo == 4 || mo == 6 || mo == 9 || mo == 11 {
        30
    } else if mo == 2 {
        if is_leap(y) {
            29
        } else {
            28
        }
    } else {
        0
    }
}

/// A real calendar date.
pub open spec fn valid_date(y: int, mo: int, d: int) -> bool {
    1 <= mo <= 12 && 1 <= d <= days_in_month(y, mo)
}

fn is_leap_exec(y: i32) -> (r: bool)
    ensures
        r == is_leap(y as int),
{
    (y % 4 == 0 && y % 100 != 0) || y % 400 == 0
}

fn valid_date_exec(y: i32, mo: u8, d: u8) -> (r: bool)
    ensures
        r == valid_date(y as int, mo as int, d as int),
{
    if mo < 1 || mo > 12 || d < 1 {
        return false;
    }
    let dim: u8 = if mo == 1 || mo == 3 || mo == 5 || mo == 7 || mo == 8 || mo == 10 || mo == 12 {
        31
    } else if mo == 4 || mo == 6 || mo == 9 || mo == 11 {
        30
    } else {
        if is_leap_exec(y) {
            29
        } else {
            28
        }
    };
    d <= dim
}

/// The numeric value of a fixed-width digit field.
pub open spec fn field_val(s: Seq<char>, from: int, to: int) -> int
    decreases to - from,
{
    if from >= to {
        0
    } else {
        field_val(s, from, to - 1) * 10 + (s[to - 1] as int - '0' as int)
    }
}

/// A cap on the value of a digit field of up to four places.
pub open spec fn field_cap(n: int) -> int {
    if n <= 0 {
        1
    } else if n == 1 {
        10
    } else if n == 2 {
        100
    } else if n == 3 {
        1000
    } else {
        10000
    }
}

fn field_val_exec(cs: &Vec<char>, from: usize, to: usize) -> (r: u32)
    requires
        from <= to <= cs@.len(),
        to - from <= 4,
        forall|k: int| from <= k < to ==> is_digit_c(cs@[k]),
    ensures
        r == field_val(cs@, from as int, to as int),
        r < field_cap(to - from),
    decreases to - from,
{
    if from >= to {
        0
    } else {
        let hi = field_val_exec(cs, from, to - 1);
        let c = cs[to - 1];
        proof {
            assert(is_digit_c(cs@[to - 1]));
            assert('0' as u32 <= c as u32 <= '9' as u32);
        }
        hi * 10 + (c as u32 - '0' as u32)
    }
}

/// The days from the epoch to a civil date of the proleptic Gregorian
/// calendar, for years from 0 to 9999: the year is shifted by one 400-year
/// cycle so that every intermediate value is non-negative, counted in eras of
/// 146097 days, with March first as the year's first day.
pub open spec fn civil_days(y: int, mo: int, d: int) -> int {
    let y2 = if mo <= 2 {
        y + 399
    } else {
        y + 400
    };
    let era = y2 / 400;
    let yoe = y2 - era * 400;
    let mp = if mo > 2 {
        mo - 3
    } else {
        mo + 9
    };
    let doy = (153 * mp + 2) / 5 + d - 1;
    let doe = yoe * 365 + yoe / 4 - yoe / 100 + doy;
    era * 146097 + doe - 719468 - 146097
}

/// The instant a civil UTC date-time denotes, in seconds from the epoch.
pub open spec fn utc_civil_secs(y: int, mo: int, d: int, h: int, mi: int, sec: int) -> int {
    civil_days(y, mo, d) * 86400 + h * 3600 + mi * 60 + sec
}

/// Computes the instant of a civil UTC date-time.
fn utc_civil_to_secs(y: i32, mo: u8, d: u8, h: u8, mi: u8, sec: u8) -> (r: i64)
    requires
        0 <= y <= 9999,
        1 <= mo <= 12,
        1 <= d <= 31,
        h <= 23,
        mi <= 59,
        sec <= 59,
    ensures
        r as int == utc_civil_secs(y as int, mo as int, d as int, h as int, mi as int, sec as int),
        TS_MIN <= r <= TS_MAX,
{
    let y2: i64 = if mo <= 2 {
        y as i64 + 399
    } else {
        y as i64 + 400
    };
    let era: i64 = y2 / 400;
    proof {
        assert(0 <= era <= 25);
    }
    let yoe: i64 = y2 - era * 400;
    proof {
        assert(0 <= yoe <= 399);
    }
    let mp: i64 = if mo > 2 {
        mo as i64 - 3
    } else {
        mo as i64 + 9
    };
    let doy: i64 = (153 * mp + 2) / 5 + d as i64 - 1;
    proof {
        assert(0 <= doy <= 367);
    }
    let doe: i64 = yoe * 365 + yoe / 4 - yoe / 100 + doy;
    let days: i64 = era * 146097 + doe - 719468 - 146097;
    days * 86400 + (h as i64) * 3600 + (mi as i64) * 60 + sec as i64
}

/// The text with its trailing `Z` markers removed.
pub open spec fn strip_z(s: Seq<char>) -> Seq<char>
    decreases s.len(),
{
    if s.len() > 0 && s.last() == 'Z' {
        strip_z(s.drop_last())
    } else {
        s
    }
}

fn strip_z_len(cs: &Vec<char>) -> (r: usize)
    ensures
        strip_z(cs@) == cs@.subrange(0, r as int),
        r <= cs@.len(),
{
    let mut e = cs.len();
    proof {
        assert(cs@.subrange(0, e as int) =~= cs@);
    }
    while e > 0 && cs[e - 1] == 'Z'
        invariant
            e <= cs@.len(),
            strip_z(cs@) == strip_z(cs@.subrange(0, e as int)),
        decreases e,
    {
        proof {
            assert(cs@.subrange(0, e as int).drop_last() =~= cs@.subrange(0, e - 1));
        }
        e = e - 1;
    }
    e
}

/// The wall-clock fields of a floating basic-format date-time, when the text
/// (with trailing `Z` markers removed) has exactly that shape and denotes a
/// real date and time.
pub open spec fn parse_basic_spec(s: Seq<char>) -> Option<(int, int, int, int, int, int)> {
    let b = strip_z(s);
    if b.len() == 15 && b[8] == 'T' && (forall|k: int| 0 <= k < 8 ==> is_digit_c(b[k])) && (forall|
        k: int,
    | 9 <= k < 15 ==> is_digit_c(b[k])) {
        let y = field_val(b, 0, 4);
        let mo = field_val(b, 4, 6);
        let d = field_val(b, 6, 8);
        let h = field_val(b, 9, 11);
        let mi = field_val(b, 11, 13);
        let sec = field_val(b, 13, 15);
        if valid_date(y, mo, d) && h <= 23 && mi <= 59 && sec <= 59 {
            Some((y, mo, d, h, mi, sec))
        } else {
            None
        }
    } else {
        None
    }
}

/// The date fields of a date-only value: exactly eight digits denoting a real
/// date (no `Z` markers are stripped here).
pub open spec fn parse_date_spec(s: Seq<char>) -> Option<(int, int, int)> {
    if s.len() == 8 && (forall|k: int| 0 <= k < 8 ==> is_digit_c(s[k])) {
        let y = field_val(s, 0, 4);
        let mo = field_val(s, 4, 6);
        let d = field_val(s, 6, 8);
        if valid_date(y, mo, d) {
            Some((y, mo, d))
        } else {
            None
        }
    } else {
        None
    }
}

/// The instant a feed timestamp denotes: a timezone-qualified text as the
/// outside parser reads it; a basic-format text with a trailing `Z` marker as
/// the UTC instant it names; a floating basic-format or date-only text read
/// as home-zone wall-clock time; anything else, or a wall-clock time the home
/// zone does not denote uniquely, falls back to the current instant.
pub open spec fn normalize_secs(s: Seq<char>, now: int) -> int {
    match rfc3339_secs_of(s) {
        Some(t) => t,
        None => match parse_basic_spec(s) {
            Some(f) => if strip_z(s).len() < s.len() {
                utc_civil_secs(f.0, f.1, f.2, f.3, f.4, f.5)
            } else {
                match paris_local_secs_of(f.0, f.1, f.2, f.3, f.4, f.5) {
                    Some(t) => t,
                    None => now,
                }
            },
            None => match parse_date_spec(s) {
                Some(f) => match paris_local_secs_of(f.0, f.1, f.2, 0, 0, 0) {
                    Some(t) => t,
                    None => now,
                },
                None => now,
            },
        },
    }
}

/// Normalizes one feed timestamp to an absolute UTC instant and its
/// normalized text.
pub fn normalize_dt(s: &str, now: i64) -> (r: (i64, String))
    requires
        TS_MIN <= now <= TS_MAX,
    ensures
        r.0 as int == normalize_secs(s@, now as int),
        TS_MIN <= r.0 <= TS_MAX,
        r.1@ == rfc3339_utc_str_of(normalize_secs(s@, now as int)),
{
    match parse_rfc3339_secs(s) {
        Some(t) => {
            let iso = format_rfc3339_utc(t);
            return (t, iso);
        },
        None => {},
    }
    let cs = chars_of(s);
    let t = match parse_basic_exec(&cs) {
        Some((y, mo, d, h, mi, sec)) => {
            let stripped = strip_z_len(&cs);
            if stripped < cs.len() {
                utc_civil_to_secs(y, mo, d, h, mi, sec)
            } else {
                match paris_local_to_utc_secs(y, mo, d, h, mi, sec) {
                    Some(t) => t,
                    None => now,
                }
            }
        },
        None => match parse_date_exec(&cs) {
            Some((y, mo, d)) => {
                match paris_local_to_utc_secs(y, mo, d, 0, 0, 0) {
                    Some(t) => t,
                    None => now,
                }
            },
            None => now,
        },
    };
    let iso = format_rfc3339_utc(t);
    (t, iso)
}

fn parse_basic_exec(cs: &Vec<char>) -> (r: Option<(i32, u8, u8, u8, u8, u8)>)
    ensures
        match r {
            Some(f) => parse_basic_spec(cs@) == Some(
                (
                    f.0 as int,
                    f.1 as int,
                    f.2 as int,
                    f.3 as int,
                    f.4 as int,
                    f.5 as int,
                ),
            ) && 0 <= f.0 <= 9999 && 1 <= f.1 <= 12 && 1 <= f.2 <= 31 && f.3 <= 23 && f.4 <= 59
                && f.5 <= 59,
            None => parse_basic_spec(cs@) is None,
        },
{
    let e = strip_z_len(cs);
    let ghost b = strip_z(cs@);
    if e != 15 {
        return None;
    }
    if cs[8] != 'T' {
        proof {
            assert(b[8] == cs@[8]);
        }
        return None;
    }
    let mut k: usize = 0;
    while k < 8
        invariant
            k <= 8,
            e == 15,
            cs@.len() >= 15,
            b == strip_z(cs@),
            b == cs@.subrange(0, 15),
            forall|j: int| 0 <= j < k ==> is_digit_c(cs@[j]),
        decreases 8 - k,
    {
        if !is_digit(cs[k]) {
            proof {
                assert(b[k as int] == cs@[k as int]);
            }
            return None;
        }
        k = k + 1;
    }
    let mut k: usize = 9;
    while k < 15
        invariant
            9 <= k <= 15,
            e == 15,
            cs@.len() >= 15,
            b == strip_z(cs@),
            b == cs@.subrange(0, 15),
            forall|j: int| 9 <= j < k ==> is_digit_c(cs@[j]),
        decreases 15 - k,
    {
        if !is_digit(cs[k]) {
            proof {
                assert(b[k as int] == cs@[k as int]);
            }
            return None;
        }
        k = k + 1;
    }
    proof {
        assert(forall|j: int| 0 <= j < 8 ==> b[j] == cs@[j] && is_digit_c(b[j]));
        assert(forall|j: int| 9 <= j < 15 ==> b[j] == cs@[j] && is_digit_c(b[j]));
        assert(b[8] == cs@[8]);
        lemma_field_val_subrange(cs@, 15, 0, 4);
        lemma_field_val_subrange(cs@, 15, 4, 6);
        lemma_field_val_subrange(cs@, 15, 6, 8);
        lemma_field_val_subrange(cs@, 15, 9, 11);
        lemma_field_val_subrange(cs@, 15, 11, 13);
        lemma_field_val_subrange(cs@, 15, 13, 15);
    }
    let y32 = field_val_exec(cs, 0, 4);
    let mo32 = field_val_exec(cs, 4, 6);
    let d32 = field_val_exec(cs, 6, 8);
    let h32 = field_val_exec(cs, 9, 11);
    let mi32 = field_val_exec(cs, 11, 13);
    let s32 = field_val_exec(cs, 13, 15);
    let y = y32 as i32;
    let mo = mo32 as u8;
    let d = d32 as u8;
    let h = h32 as u8;
    let mi = mi32 as u8;
    let sec = s32 as u8;
    if valid_date_exec(y, mo, d) && h <= 23 && mi <= 59 && sec <= 59 {
        Some((y, mo, d, h, mi, sec))
    } else {
        None
    }
}

/// A field of a prefix equals the field of the whole text.
proof fn lemma_field_val_subrange(s: Seq<char>, e: int, from: int, to: int)
    requires
        0 <= from <= to <= e <= s.len(),
    ensures
        field_val(s.subrange(0, e), from, to) == field_val(s, from, to),
    decreases to - from,
{
    if from < to {
        lemma_field_val_subrange(s, e, from, to - 1);
    }
}

fn parse_date_exec(cs: &Vec<char>) -> (r: Option<(i32, u8, u8)>)
    ensures
        match r {
            Some(f) => parse_date_spec(cs@) == Some((f.0 as int, f.1 as int, f.2 as int)) && 1
                <= f.1 <= 12 && 1 <= f.2 <= 31,
            None => parse_date_spec(cs@) is None,
        },
{
    if cs.len() != 8 {
        return None;
    }
    let mut k: usize = 0;
    while k < 8
        invariant
            k <= 8,
            cs@.len() == 8,
            forall|j: int| 0 <= j < k ==> is_digit_c(cs@[j]),
        decreases 8 - k,
    {
        if !is_digit(cs[k]) {
            return None;
        }
        k = k + 1;
    }
    let y32 = field_val_exec(cs, 0, 4);
    let mo32 = field_val_exec(cs, 4, 6);
    let d32 = field_val_exec(cs, 6, 8);
    let y = y32 as i32;
    let mo = mo32 as u8;
    let d = d32 as u8;
    if valid_date_exec(y, mo, d) {
        Some((y, mo, d))
    } else {
        None
    }
}

/// The academic-year window for the current instant: from the first of
/// September, midnight home time, to the thirty-first of August of the
/// following year, one second before midnight home time; the window's start
/// year is the current home-zone year when the home-zone month is September
/// or later, else the year before. A window whose zone conversions do not
/// come out in order is no window.
pub open spec fn window_spec(now: int) -> Option<(int, int)> {
    let ym = paris_ym_of(now);
    let sy = if ym.1 >= 9 {
        ym.0
    } else {
        ym.0 - 1
    };
    match paris_local_secs_of(sy, 9, 1, 0, 0, 0) {
        Some(a) => match paris_local_secs_of(sy + 1, 8, 31, 23, 59, 59) {
            Some(b) => if a <= b {
                Some((a, b))
            } else {
                None
            },
            None => None,
        },
        None => None,
    }
}

/// Computes the academic-year inclusion window for the current instant: its
/// start never lies after its end, so a session starting exactly at the start
/// instant is inside the window.
pub fn academic_year_window(now: i64) -> (r: Option<(i64, i64)>)
    requires
        TS_MIN <= now <= TS_MAX,
    ensures
        match r {
            Some(w) => window_spec(now as int) == Some((w.0 as int, w.1 as int)) && w.0 <= w.1
                && TS_MIN <= w.0 <= TS_MAX && TS_MIN <= w.1 <= TS_MAX,
            None => window_spec(now as int) is None,
        },
{
    let (y, m) = paris_year_month(now);
    let sy: i32 = if m >= 9 {
        y
    } else {
        y - 1
    };
    match paris_local_to_utc_secs(sy, 9, 1, 0, 0, 0) {
        Some(a) => match paris_local_to_utc_secs(sy + 1, 8, 31, 23, 59, 59) {
            Some(b) => if a <= b {
                Some((a, b))
            } else {
                None
            },
            None => None,
        },
        None => None,
    }
}

} // verus!
