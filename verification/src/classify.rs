//! Decomposition of free-text session titles into a course code, a display
//! name candidate, a session type and a group label. The rules are an ordered
//! table, evaluated top to bottom with first-match-wins semantics per facet;
//! matching is ASCII-case-insensitive throughout.
use vstd::prelude::*;

use crate::text::{
    chars_of, ci_at, ci_contains, ci_eq_seq, ci_eq_str, ci_find, ci_find_vec, ci_match_at,
    is_alpha, is_alpha_c, is_digit, is_digit_c, is_space, is_space_c, is_word, is_word_c,
    string_from_chars,
};

verus! {

/// A word boundary at position `p`: the word-character status changes there
/// (positions outside the text count as non-word).
pub open spec fn bnd(s: Seq<char>, p: int) -> bool {
    if s.len() == 0 {
        false
    } else if p == 0 {
        is_word_c(s[0])
    } else if p == s.len() {
        is_word_c(s[p - 1])
    } else if 0 < p < s.len() {
        is_word_c(s[p - 1]) != is_word_c(s[p])
    } else {
        false
    }
}

pub fn bnd_exec(cs: &Vec<char>, p: usize) -> (r: bool)
    requires
        p <= cs@.len(),
    ensures
        r == bnd(cs@, p as int),
{
    if cs.len() == 0 {
        false
    } else if p == 0 {
        is_word(cs[0])
    } else if p == cs.len() {
        is_word(cs[p - 1])
    } else {
        let a = is_word(cs[p - 1]);
        let b = is_word(cs[p]);
        a != b
    }
}

/// The first position at or after `i` that does not hold whitespace.
pub open spec fn skip_ws(s: Seq<char>, i: int) -> int
    decreases s.len() - i,
{
    if 0 <= i < s.len() && is_space_c(s[i]) {
        skip_ws(s, i + 1)
    } else {
        i
    }
}

pub fn skip_ws_exec(cs: &Vec<char>, i: usize) -> (r: usize)
    requires
        i <= cs@.len(),
    ensures
        r == skip_ws(cs@, i as int),
        i <= r <= cs@.len(),
    decreases cs@.len() - i,
{
    if i < cs.len() && is_space(cs[i]) {
        skip_ws_exec(cs, i + 1)
    } else {
        i
    }
}

/// The end of the run of ASCII digits starting at `i`.
pub open spec fn digits_end(s: Seq<char>, i: int) -> int
    decreases s.len() - i,
{
    if 0 <= i < s.len() && is_digit_c(s[i]) {
        digits_end(s, i + 1)
    } else {
        i
    }
}

pub fn digits_end_exec(cs: &Vec<char>, i: usize) -> (r: usize)
    requires
        i <= cs@.len(),
    ensures
        r == digits_end(cs@, i as int),
        i <= r <= cs@.len(),
    decreases cs@.len() - i,
{
    if i < cs.len() && is_digit(cs[i]) {
        digits_end_exec(cs, i + 1)
    } else {
        i
    }
}

/// The end of the run of ASCII letters and digits starting at `i`.
pub open spec fn alnum_end(s: Seq<char>, i: int) -> int
    decreases s.len() - i,
{
    if 0 <= i < s.len() && (is_alpha_c(s[i]) || is_digit_c(s[i])) {
        alnum_end(s, i + 1)
    } else {
        i
    }
}

pub fn alnum_end_exec(cs: &Vec<char>, i: usize) -> (r: usize)
    requires
        i <= cs@.len(),
    ensures
        r == alnum_end(cs@, i as int),
        i <= r <= cs@.len(),
    decreases cs@.len() - i,
{
    if i < cs.len() && (is_alpha(cs[i]) || is_digit(cs[i])) {
        alnum_end_exec(cs, i + 1)
    } else {
        i
    }
}

/// The index of the first hyphen at or after `i`, or the length.
pub open spec fn first_hyphen(s: Seq<char>, i: int) -> int
    decreases s.len() - i,
{
    if 0 <= i < s.len() {
        if s[i] == '-' {
            i
        } else {
            first_hyphen(s, i + 1)
        }
    } else {
        i
    }
}

pub fn first_hyphen_exec(cs: &Vec<char>, i: usize) -> (r: usize)
    requires
        i <= cs@.len(),
    ensures
        r == first_hyphen(cs@, i as int),
        i <= r <= cs@.len(),
    decreases cs@.len() - i,
{
    if i < cs.len() {
        if cs[i] == '-' {
            i
        } else {
            first_hyphen_exec(cs, i + 1)
        }
    } else {
        i
    }
}

/// Copies the characters in `[from, to)` out of the text.
pub fn copy_range(cs: &Vec<char>, from: usize, to: usize) -> (r: Vec<char>)
    requires
        from <= to <= cs@.len(),
    ensures
        r@ == cs@.subrange(from as int, to as int),
{
    let mut r: Vec<char> = Vec::new();
    let mut i: usize = from;
    while i < to
        invariant
            from <= i <= to <= cs@.len(),
            r@ == cs@.subrange(from as int, i as int),
        decreases to - i,
    {
        r.push(cs[i]);
        i = i + 1;
        proof {
            assert(r@ =~= cs@.subrange(from as int, i as int));
        }
    }
    proof {
        assert(r@ =~= cs@.subrange(from as int, to as int));
    }
    r
}

/// The primary department pattern at position `i`: an optional academic-level
/// digit, the department letters, exactly three digits, between word
/// boundaries. Yields the end of the match and the three digits.
pub open spec fn match_in_at(s: Seq<char>, i: int) -> Option<(int, Seq<char>)> {
    if !bnd(s, i) {
        None
    } else if i + 6 <= s.len() && (s[i] == '4' || s[i] == '5') && ci_at(s, "IN"@, i + 1)
        && is_digit_c(s[i + 3]) && is_digit_c(s[i + 4]) && is_digit_c(s[i + 5]) && bnd(s, i + 6) {
        Some((i + 6, s.subrange(i + 3, i + 6)))
    } else if i + 5 <= s.len() && ci_at(s, "IN"@, i) && is_digit_c(s[i + 2]) && is_digit_c(
        s[i + 3],
    ) && is_digit_c(s[i + 4]) && bnd(s, i + 5) {
        Some((i + 5, s.subrange(i + 2, i + 5)))
    } else {
        None
    }
}

/// The first primary department match at or after `i`: its three digits.
pub open spec fn find_in(s: Seq<char>, i: int) -> Option<Seq<char>>
    decreases s.len() - i,
{
    if i >= s.len() {
        None
    } else {
        match match_in_at(s, i) {
            Some(p) => Some(p.1),
            None => find_in(s, i + 1),
        }
    }
}

pub fn find_in_exec(cs: &Vec<char>, i: usize) -> (r: Option<Vec<char>>)
    requires
        i <= cs@.len(),
    ensures
        match r {
            Some(v) => find_in(cs@, i as int) == Some(v@),
            None => find_in(cs@, i as int) is None,
        },
    decreases cs@.len() - i,
{
    if i >= cs.len() {
        return None;
    }
    if bnd_exec(cs, i) {
        if cs.len() - i >= 6 && (cs[i] == '4' || cs[i] == '5') && ci_match_at(cs, "IN", i + 1)
            && is_digit(cs[i + 3]) && is_digit(cs[i + 4]) && is_digit(cs[i + 5]) && bnd_exec(
            cs,
            i + 6,
        ) {
            return Some(copy_range(cs, i + 3, i + 6));
        }
        if cs.len() - i >= 5 && ci_match_at(cs, "IN", i) && is_digit(cs[i + 2]) && is_digit(
            cs[i + 3],
        ) && is_digit(cs[i + 4]) && bnd_exec(cs, i + 5) {
            if !(cs.len() - i >= 6 && (cs[i] == '4' || cs[i] == '5') && ci_match_at(cs, "IN", i + 1)
                && is_digit(cs[i + 3]) && is_digit(cs[i + 4]) && is_digit(cs[i + 5]) && bnd_exec(
                cs,
                i + 6,
            )) {
                return Some(copy_range(cs, i + 2, i + 5));
            }
        }
    }
    find_in_exec(cs, i + 1)
}

/// The secondary department pattern at position `i`: the department letters,
/// optional whitespace, then an optional level digit and three or four
/// digits, between word boundaries. Yields the captured digit payload.
pub open spec fn match_um_at(s: Seq<char>, i: int) -> Option<Seq<char>> {
    if !(bnd(s, i) && (ci_at(s, "UM"@, i) || ci_at(s, "MU"@, i))) {
        None
    } else {
        let k = skip_ws(s, i + 2);
        if k + 5 <= s.len() && (s[k] == '4' || s[k] == '5') && is_digit_c(s[k + 1]) && is_digit_c(
            s[k + 2],
        ) && is_digit_c(s[k + 3]) && is_digit_c(s[k + 4]) && bnd(s, k + 5) {
            Some(s.subrange(k, k + 5))
        } else if k + 4 <= s.len() && (s[k] == '4' || s[k] == '5') && is_digit_c(s[k + 1])
            && is_digit_c(s[k + 2]) && is_digit_c(s[k + 3]) && bnd(s, k + 4) {
            Some(s.subrange(k, k + 4))
        } else if k + 4 <= s.len() && is_digit_c(s[k]) && is_digit_c(s[k + 1]) && is_digit_c(
            s[k + 2],
        ) && is_digit_c(s[k + 3]) && bnd(s, k + 4) {
            Some(s.subrange(k, k + 4))
        } else if k + 3 <= s.len() && is_digit_c(s[k]) && is_digit_c(s[k + 1]) && is_digit_c(
            s[k + 2],
        ) && bnd(s, k + 3) {
            Some(s.subrange(k, k + 3))
        } else {
            None
        }
    }
}

/// The first secondary department match at or after `i`: the last three
/// characters of its digit payload.
pub open spec fn find_um(s: Seq<char>, i: int) -> Option<Seq<char>>
    decreases s.len() - i,
{
    if i >= s.len() {
        None
    } else {
        match match_um_at(s, i) {
            Some(cap) => Some(cap.subrange(cap.len() - 3, cap.len() as int)),
            None => find_um(s, i + 1),
        }
    }
}

fn match_um_at_exec(cs: &Vec<char>, i: usize) -> (r: Option<Vec<char>>)
    requires
        i <= cs@.len(),
    ensures
        match r {
            Some(v) => match_um_at(cs@, i as int) == Some(v@) && 3 <= v@.len(),
            None => match_um_at(cs@, i as int) is None,
        },
{
    if !(bnd_exec(cs, i) && (cs.len() - i >= 2 && (ci_match_at(cs, "UM", i) || ci_match_at(
        cs,
        "MU",
        i,
    )))) {
        proof {
            if i + 2 > cs@.len() {
                assert(!ci_at(cs@, "UM"@, i as int) && !ci_at(cs@, "MU"@, i as int)) by {
                    reveal_strlit("UM");
                    reveal_strlit("MU");
                }
            }
        }
        return None;
    }
    let k = skip_ws_exec(cs, i + 2);
    if cs.len() - k >= 5 && (cs[k] == '4' || cs[k] == '5') && is_digit(cs[k + 1]) && is_digit(
        cs[k + 2],
    ) && is_digit(cs[k + 3]) && is_digit(cs[k + 4]) && bnd_exec(cs, k + 5) {
        Some(copy_range(cs, k, k + 5))
    } else if cs.len() - k >= 4 && (cs[k] == '4' || cs[k] == '5') && is_digit(cs[k + 1])
        && is_digit(cs[k + 2]) && is_digit(cs[k + 3]) && bnd_exec(cs, k + 4) {
        Some(copy_range(cs, k, k + 4))
    } else if cs.len() - k >= 4 && is_digit(cs[k]) && is_digit(cs[k + 1]) && is_digit(cs[k + 2])
        && is_digit(cs[k + 3]) && bnd_exec(cs, k + 4) {
        Some(copy_range(cs, k, k + 4))
    } else if cs.len() - k >= 3 && is_digit(cs[k]) && is_digit(cs[k + 1]) && is_digit(cs[k + 2])
        && bnd_exec(cs, k + 3) {
        Some(copy_range(cs, k, k + 3))
    } else {
        None
    }
}

pub fn find_um_exec(cs: &Vec<char>, i: usize) -> (r: Option<Vec<char>>)
    requires
        i <= cs@.len(),
    ensures
        match r {
            Some(v) => find_um(cs@, i as int) == Some(v@),
            None => find_um(cs@, i as int) is None,
        },
    decreases cs@.len() - i,
{
    if i >= cs.len() {
        return None;
    }
    match match_um_at_exec(cs, i) {
        Some(cap) => {
            let n = cap.len();
            Some(copy_range(&cap, n - 3, n))
        },
        None => find_um_exec(cs, i + 1),
    }
}

/// The last run of three or more digits in the text, taken greedily four at a
/// time as the generic pattern does; yields the last such match.
pub open spec fn scan_digit_runs(s: Seq<char>, i: int) -> Option<Seq<char>>
    decreases s.len() - i,
{
    if i >= s.len() {
        None
    } else if is_digit_c(s[i]) {
        let e = digits_end(s, i);
        if e - i >= 4 && i + 4 <= s.len() {
            match scan_digit_runs(s, i + 4) {
                Some(x) => Some(x),
                None => Some(s.subrange(i, i + 4)),
            }
        } else if e - i == 3 && i + 3 <= s.len() {
            match scan_digit_runs(s, i + 3) {
                Some(x) => Some(x),
                None => Some(s.subrange(i, i + 3)),
            }
        } else {
            scan_digit_runs(s, i + 1)
        }
    } else {
        scan_digit_runs(s, i + 1)
    }
}

pub fn scan_digit_runs_exec(cs: &Vec<char>, i: usize) -> (r: Option<Vec<char>>)
    requires
        i <= cs@.len(),
    ensures
        match r {
            Some(v) => scan_digit_runs(cs@, i as int) == Some(v@),
            None => scan_digit_runs(cs@, i as int) is None,
        },
    decreases cs@.len() - i,
{
    if i >= cs.len() {
        return None;
    }
    if is_digit(cs[i]) {
        let e = digits_end_exec(cs, i);
        if e - i >= 4 && i + 4 <= cs.len() {
            match scan_digit_runs_exec(cs, i + 4) {
                Some(x) => Some(x),
                None => Some(copy_range(cs, i, i + 4)),
            }
        } else if e - i == 3 && i + 3 <= cs.len() {
            match scan_digit_runs_exec(cs, i + 3) {
                Some(x) => Some(x),
                None => Some(copy_range(cs, i, i + 3)),
            }
        } else {
            scan_digit_runs_exec(cs, i + 1)
        }
    } else {
        scan_digit_runs_exec(cs, i + 1)
    }
}

/// The generic code fallback: the last three digits of the last three-or-four
/// digit run in the segment before the first hyphen.
pub open spec fn find_seg_code(s: Seq<char>) -> Option<Seq<char>> {
    let seg = s.subrange(0, first_hyphen(s, 0));
    match scan_digit_runs(seg, 0) {
        Some(cap) => if cap.len() >= 4 {
            Some(cap.subrange(cap.len() - 3, cap.len() as int))
        } else {
            Some(cap)
        },
        None => None,
    }
}

pub fn find_seg_code_exec(cs: &Vec<char>) -> (r: Option<Vec<char>>)
    ensures
        match r {
            Some(v) => find_seg_code(cs@) == Some(v@),
            None => find_seg_code(cs@) is None,
        },
{
    let h = first_hyphen_exec(cs, 0);
    let seg = copy_range(cs, 0, h);
    match scan_digit_runs_exec(&seg, 0) {
        Some(cap) => {
            let n = cap.len();
            if n >= 4 {
                Some(copy_range(&cap, n - 3, n))
            } else {
                Some(cap)
            }
        },
        None => None,
    }
}

/// The fixed vocabulary of session types: lecture, tutorial, lab, a generic
/// course session, exams and assessment families.
#[derive(Clone, Copy, Debug, PartialEq, Eq, Structural)]
pub enum SessionType {
    Cm,
    Td,
    Tp,
    Tme,
    Cs,
    Exam,
    Ds,
    Ct,
    Cc,
}

/// The canonical text of a session type.
pub open spec fn type_str(t: SessionType) -> Seq<char> {
    match t {
        SessionType::Cm => "CM"@,
        SessionType::Td => "TD"@,
        SessionType::Tp => "TP"@,
        SessionType::Tme => "TME"@,
        SessionType::Cs => "CS"@,
        SessionType::Exam => "EXAM"@,
        SessionType::Ds => "DS"@,
        SessionType::Ct => "CT"@,
        SessionType::Cc => "CC"@,
    }
}

pub fn type_string(t: SessionType) -> (r: String)
    ensures
        r@ == type_str(t),
{
    match t {
        SessionType::Cm => String::from_str("CM"),
        SessionType::Td => String::from_str("TD"),
        SessionType::Tp => String::from_str("TP"),
        SessionType::Tme => String::from_str("TME"),
        SessionType::Cs => String::from_str("CS"),
        SessionType::Exam => String::from_str("EXAM"),
        SessionType::Ds => String::from_str("DS"),
        SessionType::Ct => String::from_str("CT"),
        SessionType::Cc => String::from_str("CC"),
    }
}

/// A teaching session type, whose trailing digits name a group.
pub open spec fn is_teaching(t: SessionType) -> bool {
    t == SessionType::Td || t == SessionType::Tp || t == SessionType::Cm || t == SessionType::Tme
        || t == SessionType::Cs
}

/// The optional tutorial/lab sub-type of a combined marker.
#[derive(Clone, Copy, Debug, PartialEq, Eq, Structural)]
pub enum SubType {
    Td,
    Tp,
}

/// The digits, if any, that end a combined marker, and the position the
/// marker ends at: greedy two digits, then one, then none, each ending at a
/// word boundary.
pub open spec fn comb_tail(s: Seq<char>, q: int) -> Option<(Option<Seq<char>>, int)> {
    let q1 = skip_ws(s, q);
    if q1 + 2 <= s.len() && is_digit_c(s[q1]) && is_digit_c(s[q1 + 1]) && bnd(s, q1 + 2) {
        Some((Some(s.subrange(q1, q1 + 2)), q1 + 2))
    } else if q1 + 1 <= s.len() && is_digit_c(s[q1]) && bnd(s, q1 + 1) {
        Some((Some(s.subrange(q1, q1 + 1)), q1 + 1))
    } else if q1 > q {
        if q1 < s.len() && is_word_c(s[q1]) {
            Some((None, q1))
        } else {
            Some((None, q))
        }
    } else {
        if bnd(s, q) {
            Some((None, q))
        } else {
            None
        }
    }
}

fn comb_tail_exec(cs: &Vec<char>, q: usize) -> (r: Option<(Option<Vec<char>>, usize)>)
    requires
        q <= cs@.len(),
    ensures
        match r {
            Some((d, e)) => comb_tail(cs@, q as int) == Some((d.deep_view(), e as int)) && q <= e
                <= cs@.len(),
            None => comb_tail(cs@, q as int) is None,
        },
{
    let q1 = skip_ws_exec(cs, q);
    if cs.len() - q1 >= 2 && is_digit(cs[q1]) && is_digit(cs[q1 + 1]) && bnd_exec(cs, q1 + 2) {
        Some((Some(copy_range(cs, q1, q1 + 2)), q1 + 2))
    } else if cs.len() - q1 >= 1 && is_digit(cs[q1]) && bnd_exec(cs, q1 + 1) {
        Some((Some(copy_range(cs, q1, q1 + 1)), q1 + 1))
    } else if q1 > q {
        if q1 < cs.len() && is_word(cs[q1]) {
            Some((None, q1))
        } else {
            Some((None, q))
        }
    } else {
        if bnd_exec(cs, q) {
            Some((None, q))
        } else {
            None
        }
    }
}

/// What follows a combined marker's keyword: optional whitespace, an optional
/// colon, optional whitespace, an optional tutorial/lab sub-type, then the
/// optional digits, ending at a word boundary.
pub open spec fn comb_cont(s: Seq<char>, j: int) -> Option<(Option<SubType>, Option<Seq<char>>, int)> {
    let k1 = skip_ws(s, j);
    let k2 = if k1 < s.len() && s[k1] == ':' {
        skip_ws(s, k1 + 1)
    } else {
        k1
    };
    let with_sub = if ci_at(s, "TD"@, k2) {
        match comb_tail(s, k2 + 2) {
            Some((d, e)) => Some((Some(SubType::Td), d, e)),
            None => None,
        }
    } else if ci_at(s, "TP"@, k2) {
        match comb_tail(s, k2 + 2) {
            Some((d, e)) => Some((Some(SubType::Tp), d, e)),
            None => None,
        }
    } else {
        None
    };
    match with_sub {
        Some(x) => Some(x),
        None => {
            if k2 + 2 <= s.len() && is_digit_c(s[k2]) && is_digit_c(s[k2 + 1]) && bnd(s, k2 + 2) {
                Some((None, Some(s.subrange(k2, k2 + 2)), k2 + 2))
            } else if k2 + 1 <= s.len() && is_digit_c(s[k2]) && bnd(s, k2 + 1) {
                Some((None, Some(s.subrange(k2, k2 + 1)), k2 + 1))
            } else if k2 > j {
                if k2 < s.len() && is_word_c(s[k2]) {
                    Some((None, None, k2))
                } else {
                    Some((None, None, j))
                }
            } else {
                if bnd(s, j) {
                    Some((None, None, j))
                } else {
                    None
                }
            }
        },
    }
}

fn comb_cont_exec(cs: &Vec<char>, j: usize) -> (r: Option<(Option<SubType>, Option<Vec<char>>, usize)>)
    requires
        j <= cs@.len(),
    ensures
        match r {
            Some((sb, d, e)) => comb_cont(cs@, j as int) == Some((sb, d.deep_view(), e as int))
                && j <= e <= cs@.len(),
            None => comb_cont(cs@, j as int) is None,
        },
{
    let k1 = skip_ws_exec(cs, j);
    let k2 = if k1 < cs.len() && cs[k1] == ':' {
        skip_ws_exec(cs, k1 + 1)
    } else {
        k1
    };
    if ci_match_at(cs, "TD", k2) && cs.len() - k2 >= 2 {
        match comb_tail_exec(cs, k2 + 2) {
            Some((d, e)) => {
                return Some((Some(SubType::Td), d, e));
            },
            None => {},
        }
    } else if ci_match_at(cs, "TP", k2) && cs.len() - k2 >= 2 {
        match comb_tail_exec(cs, k2 + 2) {
            Some((d, e)) => {
                return Some((Some(SubType::Tp), d, e));
            },
            None => {},
        }
    }
    proof {
        if cs@.len() - k2 < 2 {
            assert(!ci_at(cs@, "TD"@, k2 as int) && !ci_at(cs@, "TP"@, k2 as int)) by {
                reveal_strlit("TD");
                reveal_strlit("TP");
            }
        }
    }
    if cs.len() - k2 >= 2 && is_digit(cs[k2]) && is_digit(cs[k2 + 1]) && bnd_exec(cs, k2 + 2) {
        Some((None, Some(copy_range(cs, k2, k2 + 2)), k2 + 2))
    } else if cs.len() - k2 >= 1 && is_digit(cs[k2]) && bnd_exec(cs, k2 + 1) {
        Some((None, Some(copy_range(cs, k2, k2 + 1)), k2 + 1))
    } else if k2 > j {
        if k2 < cs.len() && is_word(cs[k2]) {
            Some((None, None, k2))
        } else {
            Some((None, None, j))
        }
    } else {
        if bnd_exec(cs, j) {
            Some((None, None, j))
        } else {
            None
        }
    }
}

/// A combined type marker at position `i`: a type keyword at a word boundary
/// with its continuation. Yields the resolved type for this marker (an
/// explicit tutorial/lab sub-type wins over the keyword), the captured
/// digits, and the end of the marker.
pub open spec fn match_comb_at(s: Seq<char>, i: int) -> Option<(SessionType, Option<Seq<char>>, int)> {
    if !bnd(s, i) {
        None
    } else if ci_at(s, "CM"@, i) {
        comb_arm(s, i + 2, SessionType::Cm)
    } else if ci_at(s, "TME"@, i) {
        comb_arm(s, i + 3, SessionType::Tme)
    } else if ci_at(s, "TD"@, i) {
        comb_arm(s, i + 2, SessionType::Td)
    } else if ci_at(s, "TP"@, i) {
        comb_arm(s, i + 2, SessionType::Tp)
    } else if ci_at(s, "CS"@, i) {
        comb_arm(s, i + 2, SessionType::Cs)
    } else if ci_at(s, "EXAMEN"@, i) {
        match comb_arm(s, i + 4, SessionType::Exam) {
            Some(x) => Some(x),
            None => comb_arm(s, i + 6, SessionType::Exam),
        }
    } else if ci_at(s, "EXAM"@, i) {
        comb_arm(s, i + 4, SessionType::Exam)
    } else if ci_at(s, "DS"@, i) {
        comb_arm(s, i + 2, SessionType::Ds)
    } else if ci_at(s, "CT"@, i) {
        comb_arm(s, i + 2, SessionType::Ct)
    } else if ci_at(s, "CC"@, i) {
        comb_arm(s, i + 2, SessionType::Cc)
    } else {
        None
    }
}

/// One keyword's continuation, with the sub-type taking precedence.
pub open spec fn comb_arm(s: Seq<char>, j: int, kw: SessionType) -> Option<(SessionType, Option<Seq<char>>, int)> {
    match comb_cont(s, j) {
        Some((sb, d, e)) => Some(
            (
                match sb {
                    Some(SubType::Td) => SessionType::Td,
                    Some(SubType::Tp) => SessionType::Tp,
                    None => kw,
                },
                d,
                e,
            ),
        ),
        None => None,
    }
}

fn comb_arm_exec(cs: &Vec<char>, j: usize, kw: SessionType) -> (r: Option<(SessionType, Option<Vec<char>>, usize)>)
    requires
        j <= cs@.len(),
    ensures
        match r {
            Some((t, d, e)) => comb_arm(cs@, j as int, kw) == Some((t, d.deep_view(), e as int))
                && j <= e <= cs@.len(),
            None => comb_arm(cs@, j as int, kw) is None,
        },
{
    match comb_cont_exec(cs, j) {
        Some((sb, d, e)) => {
            let t = match sb {
                Some(SubType::Td) => SessionType::Td,
                Some(SubType::Tp) => SessionType::Tp,
                None => kw,
            };
            Some((t, d, e))
        },
        None => None,
    }
}

fn match_comb_at_exec(cs: &Vec<char>, i: usize) -> (r: Option<(SessionType, Option<Vec<char>>, usize)>)
    requires
        i <= cs@.len(),
    ensures
        match r {
            Some((t, d, e)) => match_comb_at(cs@, i as int) == Some((t, d.deep_view(), e as int))
                && i <= e <= cs@.len(),
            None => match_comb_at(cs@, i as int) is None,
        },
{
    let n = cs.len();
    if !bnd_exec(cs, i) {
        None
    } else if ci_match_at(cs, "CM", i) {
        proof {
            reveal_strlit("CM");
        }
        comb_arm_exec(cs, i + 2, SessionType::Cm)
    } else if ci_match_at(cs, "TME", i) {
        proof {
            reveal_strlit("TME");
        }
        comb_arm_exec(cs, i + 3, SessionType::Tme)
    } else if ci_match_at(cs, "TD", i) {
        proof {
            reveal_strlit("TD");
        }
        comb_arm_exec(cs, i + 2, SessionType::Td)
    } else if ci_match_at(cs, "TP", i) {
        proof {
            reveal_strlit("TP");
        }
        comb_arm_exec(cs, i + 2, SessionType::Tp)
    } else if ci_match_at(cs, "CS", i) {
        proof {
            reveal_strlit("CS");
        }
        comb_arm_exec(cs, i + 2, SessionType::Cs)
    } else if ci_match_at(cs, "EXAMEN", i) {
        proof {
            reveal_strlit("EXAMEN");
        }
        match comb_arm_exec(cs, i + 4, SessionType::Exam) {
            Some(x) => Some(x),
            None => comb_arm_exec(cs, i + 6, SessionType::Exam),
        }
    } else if ci_match_at(cs, "EXAM", i) {
        proof {
            reveal_strlit("EXAM");
        }
        comb_arm_exec(cs, i + 4, SessionType::Exam)
    } else if ci_match_at(cs, "DS", i) {
        proof {
            reveal_strlit("DS");
        }
        comb_arm_exec(cs, i + 2, SessionType::Ds)
    } else if ci_match_at(cs, "CT", i) {
        proof {
            reveal_strlit("CT");
        }
        comb_arm_exec(cs, i + 2, SessionType::Ct)
    } else if ci_match_at(cs, "CC", i) {
        proof {
            reveal_strlit("CC");
        }
        comb_arm_exec(cs, i + 2, SessionType::Cc)
    } else {
        None
    }
}

/// Every combined type marker in the text, scanned left to right and
/// non-overlapping, folded over the running type and group: each marker
/// overwrites the type; the first marker that resolves to a teaching type
/// with digits sets the group.
#[verifier::rlimit(80)]
pub open spec fn comb_scan(
    s: Seq<char>,
    i: int,
    ty: Option<SessionType>,
    grp: Option<Seq<char>>,
) -> (Option<SessionType>, Option<Seq<char>>)
    decreases s.len() - i,
{
    if i >= s.len() {
        (ty, grp)
    } else {
        match match_comb_at(s, i) {
            Some((t, d, e)) => {
                let grp2 = if grp is None && is_teaching(t) {
                    d
                } else {
                    grp
                };
                comb_scan(s, if i < e && e <= s.len() { e } else { i + 1 }, Some(t), grp2)
            },
            None => comb_scan(s, i + 1, ty, grp),
        }
    }
}

pub fn comb_scan_exec(
    cs: &Vec<char>,
    i: usize,
    ty: Option<SessionType>,
    grp: Option<Vec<char>>,
) -> (r: (Option<SessionType>, Option<Vec<char>>))
    requires
        i <= cs@.len(),
    ensures
        comb_scan(cs@, i as int, ty, grp.deep_view()) == (r.0, r.1.deep_view()),
    decreases cs@.len() - i,
{
    if i >= cs.len() {
        return (ty, grp);
    }
    match match_comb_at_exec(cs, i) {
        Some((t, d, e)) => {
            let grp_none = match &grp {
                None => true,
                Some(_) => false,
            };
            let teaching = match t {
                SessionType::Td | SessionType::Tp | SessionType::Cm | SessionType::Tme
                    | SessionType::Cs => true,
                _ => false,
            };
            let grp2 = if grp_none && teaching {
                d
            } else {
                grp
            };
            let next = if i < e && e <= cs.len() {
                e
            } else {
                i + 1
            };
            comb_scan_exec(cs, next, Some(t), grp2)
        },
        None => comb_scan_exec(cs, i + 1, ty, grp),
    }
}

/// A group marker at position `i`: a group keyword at a word boundary, then
/// optional whitespace, an optional separator, and one or two digits ending
/// at a word boundary.
pub open spec fn grp_tail(s: Seq<char>, j: int) -> Option<Seq<char>> {
    let k1 = skip_ws(s, j);
    let k2 = if k1 < s.len() && (s[k1] == '-' || s[k1] == '_') {
        k1 + 1
    } else {
        k1
    };
    if k2 + 2 <= s.len() && is_digit_c(s[k2]) && is_digit_c(s[k2 + 1]) && bnd(s, k2 + 2) {
        Some(s.subrange(k2, k2 + 2))
    } else if k2 + 1 <= s.len() && is_digit_c(s[k2]) && bnd(s, k2 + 1) {
        Some(s.subrange(k2, k2 + 1))
    } else {
        None
    }
}

fn grp_tail_exec(cs: &Vec<char>, j: usize) -> (r: Option<Vec<char>>)
    requires
        j <= cs@.len(),
    ensures
        match r {
            Some(v) => grp_tail(cs@, j as int) == Some(v@),
            None => grp_tail(cs@, j as int) is None,
        },
{
    let k1 = skip_ws_exec(cs, j);
    let k2 = if k1 < cs.len() && (cs[k1] == '-' || cs[k1] == '_') {
        k1 + 1
    } else {
        k1
    };
    if cs.len() - k2 >= 2 && is_digit(cs[k2]) && is_digit(cs[k2 + 1]) && bnd_exec(cs, k2 + 2) {
        Some(copy_range(cs, k2, k2 + 2))
    } else if cs.len() - k2 >= 1 && is_digit(cs[k2]) && bnd_exec(cs, k2 + 1) {
        Some(copy_range(cs, k2, k2 + 1))
    } else {
        None
    }
}

/// The group keywords, tried in order with the shorter prefixes first, as the
/// marker pattern lists them.
pub open spec fn match_grp_at(s: Seq<char>, i: int) -> Option<Seq<char>> {
    if !bnd(s, i) {
        None
    } else {
        let r1 = if ci_at(s, "GR"@, i) {
            grp_tail(s, i + 2)
        } else {
            None
        };
        if r1 is Some {
            r1
        } else {
            let r2 = if ci_at(s, "GRP"@, i) {
                grp_tail(s, i + 3)
            } else {
                None
            };
            if r2 is Some {
                r2
            } else {
                let r3 = if ci_at(s, "GROUPE"@, i) {
                    grp_tail(s, i + 6)
                } else {
                    None
                };
                if r3 is Some {
                    r3
                } else {
                    let r4 = if ci_at(s, "GROUP"@, i) {
                        grp_tail(s, i + 5)
                    } else {
                        None
                    };
                    if r4 is Some {
                        r4
                    } else {
                        if ci_at(s, "G"@, i) {
                            grp_tail(s, i + 1)
                        } else {
                            None
                        }
                    }
                }
            }
        }
    }
}

fn match_grp_at_exec(cs: &Vec<char>, i: usize) -> (r: Option<Vec<char>>)
    requires
        i <= cs@.len(),
    ensures
        match r {
            Some(v) => match_grp_at(cs@, i as int) == Some(v@),
            None => match_grp_at(cs@, i as int) is None,
        },
{
    let n = cs.len();
    if !bnd_exec(cs, i) {
        return None;
    }
    if ci_match_at(cs, "GR", i) {
        proof {
            reveal_strlit("GR");
        }
        match grp_tail_exec(cs, i + 2) {
            Some(v) => {
                return Some(v);
            },
            None => {},
        }
    }
    if ci_match_at(cs, "GRP", i) {
        proof {
            reveal_strlit("GRP");
        }
        match grp_tail_exec(cs, i + 3) {
            Some(v) => {
                return Some(v);
            },
            None => {},
        }
    }
    if ci_match_at(cs, "GROUPE", i) {
        proof {
            reveal_strlit("GROUPE");
        }
        match grp_tail_exec(cs, i + 6) {
            Some(v) => {
                return Some(v);
            },
            None => {},
        }
    }
    if ci_match_at(cs, "GROUP", i) {
        proof {
            reveal_strlit("GROUP");
        }
        match grp_tail_exec(cs, i + 5) {
            Some(v) => {
                return Some(v);
            },
            None => {},
        }
    }
    if ci_match_at(cs, "G", i) {
        proof {
            reveal_strlit("G");
        }
        match grp_tail_exec(cs, i + 1) {
            Some(v) => {
                return Some(v);
            },
            None => {},
        }
    }
    None
}

/// The first group marker in the text.
pub open spec fn find_grp(s: Seq<char>, i: int) -> Option<Seq<char>>
    decreases s.len() - i,
{
    if i >= s.len() {
        None
    } else {
        match match_grp_at(s, i) {
            Some(v) => Some(v),
            None => find_grp(s, i + 1),
        }
    }
}

pub fn find_grp_exec(cs: &Vec<char>, i: usize) -> (r: Option<Vec<char>>)
    requires
        i <= cs@.len(),
    ensures
        match r {
            Some(v) => find_grp(cs@, i as int) == Some(v@),
            None => find_grp(cs@, i as int) is None,
        },
    decreases cs@.len() - i,
{
    if i >= cs.len() {
        return None;
    }
    match match_grp_at_exec(cs, i) {
        Some(v) => Some(v),
        None => find_grp_exec(cs, i + 1),
    }
}

/// An exam-session short code at position `i`: the two letters at a word
/// boundary, then optional digits that must end at a word boundary.
pub open spec fn er_at(s: Seq<char>, i: int) -> bool {
    bnd(s, i) && ci_at(s, "ER"@, i) && {
        let j = i + 2;
        ||| j == s.len()
        ||| (j < s.len() && !is_word_c(s[j]))
        ||| (j < s.len() && is_digit_c(s[j]) && {
            let e = digits_end(s, j);
            e == s.len() || !is_word_c(s[e])
        })
    }
}

/// Whether the text holds an exam-session short code.
pub open spec fn find_er(s: Seq<char>, i: int) -> bool
    decreases s.len() - i,
{
    if i >= s.len() {
        false
    } else if er_at(s, i) {
        true
    } else {
        find_er(s, i + 1)
    }
}

pub fn find_er_exec(cs: &Vec<char>, i: usize) -> (r: bool)
    requires
        i <= cs@.len(),
    ensures
        r == find_er(cs@, i as int),
    decreases cs@.len() - i,
{
    let n = cs.len();
    if i >= cs.len() {
        return false;
    }
    let here = bnd_exec(cs, i) && ci_match_at(cs, "ER", i) && {
        proof {
            reveal_strlit("ER");
        }
        let j = i + 2;
        if j == cs.len() {
            true
        } else if !is_word(cs[j]) {
            true
        } else if is_digit(cs[j]) {
            let e = digits_end_exec(cs, j);
            e == cs.len() || !is_word(cs[e])
        } else {
            false
        }
    };
    if here {
        true
    } else {
        find_er_exec(cs, i + 1)
    }
}

/// An exam session marker: the word at a boundary, optional whitespace, then
/// at least one digit ending at a word boundary.
pub open spec fn session_at(s: Seq<char>, i: int) -> bool {
    bnd(s, i) && ci_at(s, "SESSION"@, i) && {
        let q = skip_ws(s, i + 7);
        q < s.len() && is_digit_c(s[q]) && {
            let e = digits_end(s, q);
            e == s.len() || !is_word_c(s[e])
        }
    }
}

pub open spec fn find_session(s: Seq<char>, i: int) -> bool
    decreases s.len() - i,
{
    if i >= s.len() {
        false
    } else if session_at(s, i) {
        true
    } else {
        find_session(s, i + 1)
    }
}

pub fn find_session_exec(cs: &Vec<char>, i: usize) -> (r: bool)
    requires
        i <= cs@.len(),
    ensures
        r == find_session(cs@, i as int),
    decreases cs@.len() - i,
{
    let n = cs.len();
    if i >= cs.len() {
        return false;
    }
    let here = bnd_exec(cs, i) && ci_match_at(cs, "SESSION", i) && {
        proof {
            reveal_strlit("SESSION");
        }
        let q = skip_ws_exec(cs, i + 7);
        if q < cs.len() && is_digit(cs[q]) {
            let e = digits_end_exec(cs, q);
            e == cs.len() || !is_word(cs[e])
        } else {
            false
        }
    };
    if here {
        true
    } else {
        find_session_exec(cs, i + 1)
    }
}

/// The parenthesized taught-in-English qualifier: an opening parenthesis,
/// the two words with whitespace between, a closing parenthesis.
pub open spec fn en_anglais_at(s: Seq<char>, i: int) -> bool {
    i < s.len() && s[i] == '(' && {
        let a = skip_ws(s, i + 1);
        ci_at(s, "EN"@, a) && {
            let b = skip_ws(s, a + 2);
            b > a + 2 && ci_at(s, "ANGLAIS"@, b) && {
                let c = skip_ws(s, b + 7);
                c < s.len() && s[c] == ')'
            }
        }
    }
}

/// Whether the title carries the taught-in-English qualifier.
pub open spec fn find_en_anglais(s: Seq<char>, i: int) -> bool
    decreases s.len() - i,
{
    if i >= s.len() {
        false
    } else if en_anglais_at(s, i) {
        true
    } else {
        find_en_anglais(s, i + 1)
    }
}

pub fn find_en_anglais_exec(cs: &Vec<char>, i: usize) -> (r: bool)
    requires
        i <= cs@.len(),
    ensures
        r == find_en_anglais(cs@, i as int),
    decreases cs@.len() - i,
{
    let n = cs.len();
    if i >= cs.len() {
        return false;
    }
    let here = cs[i] == '(' && {
        let a = skip_ws_exec(cs, i + 1);
        ci_match_at(cs, "EN", a) && {
            proof {
                reveal_strlit("EN");
            }
            let b = skip_ws_exec(cs, a + 2);
            b > a + 2 && ci_match_at(cs, "ANGLAIS", b) && {
                proof {
                    reveal_strlit("ANGLAIS");
                }
                let c = skip_ws_exec(cs, b + 7);
                c < cs.len() && cs[c] == ')'
            }
        }
    };
    if here {
        true
    } else {
        find_en_anglais_exec(cs, i + 1)
    }
}

/// The end of the run of ASCII letters starting at `i`.
pub open spec fn alpha_end(s: Seq<char>, i: int) -> int
    decreases s.len() - i,
{
    if 0 <= i < s.len() && is_alpha_c(s[i]) {
        alpha_end(s, i + 1)
    } else {
        i
    }
}

pub fn alpha_end_exec(cs: &Vec<char>, i: usize) -> (r: usize)
    requires
        i <= cs@.len(),
    ensures
        r == alpha_end(cs@, i as int),
        i <= r <= cs@.len(),
    decreases cs@.len() - i,
{
    if i < cs.len() && is_alpha(cs[i]) {
        alpha_end_exec(cs, i + 1)
    } else {
        i
    }
}

/// The end of the run of non-whitespace characters starting at `i`.
pub open spec fn nonws_end(s: Seq<char>, i: int) -> int
    decreases s.len() - i,
{
    if 0 <= i < s.len() && !is_space_c(s[i]) {
        nonws_end(s, i + 1)
    } else {
        i
    }
}

pub fn nonws_end_exec(cs: &Vec<char>, i: usize) -> (r: usize)
    requires
        i <= cs@.len(),
    ensures
        r == nonws_end(cs@, i as int),
        i <= r <= cs@.len(),
    decreases cs@.len() - i,
{
    if i < cs.len() && !is_space(cs[i]) {
        nonws_end_exec(cs, i + 1)
    } else {
        i
    }
}

/// The end of the run of characters that are neither whitespace nor hyphens.
pub open spec fn nonhws_end(s: Seq<char>, i: int) -> int
    decreases s.len() - i,
{
    if 0 <= i < s.len() && !is_space_c(s[i]) && s[i] != '-' {
        nonhws_end(s, i + 1)
    } else {
        i
    }
}

pub fn nonhws_end_exec(cs: &Vec<char>, i: usize) -> (r: usize)
    requires
        i <= cs@.len(),
    ensures
        r == nonhws_end(cs@, i as int),
        i <= r <= cs@.len(),
    decreases cs@.len() - i,
{
    if i < cs.len() && !is_space(cs[i]) && cs[i] != '-' {
        nonhws_end_exec(cs, i + 1)
    } else {
        i
    }
}

/// Whether the token holds any ASCII digit from position `i` on.
pub open spec fn any_digit(t: Seq<char>, i: int) -> bool
    decreases t.len() - i,
{
    if i >= t.len() {
        false
    } else if 0 <= i && is_digit_c(t[i]) {
        true
    } else {
        any_digit(t, i + 1)
    }
}

pub fn any_digit_exec(t: &Vec<char>, i: usize) -> (r: bool)
    requires
        i <= t@.len(),
    ensures
        r == any_digit(t@, i as int),
    decreases t@.len() - i,
{
    if i >= t.len() {
        false
    } else if is_digit(t[i]) {
        true
    } else {
        any_digit_exec(t, i + 1)
    }
}

/// The views of a token list.
pub open spec fn toks_view(v: Seq<Vec<char>>) -> Seq<Seq<char>> {
    v.map_values(|t: Vec<char>| t@)
}

/// The title split into maximal runs of ASCII letters and digits.
pub open spec fn tokens_spec(s: Seq<char>, i: int) -> Seq<Seq<char>>
    decreases s.len() - i,
{
    if i >= s.len() {
        Seq::<Seq<char>>::empty()
    } else if is_alpha_c(s[i]) || is_digit_c(s[i]) {
        let e = alnum_end(s, i);
        let e2 = if i < e && e <= s.len() {
            e
        } else {
            i + 1
        };
        seq![s.subrange(i, e2)] + tokens_spec(s, e2)
    } else {
        tokens_spec(s, i + 1)
    }
}

pub fn tokens_exec(cs: &Vec<char>) -> (r: Vec<Vec<char>>)
    ensures
        toks_view(r@) == tokens_spec(cs@, 0),
{
    let n = cs.len();
    let mut acc: Vec<Vec<char>> = Vec::new();
    let mut i: usize = 0;
    proof {
        assert(toks_view(acc@) + tokens_spec(cs@, 0) =~= tokens_spec(cs@, 0));
    }
    while i < n
        invariant
            n == cs@.len(),
            i <= n,
            tokens_spec(cs@, 0) == toks_view(acc@) + tokens_spec(cs@, i as int),
        decreases n - i,
    {
        if is_alpha(cs[i]) || is_digit(cs[i]) {
            let e = alnum_end_exec(cs, i);
            let e2 = if i < e {
                e
            } else {
                i + 1
            };
            let tok = copy_range(cs, i, e2);
            let ghost prev = acc@;
            acc.push(tok);
            proof {
                assert(toks_view(acc@) =~= toks_view(prev).push(cs@.subrange(i as int, e2 as int)));
                assert(toks_view(prev) + (seq![cs@.subrange(i as int, e2 as int)] + tokens_spec(
                    cs@,
                    e2 as int,
                )) =~= toks_view(acc@) + tokens_spec(cs@, e2 as int));
            }
            i = e2;
        } else {
            i = i + 1;
        }
    }
    proof {
        assert(toks_view(acc@) + tokens_spec(cs@, n as int) =~= toks_view(acc@));
    }
    acc
}

/// A type abbreviation fused to the end of a token: the longest of the type
/// abbreviations that the token ends with, if any.
pub open spec fn suffix_type(t: Seq<char>) -> Option<SessionType> {
    if t.len() >= 4 && ci_at(t, "EXAM"@, t.len() - 4) {
        Some(SessionType::Exam)
    } else if t.len() >= 3 && ci_at(t, "TME"@, t.len() - 3) {
        Some(SessionType::Tme)
    } else if t.len() >= 2 && ci_at(t, "CM"@, t.len() - 2) {
        Some(SessionType::Cm)
    } else if t.len() >= 2 && ci_at(t, "TD"@, t.len() - 2) {
        Some(SessionType::Td)
    } else if t.len() >= 2 && ci_at(t, "TP"@, t.len() - 2) {
        Some(SessionType::Tp)
    } else if t.len() >= 2 && ci_at(t, "CS"@, t.len() - 2) {
        Some(SessionType::Cs)
    } else if t.len() >= 2 && ci_at(t, "DS"@, t.len() - 2) {
        Some(SessionType::Ds)
    } else if t.len() >= 2 && ci_at(t, "CT"@, t.len() - 2) {
        Some(SessionType::Ct)
    } else if t.len() >= 2 && ci_at(t, "CC"@, t.len() - 2) {
        Some(SessionType::Cc)
    } else {
        None
    }
}

fn suffix_type_exec(t: &Vec<char>) -> (r: Option<SessionType>)
    ensures
        r == suffix_type(t@),
{
    let n = t.len();
    if n >= 4 && ci_match_at(t, "EXAM", n - 4) {
        Some(SessionType::Exam)
    } else if n >= 3 && ci_match_at(t, "TME", n - 3) {
        Some(SessionType::Tme)
    } else if n >= 2 && ci_match_at(t, "CM", n - 2) {
        Some(SessionType::Cm)
    } else if n >= 2 && ci_match_at(t, "TD", n - 2) {
        Some(SessionType::Td)
    } else if n >= 2 && ci_match_at(t, "TP", n - 2) {
        Some(SessionType::Tp)
    } else if n >= 2 && ci_match_at(t, "CS", n - 2) {
        Some(SessionType::Cs)
    } else if n >= 2 && ci_match_at(t, "DS", n - 2) {
        Some(SessionType::Ds)
    } else if n >= 2 && ci_match_at(t, "CT", n - 2) {
        Some(SessionType::Ct)
    } else if n >= 2 && ci_match_at(t, "CC", n - 2) {
        Some(SessionType::Cc)
    } else {
        None
    }
}

/// The first token carrying a fused type suffix, left to right.
pub open spec fn token_suffix_scan(toks: Seq<Seq<char>>, i: int) -> Option<SessionType>
    decreases toks.len() - i,
{
    if i < 0 || i >= toks.len() {
        None
    } else {
        match suffix_type(toks[i]) {
            Some(t) => Some(t),
            None => token_suffix_scan(toks, i + 1),
        }
    }
}

fn token_suffix_scan_exec(toks: &Vec<Vec<char>>, i: usize) -> (r: Option<SessionType>)
    requires
        i <= toks@.len(),
    ensures
        r == token_suffix_scan(toks_view(toks@), i as int),
    decreases toks@.len() - i,
{
    if i >= toks.len() {
        None
    } else {
        match suffix_type_exec(&toks[i]) {
            Some(t) => Some(t),
            None => token_suffix_scan_exec(toks, i + 1),
        }
    }
}

/// A token that is exactly a type abbreviation.
pub open spec fn is_type_tok(t: Seq<char>) -> bool {
    ||| ci_eq_seq(t, "CM"@)
    ||| ci_eq_seq(t, "TD"@)
    ||| ci_eq_seq(t, "TP"@)
    ||| ci_eq_seq(t, "TME"@)
    ||| ci_eq_seq(t, "CS"@)
    ||| ci_eq_seq(t, "EXAM"@)
    ||| ci_eq_seq(t, "DS"@)
    ||| ci_eq_seq(t, "CT"@)
    ||| ci_eq_seq(t, "CC"@)
}

fn is_type_tok_exec(t: &Vec<char>) -> (r: bool)
    ensures
        r == is_type_tok(t@),
{
    ci_eq_str(t, "CM") || ci_eq_str(t, "TD") || ci_eq_str(t, "TP") || ci_eq_str(t, "TME")
        || ci_eq_str(t, "CS") || ci_eq_str(t, "EXAM") || ci_eq_str(t, "DS") || ci_eq_str(t, "CT")
        || ci_eq_str(t, "CC")
}

/// A token shaped like the secondary department code: the department letters,
/// then letters, then digits to the end.
pub open spec fn um_code_shape(t: Seq<char>) -> bool {
    (ci_at(t, "UM"@, 0) || ci_at(t, "MU"@, 0)) && {
        let a = alpha_end(t, 2);
        a < t.len() && digits_end(t, a) == t.len()
    }
}

fn um_code_shape_exec(t: &Vec<char>) -> (r: bool)
    ensures
        r == um_code_shape(t@),
{
    if !(t.len() >= 2 && (ci_match_at(t, "UM", 0) || ci_match_at(t, "MU", 0))) {
        proof {
            if t@.len() < 2 {
                assert(!ci_at(t@, "UM"@, 0) && !ci_at(t@, "MU"@, 0)) by {
                    reveal_strlit("UM");
                    reveal_strlit("MU");
                }
            }
        }
        return false;
    }
    let a = alpha_end_exec(t, 2);
    a < t.len() && digits_end_exec(t, a) == t.len()
}

/// A token shaped like a group marker: a group keyword followed only by
/// digits.
pub open spec fn grp_shape(t: Seq<char>) -> bool {
    ||| (ci_at(t, "GROUPE"@, 0) && digits_end(t, 6) == t.len())
    ||| (ci_at(t, "GROUP"@, 0) && digits_end(t, 5) == t.len())
    ||| (ci_at(t, "GRP"@, 0) && digits_end(t, 3) == t.len())
    ||| (ci_at(t, "GR"@, 0) && digits_end(t, 2) == t.len())
    ||| (ci_at(t, "G"@, 0) && digits_end(t, 1) == t.len())
}

fn grp_shape_exec(t: &Vec<char>) -> (r: bool)
    ensures
        r == grp_shape(t@),
{
    if ci_match_at(t, "GROUPE", 0) {
        proof {
            reveal_strlit("GROUPE");
        }
        if digits_end_exec(t, 6) == t.len() {
            return true;
        }
    }
    if ci_match_at(t, "GROUP", 0) {
        proof {
            reveal_strlit("GROUP");
        }
        if digits_end_exec(t, 5) == t.len() {
            return true;
        }
    }
    if ci_match_at(t, "GRP", 0) {
        proof {
            reveal_strlit("GRP");
        }
        if digits_end_exec(t, 3) == t.len() {
            return true;
        }
    }
    if ci_match_at(t, "GR", 0) {
        proof {
            reveal_strlit("GR");
        }
        if digits_end_exec(t, 2) == t.len() {
            return true;
        }
    }
    if ci_match_at(t, "G", 0) {
        proof {
            reveal_strlit("G");
        }
        if digits_end_exec(t, 1) == t.len() {
            return true;
        }
    }
    false
}

/// A token the name scan passes over: codes and code-shaped tokens, the
/// department letters, the "course" word, type abbreviations and group
/// markers.
pub open spec fn skip_token(t: Seq<char>, first: bool, d: Seq<char>) -> bool {
    ||| (first && any_digit(t, 0))
    ||| (any_digit(t, 0) && ci_contains(t, d))
    ||| um_code_shape(t)
    ||| ci_contains(t, "IN"@)
    ||| ci_eq_seq(t, "UM"@)
    ||| ci_eq_seq(t, "MU"@)
    ||| ci_eq_seq(t, "M"@)
    ||| ci_eq_seq(t, "U"@)
    ||| ci_eq_seq(t, "COURS"@)
    ||| is_type_tok(t)
    ||| grp_shape(t)
}

fn skip_token_exec(t: &Vec<char>, first: bool, d: &Vec<char>) -> (r: bool)
    ensures
        r == skip_token(t@, first, d@),
{
    (first && any_digit_exec(t, 0)) || (any_digit_exec(t, 0) && ci_find_vec(t, d))
        || um_code_shape_exec(t) || ci_find(t, "IN") || ci_eq_str(t, "UM") || ci_eq_str(t, "MU")
        || ci_eq_str(t, "M") || ci_eq_str(t, "U") || ci_eq_str(t, "COURS") || is_type_tok_exec(t)
        || grp_shape_exec(t)
}

/// A token fit to be the display name: starts with a letter, at least three
/// characters.
pub open spec fn name_shape(t: Seq<char>) -> bool {
    t.len() >= 3 && is_alpha_c(t[0])
}

/// The first token, left to right, that is neither skipped nor ill-shaped.
pub open spec fn name_scan(toks: Seq<Seq<char>>, i: int, d: Seq<char>) -> Option<Seq<char>>
    decreases toks.len() - i,
{
    if i < 0 || i >= toks.len() {
        None
    } else if skip_token(toks[i], i == 0, d) {
        name_scan(toks, i + 1, d)
    } else if name_shape(toks[i]) {
        Some(toks[i])
    } else {
        name_scan(toks, i + 1, d)
    }
}

fn name_scan_exec(toks: &Vec<Vec<char>>, i: usize, d: &Vec<char>) -> (r: Option<Vec<char>>)
    requires
        i <= toks@.len(),
    ensures
        match r {
            Some(v) => name_scan(toks_view(toks@), i as int, d@) == Some(v@),
            None => name_scan(toks_view(toks@), i as int, d@) is None,
        },
    decreases toks@.len() - i,
{
    if i >= toks.len() {
        return None;
    }
    let t = &toks[i];
    if skip_token_exec(t, i == 0, d) {
        name_scan_exec(toks, i + 1, d)
    } else if t.len() >= 3 && is_alpha(t[0]) {
        Some(copy_range(t, 0, t.len()))
    } else {
        name_scan_exec(toks, i + 1, d)
    }
}

/// What the token after the first hyphen may not be: a type abbreviation,
/// the "course" word, or a group marker.
pub open spec fn is_type_group_or_course(t: Seq<char>) -> bool {
    is_type_tok(t) || ci_eq_seq(t, "COURS"@) || grp_shape(t)
}

/// The token right after the first hyphen, when there is one, it is not
/// itself a hyphen or whitespace run, and it is not a type, group or
/// "course" token.
pub open spec fn hyphen_name(s: Seq<char>) -> Option<Seq<char>> {
    let h = first_hyphen(s, 0);
    if h == 0 || h >= s.len() {
        None
    } else {
        let w = skip_ws(s, h + 1);
        let e = nonhws_end(s, w);
        if !(w < e && e <= s.len() && w <= s.len()) {
            None
        } else {
            let tok = s.subrange(w, e);
            if is_type_group_or_course(tok) {
                None
            } else {
                Some(tok)
            }
        }
    }
}

fn hyphen_name_exec(cs: &Vec<char>) -> (r: Option<Vec<char>>)
    ensures
        match r {
            Some(v) => hyphen_name(cs@) == Some(v@),
            None => hyphen_name(cs@) is None,
        },
{
    let h = first_hyphen_exec(cs, 0);
    if h == 0 || h >= cs.len() {
        return None;
    }
    let w = skip_ws_exec(cs, h + 1);
    let e = nonhws_end_exec(cs, w);
    if !(w < e) {
        return None;
    }
    let tok = copy_range(cs, w, e);
    if is_type_tok_exec(&tok) || ci_eq_str(&tok, "COURS") || grp_shape_exec(&tok) {
        None
    } else {
        Some(tok)
    }
}

/// The first whitespace-delimited word of a value, or the whole value when it
/// has none.
pub open spec fn first_word_or_self(seg: Seq<char>) -> Seq<char> {
    let w = skip_ws(seg, 0);
    if w >= seg.len() {
        seg
    } else {
        let e = nonws_end(seg, w);
        if w <= e <= seg.len() {
            seg.subrange(w, e)
        } else {
            seg
        }
    }
}

fn first_word_or_self_exec(seg: &Vec<char>) -> (r: Vec<char>)
    ensures
        r@ == first_word_or_self(seg@),
{
    let w = skip_ws_exec(seg, 0);
    if w >= seg.len() {
        return copy_range(seg, 0, seg.len());
    }
    let e = nonws_end_exec(seg, w);
    copy_range(seg, w, e)
}

/// The last-resort name: the first word of the segment between the first and
/// second hyphens, or that segment, or the whole title when it has no hyphen.
pub open spec fn hyphen_fallback(s: Seq<char>) -> Seq<char> {
    let h = first_hyphen(s, 0);
    if h >= s.len() {
        s
    } else {
        let h2 = first_hyphen(s, h + 1);
        if h + 1 <= h2 <= s.len() {
            first_word_or_self(s.subrange(h + 1, h2))
        } else {
            s
        }
    }
}

fn hyphen_fallback_exec(cs: &Vec<char>) -> (r: Vec<char>)
    ensures
        r@ == hyphen_fallback(cs@),
{
    let h = first_hyphen_exec(cs, 0);
    if h >= cs.len() {
        return copy_range(cs, 0, cs.len());
    }
    let h2 = first_hyphen_exec(cs, h + 1);
    let seg = copy_range(cs, h + 1, h2);
    first_word_or_self_exec(&seg)
}

/// The first token that starts with the English-course word, kept in its
/// original casing, or the word's fixed form.
pub open spec fn ang_name(toks: Seq<Seq<char>>, i: int) -> Seq<char>
    decreases toks.len() - i,
{
    if i < 0 || i >= toks.len() {
        "Anglais"@
    } else if toks[i].len() >= 7 && ci_at(toks[i], "ANGLAIS"@, 0) {
        toks[i]
    } else {
        ang_name(toks, i + 1)
    }
}

fn ang_name_exec(toks: &Vec<Vec<char>>, i: usize) -> (r: Vec<char>)
    requires
        i <= toks@.len(),
    ensures
        r@ == ang_name(toks_view(toks@), i as int),
    decreases toks@.len() - i,
{
    if i >= toks.len() {
        let v = chars_of("Anglais");
        return v;
    }
    let t = &toks[i];
    if t.len() >= 7 && ci_match_at(t, "ANGLAIS", 0) {
        copy_range(t, 0, t.len())
    } else {
        ang_name_exec(toks, i + 1)
    }
}

/// A decomposed session title: the resolved course code (a numeric code, a
/// fixed family literal, or the sentinel for non-standard activities), the
/// display name candidate, the session type, and the group label.
pub struct Classified {
    pub name: String,
    pub code: String,
    pub kind: Option<String>,
    pub group: Option<String>,
}

pub ghost struct ClassifiedV {
    pub name: Seq<char>,
    pub code: Seq<char>,
    pub kind: Option<Seq<char>>,
    pub group: Option<Seq<char>>,
}

impl View for Classified {
    type V = ClassifiedV;

    open spec fn view(&self) -> ClassifiedV {
        ClassifiedV {
            name: self.name@,
            code: self.code@,
            kind: self.kind.deep_view(),
            group: self.group.deep_view(),
        }
    }
}

/// The numeric code facet, tried in order: the primary department pattern,
/// the secondary one, then the last digit run of the segment before the first
/// hyphen. The numeric patterns are tried before the two special families;
/// only a title without any of them can fall to those, or to the sentinel.
pub open spec fn code_digits(s: Seq<char>) -> Option<Seq<char>> {
    match find_in(s, 0) {
        Some(d) => Some(d),
        None => match find_um(s, 0) {
            Some(d) => Some(d),
            None => find_seg_code(s),
        },
    }
}

/// The name facet of a standard (numeric-code) course: the token after the
/// first hyphen, else the first acceptable token, else the fallback segment.
pub open spec fn std_name(s: Seq<char>, toks: Seq<Seq<char>>, d: Seq<char>) -> Seq<char> {
    match hyphen_name(s) {
        Some(n) => n,
        None => match name_scan(toks, 0, d) {
            Some(n) => n,
            None => hyphen_fallback(s),
        },
    }
}

/// The whole classification of one title, every facet resolved in rule
/// order.
pub open spec fn classify_spec(s: Seq<char>) -> ClassifiedV {
    let has_en = find_en_anglais(s, 0);
    let is_oip = ci_contains(s, "OIP"@);
    let is_ang = !has_en && ci_contains(s, "ANGLAIS"@);
    let tg = comb_scan(s, 0, None, None);
    let grp1 = if tg.1 is None {
        find_grp(s, 0)
    } else {
        tg.1
    };
    let ty1 = if tg.0 is None && ci_contains(s, "COURS"@) {
        Some(SessionType::Cs)
    } else {
        tg.0
    };
    let ty2 = if ty1 is None && find_er(s, 0) {
        Some(SessionType::Exam)
    } else {
        ty1
    };
    let ty3 = if ty2 is None && find_session(s, 0) {
        Some(SessionType::Exam)
    } else {
        ty2
    };
    let toks = tokens_spec(s, 0);
    let ty4 = if ty3 is None {
        token_suffix_scan(toks, 0)
    } else {
        ty3
    };
    let ty5 = if ty4 is None && ci_contains(s, "EXAM"@) {
        Some(SessionType::Exam)
    } else {
        ty4
    };
    let kind = match ty5 {
        Some(t) => Some(type_str(t)),
        None => None,
    };
    let d = code_digits(s);
    let base = if d is Some {
        (d->0, std_name(s, toks, d->0))
    } else if is_oip {
        ("OIP"@, "OIP"@)
    } else if is_ang {
        ("Anglais"@, ang_name(toks, 0))
    } else {
        ("special"@, s)
    };
    let apply_ov = has_en && (d is Some || is_oip);
    let grp2 = if apply_ov {
        Some("anglais"@)
    } else {
        grp1
    };
    let name2 = if apply_ov && ci_contains(base.1, "ANGLAIS"@) {
        first_word_or_self(base.1)
    } else {
        base.1
    };
    ClassifiedV { name: name2, code: base.0, kind, group: grp2 }
}

/// Decomposes one session title into its code, name, type and group facets,
/// in rule order with first-match-wins semantics per facet.
pub fn parse_summary(summary: &str) -> (r: Classified)
    ensures
        r@ == classify_spec(summary@),
{
    let cs = chars_of(summary);
    let has_en = find_en_anglais_exec(&cs, 0);
    let is_oip = ci_find(&cs, "OIP");
    let is_ang = !has_en && ci_find(&cs, "ANGLAIS");
    let (ty0, grp0) = comb_scan_exec(&cs, 0, None, None);
    let grp1 = match grp0 {
        None => find_grp_exec(&cs, 0),
        Some(g) => Some(g),
    };
    let ty1 = match ty0 {
        None => if ci_find(&cs, "COURS") {
            Some(SessionType::Cs)
        } else {
            None
        },
        Some(t) => Some(t),
    };
    let ty2 = match ty1 {
        None => if find_er_exec(&cs, 0) {
            Some(SessionType::Exam)
        } else {
            None
        },
        Some(t) => Some(t),
    };
    let ty3 = match ty2 {
        None => if find_session_exec(&cs, 0) {
            Some(SessionType::Exam)
        } else {
            None
        },
        Some(t) => Some(t),
    };
    let toks = tokens_exec(&cs);
    let ty4 = match ty3 {
        None => token_suffix_scan_exec(&toks, 0),
        Some(t) => Some(t),
    };
    let ty5 = match ty4 {
        None => if ci_find(&cs, "EXAM") {
            Some(SessionType::Exam)
        } else {
            None
        },
        Some(t) => Some(t),
    };
    let kind: Option<String> = match ty5 {
        Some(t) => Some(type_string(t)),
        None => None,
    };
    let d: Option<Vec<char>> = match find_in_exec(&cs, 0) {
        Some(v) => Some(v),
        None => match find_um_exec(&cs, 0) {
            Some(v) => Some(v),
            None => find_seg_code_exec(&cs),
        },
    };
    let mut code_chars: Vec<char>;
    let mut name_chars: Vec<char>;
    let mut d_some: bool = false;
    match &d {
        Some(dv) => {
            d_some = true;
            code_chars = copy_range(dv, 0, dv.len());
            proof {
                assert(code_chars@ =~= dv@);
            }
            name_chars = match hyphen_name_exec(&cs) {
                Some(n) => n,
                None => match name_scan_exec(&toks, 0, dv) {
                    Some(n) => n,
                    None => hyphen_fallback_exec(&cs),
                },
            };
        },
        None => {
            if is_oip {
                code_chars = chars_of("OIP");
                name_chars = chars_of("OIP");
            } else if is_ang {
                code_chars = chars_of("Anglais");
                name_chars = ang_name_exec(&toks, 0);
            } else {
                code_chars = chars_of("special");
                name_chars = copy_range(&cs, 0, cs.len());
                proof {
                    assert(name_chars@ =~= cs@);
                }
            }
        },
    }
    let apply_ov = has_en && (d_some || is_oip);
    proof {
        assert(apply_ov == (find_en_anglais(cs@, 0) && (code_digits(cs@) is Some || ci_contains(
            cs@,
            "OIP"@,
        ))));
    }
    let group: Option<String> = if apply_ov {
        Some(String::from_str("anglais"))
    } else {
        match grp1 {
            Some(g) => {
                let gs = string_from_chars(&g);
                proof {
                    assert(g.deep_view() =~= gs@);
                }
                Some(gs)
            },
            None => None,
        }
    };
    let name_final = if apply_ov && ci_find(&name_chars, "ANGLAIS") {
        first_word_or_self_exec(&name_chars)
    } else {
        name_chars
    };
    Classified {
        name: string_from_chars(&name_final),
        code: string_from_chars(&code_chars),
        kind,
        group,
    }
}

} // verus!
