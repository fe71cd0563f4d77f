//! Character-level text helpers shared by the classifier and the synthesizer.
//!
//! All reasoning is done over `Seq<char>` views; case-insensitive matching is
//! ASCII-only, which is what the feed's naming conventions use.
use vstd::prelude::*;

verus! {

/// ASCII decimal digit.
pub open spec fn is_digit_c(c: char) -> bool {
    '0' <= c && c <= '9'
}

/// ASCII letter.
pub open spec fn is_alpha_c(c: char) -> bool {
    ('a' <= c && c <= 'z') || ('A' <= c && c <= 'Z')
}

/// A "word" character for boundary detection: ASCII letter, digit or underscore.
pub open spec fn is_word_c(c: char) -> bool {
    is_alpha_c(c) || is_digit_c(c) || c == '_'
}

/// ASCII whitespace, as the feed values can carry it.
pub open spec fn is_space_c(c: char) -> bool {
    c == ' ' || c == '\t' || c == '\r' || c == '\n'
}

/// Case-insensitive equality of two characters, folding ASCII letters only.
pub open spec fn ci_eq_c(a: char, b: char) -> bool {
    ||| a == b
    ||| (is_alpha_c(a) && is_alpha_c(b) && (a as int % 32) == (b as int % 32))
}

pub fn is_digit(c: char) -> (r: bool)
    ensures
        r == is_digit_c(c),
{
    '0' <= c && c <= '9'
}

pub fn is_alpha(c: char) -> (r: bool)
    ensures
        r == is_alpha_c(c),
{
    ('a' <= c && c <= 'z') || ('A' <= c && c <= 'Z')
}

pub fn is_word(c: char) -> (r: bool)
    ensures
        r == is_word_c(c),
{
    is_alpha(c) || is_digit(c) || c == '_'
}

pub fn is_space(c: char) -> (r: bool)
    ensures
        r == is_space_c(c),
{
    c == ' ' || c == '\t' || c == '\r' || c == '\n'
}

pub fn ci_eq(a: char, b: char) -> (r: bool)
    ensures
        r == ci_eq_c(a, b),
{
    if a == b {
        true
    } else if is_alpha(a) && is_alpha(b) {
        (a as u32) % 32 == (b as u32) % 32
    } else {
        false
    }
}

/// The ASCII-uppercase form of a character.
pub open spec fn up_c(c: char) -> char {
    if 'a' <= c && c <= 'z' {
        ((c as int) - 32) as char
    } else {
        c
    }
}

pub fn up_char(c: char) -> (r: char)
    ensures
        r == up_c(c),
{
    if 'a' <= c && c <= 'z' {
        ((c as u8) - 32) as char
    } else {
        c
    }
}

/// The ASCII-uppercase form of a text.
pub open spec fn upper_seq(s: Seq<char>) -> Seq<char> {
    s.map_values(|c: char| up_c(c))
}

pub fn upper_chars(v: &Vec<char>) -> (r: Vec<char>)
    ensures
        r@ == upper_seq(v@),
{
    let n = v.len();
    let mut r: Vec<char> = Vec::new();
    let mut i: usize = 0;
    while i < n
        invariant
            n == v@.len(),
            i <= n,
            r@ == upper_seq(v@.subrange(0, i as int)),
        decreases n - i,
    {
        r.push(up_char(v[i]));
        i = i + 1;
        proof {
            assert(r@ =~= upper_seq(v@.subrange(0, i as int)));
        }
    }
    proof {
        assert(v@.subrange(0, n as int) =~= v@);
    }
    r
}

/// The characters of a string slice, in order.
pub fn chars_of(s: &str) -> (r: Vec<char>)
    ensures
        r@ == s@,
{
    let n = s.unicode_len();
    let mut r: Vec<char> = Vec::new();
    let mut i: usize = 0;
    while i < n
        invariant
            n == s@.len(),
            i <= n,
            r@ == s@.subrange(0, i as int),
        decreases n - i,
    {
        r.push(s.get_char(i));
        i = i + 1;
        proof {
            assert(r@ =~= s@.subrange(0, i as int));
        }
    }
    proof {
        assert(r@ =~= s@);
    }
    r
}

/// Relies on `core::iter::Iterator::collect` for `String`: collecting an
/// iterator of `char`s yields the string made of exactly those characters.
#[verifier::external_body]
pub fn string_from_chars(v: &Vec<char>) -> (r: String)
    ensures
        r@ == v@,
{
    v.iter().collect()
}

/// Appends every character of `s` to `out`.
pub fn push_chars(out: &mut Vec<char>, s: &str)
    ensures
        final(out)@ == old(out)@ + s@,
{
    let n = s.unicode_len();
    let mut i: usize = 0;
    while i < n
        invariant
            n == s@.len(),
            i <= n,
            out@ == old(out)@ + s@.subrange(0, i as int),
        decreases n - i,
    {
        out.push(s.get_char(i));
        i = i + 1;
        proof {
            assert(old(out)@ + s@.subrange(0, i as int) =~= (old(out)@ + s@.subrange(
                0,
                i as int - 1,
            )).push(s@[i - 1]));
        }
    }
    proof {
        assert(old(out)@ + s@.subrange(0, n as int) =~= old(out)@ + s@);
    }
}

/// Appends every character of `s` to `out`.
pub fn push_seq(out: &mut Vec<char>, s: &Vec<char>)
    ensures
        final(out)@ == old(out)@ + s@,
{
    let n = s.len();
    let mut i: usize = 0;
    while i < n
        invariant
            n == s@.len(),
            i <= n,
            out@ == old(out)@ + s@.subrange(0, i as int),
        decreases n - i,
    {
        out.push(s[i]);
        i = i + 1;
        proof {
            assert(old(out)@ + s@.subrange(0, i as int) =~= (old(out)@ + s@.subrange(
                0,
                i as int - 1,
            )).push(s@[i - 1]));
        }
    }
    proof {
        assert(old(out)@ + s@.subrange(0, n as int) =~= old(out)@ + s@);
    }
}

/// `needle` occurs at position `i` of `hay`, compared case-insensitively.
pub open spec fn ci_at(hay: Seq<char>, needle: Seq<char>, i: int) -> bool {
    &&& 0 <= i
    &&& i + needle.len() <= hay.len()
    &&& forall|j: int| 0 <= j < needle.len() ==> ci_eq_c(hay[i + j], #[trigger] needle[j])
}

/// `needle` occurs somewhere in `hay`, compared case-insensitively.
pub open spec fn ci_contains(hay: Seq<char>, needle: Seq<char>) -> bool {
    exists|i: int| ci_at(hay, needle, i)
}

/// Whether `needle` occurs at position `i` of `hay`, case-insensitively.
pub fn ci_match_at(hay: &Vec<char>, needle: &str, i: usize) -> (r: bool)
    requires
        i <= hay@.len(),
    ensures
        r == ci_at(hay@, needle@, i as int),
{
    let n = needle.unicode_len();
    let m = hay.len();
    if n > m - i {
        return false;
    }
    let mut j: usize = 0;
    while j < n
        invariant
            n == needle@.len(),
            m == hay@.len(),
            i + n <= m,
            j <= n,
            forall|k: int| 0 <= k < j ==> ci_eq_c(hay@[i + k], #[trigger] needle@[k]),
        decreases n - j,
    {
        if !ci_eq(hay[i + j], needle.get_char(j)) {
            return false;
        }
        j = j + 1;
    }
    true
}

/// Case-insensitive substring test.
pub fn ci_find(hay: &Vec<char>, needle: &str) -> (r: bool)
    ensures
        r == ci_contains(hay@, needle@),
{
    let m = hay.len();
    let mut i: usize = 0;
    while i < m
        invariant
            m == hay@.len(),
            i <= m,
            forall|k: int| 0 <= k < i ==> !ci_at(hay@, needle@, k),
        decreases m - i,
    {
        if ci_match_at(hay, needle, i) {
            return true;
        }
        i = i + 1;
    }
    if ci_match_at(hay, needle, m) {
        return true;
    }
    proof {
        assert(forall|k: int| ci_at(hay@, needle@, k) ==> 0 <= k <= m);
    }
    false
}

/// Case-insensitive equality of a character vector and a pattern string.
pub open spec fn ci_eq_seq(a: Seq<char>, b: Seq<char>) -> bool {
    a.len() == b.len() && ci_at(a, b, 0)
}

pub fn ci_eq_str(a: &Vec<char>, b: &str) -> (r: bool)
    ensures
        r == ci_eq_seq(a@, b@),
{
    if a.len() != b.unicode_len() {
        return false;
    }
    ci_match_at(a, b, 0)
}

/// Whether `needle` occurs at position `i` of `hay`, case-insensitively.
pub fn ci_match_at_vec(hay: &Vec<char>, needle: &Vec<char>, i: usize) -> (r: bool)
    requires
        i <= hay@.len(),
    ensures
        r == ci_at(hay@, needle@, i as int),
{
    let n = needle.len();
    let m = hay.len();
    if n > m - i {
        return false;
    }
    let mut j: usize = 0;
    while j < n
        invariant
            n == needle@.len(),
            m == hay@.len(),
            i + n <= m,
            j <= n,
            forall|k: int| 0 <= k < j ==> ci_eq_c(hay@[i + k], #[trigger] needle@[k]),
        decreases n - j,
    {
        if !ci_eq(hay[i + j], needle[j]) {
            return false;
        }
        j = j + 1;
    }
    true
}

/// Case-insensitive substring test with a computed needle.
pub fn ci_find_vec(hay: &Vec<char>, needle: &Vec<char>) -> (r: bool)
    ensures
        r == ci_contains(hay@, needle@),
{
    let m = hay.len();
    let mut i: usize = 0;
    while i < m
        invariant
            m == hay@.len(),
            i <= m,
            forall|k: int| 0 <= k < i ==> !ci_at(hay@, needle@, k),
        decreases m - i,
    {
        if ci_match_at_vec(hay, needle, i) {
            return true;
        }
        i = i + 1;
    }
    if ci_match_at_vec(hay, needle, m) {
        return true;
    }
    proof {
        assert(forall|k: int| ci_at(hay@, needle@, k) ==> 0 <= k <= m);
    }
    false
}

/// Exact equality of two string slices.
pub fn str_eq(a: &str, b: &str) -> (r: bool)
    ensures
        r == (a@ == b@),
{
    let ca = chars_of(a);
    let cb = chars_of(b);
    if ca.len() != cb.len() {
        proof {
            assert(a@ != b@);
        }
        return false;
    }
    let n = ca.len();
    let mut i: usize = 0;
    while i < n
        invariant
            n == ca@.len() == cb@.len(),
            ca@ == a@,
            cb@ == b@,
            i <= n,
            forall|k: int| 0 <= k < i ==> ca@[k] == cb@[k],
        decreases n - i,
    {
        if ca[i] != cb[i] {
            return false;
        }
        i = i + 1;
    }
    proof {
        assert(a@ =~= b@);
    }
    true
}

/// Lexicographic order on character sequences by code point, which coincides
/// with the byte order of their UTF-8 encodings.
pub open spec fn lex_le(a: Seq<char>, b: Seq<char>) -> bool
    decreases a.len(),
{
    if a.len() == 0 {
        true
    } else if b.len() == 0 {
        false
    } else if a[0] != b[0] {
        a[0] < b[0]
    } else {
        lex_le(a.drop_first(), b.drop_first())
    }
}

pub fn lex_le_exec(a: &Vec<char>, b: &Vec<char>) -> (r: bool)
    ensures
        r == lex_le(a@, b@),
{
    let mut i: usize = 0;
    proof {
        assert(a@.subrange(0, a@.len() as int) =~= a@);
        assert(b@.subrange(0, b@.len() as int) =~= b@);
    }
    loop
        invariant
            i <= a@.len(),
            i <= b@.len(),
            lex_le(a@, b@) == lex_le(
                a@.subrange(i as int, a@.len() as int),
                b@.subrange(i as int, b@.len() as int),
            ),
        decreases a@.len() - i,
    {
        let ghost sa = a@.subrange(i as int, a@.len() as int);
        let ghost sb = b@.subrange(i as int, b@.len() as int);
        if i >= a.len() {
            return true;
        }
        if i >= b.len() {
            return false;
        }
        proof {
            assert(sa[0] == a@[i as int]);
            assert(sb[0] == b@[i as int]);
        }
        if a[i] != b[i] {
            return a[i] < b[i];
        }
        i = i + 1;
        proof {
            assert(sa.drop_first() =~= a@.subrange(i as int, a@.len() as int));
            assert(sb.drop_first() =~= b@.subrange(i as int, b@.len() as int));
        }
    }
}

/// The numeric value of a sequence of ASCII digits, most significant first.
pub open spec fn digits_value(s: Seq<char>) -> int
    decreases s.len(),
{
    if s.len() == 0 {
        0
    } else {
        digits_value(s.drop_last()) * 10 + (s.last() as int - '0' as int)
    }
}

} // verus!
