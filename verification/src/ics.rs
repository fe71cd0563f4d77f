//! Synthesis of a minimal calendar interchange document from structured
//! events, either given directly or selected out of aggregated course bundles.
use vstd::prelude::*;
use vstd::string::StringSliceAdditionalSpecFns;

use crate::model::{BuildInput, BuildInputV, EvV, EventIn};
use crate::text::{
    chars_of, is_digit, is_digit_c, is_space, is_space_c, push_chars, string_from_chars,
};
use vstd::utf8::encode_utf8;

verus! {

/// How one character is escaped in calendar text values: backslash, comma,
/// semicolon and newline are protected by a backslash.
pub open spec fn esc_char(c: char) -> Seq<char> {
    if c == '\\' {
        seq!['\\', '\\']
    } else if c == ',' {
        seq!['\\', ',']
    } else if c == ';' {
        seq!['\\', ';']
    } else if c == '\n' {
        seq!['\\', 'n']
    } else {
        seq![c]
    }
}

/// The escaped form of a whole text value.
pub open spec fn esc_spec(s: Seq<char>) -> Seq<char>
    decreases s.len(),
{
    if s.len() == 0 {
        Seq::<char>::empty()
    } else {
        esc_char(s[0]) + esc_spec(s.drop_first())
    }
}

pub proof fn lemma_esc_push(s: Seq<char>, c: char)
    ensures
        esc_spec(s.push(c)) == esc_spec(s) + esc_char(c),
    decreases s.len(),
{
    if s.len() == 0 {
        assert(s.push(c).len() == 1);
        assert(s.push(c)[0] == c);
        assert(s.push(c).drop_first() =~= Seq::<char>::empty());
        assert(esc_spec(s.push(c)) =~= esc_char(c) + esc_spec(s.push(c).drop_first()));
        assert(esc_char(c) + Seq::<char>::empty() =~= esc_char(c));
        assert(esc_spec(s.push(c)) =~= esc_char(c));
        assert(esc_spec(s) + esc_char(c) =~= esc_char(c));
    } else {
        assert(s.push(c).drop_first() =~= s.drop_first().push(c));
        lemma_esc_push(s.drop_first(), c);
        assert(esc_spec(s.push(c)) =~= esc_char(s[0]) + (esc_spec(s.drop_first()) + esc_char(c)));
        assert(esc_char(s[0]) + (esc_spec(s.drop_first()) + esc_char(c)) =~= (esc_char(s[0])
            + esc_spec(s.drop_first())) + esc_char(c));
    }
}

/// Escapes the calendar format's reserved characters in a text value.
pub fn esc(s: &str) -> (r: String)
    ensures
        r@ == esc_spec(s@),
{
    let cs = chars_of(s);
    let n = cs.len();
    let mut out: Vec<char> = Vec::new();
    let mut i: usize = 0;
    proof {
        assert(cs@.subrange(0, 0) =~= Seq::<char>::empty());
    }
    while i < n
        invariant
            n == cs@.len(),
            cs@ == s@,
            i <= n,
            out@ == esc_spec(cs@.subrange(0, i as int)),
        decreases n - i,
    {
        let c = cs[i];
        if c == '\\' {
            out.push('\\');
            out.push('\\');
        } else if c == ',' {
            out.push('\\');
            out.push(',');
        } else if c == ';' {
            out.push('\\');
            out.push(';');
        } else if c == '\n' {
            out.push('\\');
            out.push('n');
        } else {
            out.push(c);
        }
        proof {
            lemma_esc_push(cs@.subrange(0, i as int), cs@[i as int]);
            assert(cs@.subrange(0, i as int).push(cs@[i as int]) =~= cs@.subrange(0, i + 1));
            assert(out@ =~= esc_spec(cs@.subrange(0, i as int)) + esc_char(cs@[i as int]));
        }
        i = i + 1;
    }
    proof {
        assert(cs@.subrange(0, n as int) =~= s@);
    }
    string_from_chars(&out)
}

/// How a conforming reader undoes one escape pair.
pub open spec fn unesc_char(c: char) -> Seq<char> {
    if c == 'n' || c == 'N' {
        seq!['\n']
    } else {
        seq![c]
    }
}

/// What a conforming reader makes of an escaped text value: a backslash
/// followed by any character decodes as that character (with `n` meaning a
/// newline); every other character stands for itself.
pub open spec fn unesc_spec(s: Seq<char>) -> Seq<char>
    decreases s.len(),
{
    if s.len() == 0 {
        Seq::<char>::empty()
    } else if s[0] == '\\' && s.len() >= 2 {
        unesc_char(s[1]) + unesc_spec(s.subrange(2, s.len() as int))
    } else {
        seq![s[0]] + unesc_spec(s.drop_first())
    }
}

/// Escaping then reading back yields the original text, for every text value.
pub proof fn lemma_esc_roundtrip(s: Seq<char>)
    ensures
        unesc_spec(esc_spec(s)) == s,
    decreases s.len(),
{
    if s.len() == 0 {
        assert(unesc_spec(esc_spec(s)) =~= s);
    } else {
        let c = s[0];
        let rest = s.drop_first();
        lemma_esc_roundtrip(rest);
        let e = esc_spec(s);
        assert(e =~= esc_char(c) + esc_spec(rest));
        if c == '\\' || c == ',' || c == ';' || c == '\n' {
            assert(e.len() >= 2 && e[0] == '\\');
            assert(e.subrange(2, e.len() as int) =~= esc_spec(rest));
            assert(unesc_char(e[1]) =~= seq![c]);
            assert(unesc_spec(e) =~= seq![c] + rest);
        } else {
            assert(e[0] == c && c != '\\');
            assert(e.drop_first() =~= esc_spec(rest));
            assert(unesc_spec(e) =~= seq![c] + rest);
        }
        assert(seq![c] + rest =~= s);
    }
}

/// Undoes the calendar format's text escaping, as a conforming reader would.
pub fn unesc(s: &str) -> (r: String)
    ensures
        r@ == unesc_spec(s@),
{
    let cs = chars_of(s);
    let n = cs.len();
    let mut out: Vec<char> = Vec::new();
    let mut i: usize = 0;
    proof {
        assert(cs@.subrange(0, n as int) =~= cs@);
        assert(out@ + unesc_spec(cs@) =~= unesc_spec(cs@));
    }
    while i < n
        invariant
            n == cs@.len(),
            cs@ == s@,
            i <= n,
            unesc_spec(cs@) == out@ + unesc_spec(cs@.subrange(i as int, n as int)),
        decreases n - i,
    {
        let ghost tail = cs@.subrange(i as int, n as int);
        if cs[i] == '\\' && i + 1 < n {
            let d = cs[i + 1];
            if d == 'n' || d == 'N' {
                out.push('\n');
            } else {
                out.push(d);
            }
            proof {
                assert(tail[0] == '\\' && tail.len() >= 2);
                assert(tail.subrange(2, tail.len() as int) =~= cs@.subrange(i + 2, n as int));
                assert(out@ + unesc_spec(cs@.subrange(i + 2, n as int)) =~= (out@.drop_last()
                    + unesc_char(tail[1])) + unesc_spec(tail.subrange(2, tail.len() as int)));
            }
            i = i + 2;
        } else {
            out.push(cs[i]);
            proof {
                if tail[0] == '\\' {
                    assert(tail.len() < 2);
                }
                assert(tail.drop_first() =~= cs@.subrange(i + 1, n as int));
                assert(out@ + unesc_spec(cs@.subrange(i + 1, n as int)) =~= (out@.drop_last()
                    + seq![tail[0]]) + unesc_spec(tail.drop_first()));
            }
            i = i + 1;
        }
    }
    proof {
        assert(cs@.subrange(n as int, n as int) =~= Seq::<char>::empty());
        assert(out@ + unesc_spec(cs@.subrange(n as int, n as int)) =~= out@);
    }
    string_from_chars(&out)
}

/// The ASCII digits of a value, in order.
pub open spec fn digits_of(s: Seq<char>) -> Seq<char>
    decreases s.len(),
{
    if s.len() == 0 {
        Seq::<char>::empty()
    } else if is_digit_c(s.last()) {
        digits_of(s.drop_last()).push(s.last())
    } else {
        digits_of(s.drop_last())
    }
}

/// Digits padded with trailing zeros to the fourteen places of a basic-format
/// date-time.
pub open spec fn pad14(d: Seq<char>) -> Seq<char>
    decreases 14 - d.len(),
{
    if d.len() >= 14 {
        d
    } else {
        pad14(d.push('0'))
    }
}

/// The normalized date-time field: the first eight padded digits, a `T`, the
/// next six, and a `Z`.
pub open spec fn ics_dt_spec(s: Seq<char>) -> Seq<char> {
    let p = pad14(digits_of(s));
    p.subrange(0, 8) + seq!['T'] + p.subrange(8, 14) + seq!['Z']
}

/// Normalizes a timestamp text to the calendar format's basic UTC date-time
/// shape: the digits are kept, padded with zeros to fourteen places, and
/// rendered as `YYYYMMDDTHHMMSSZ`.
pub fn to_ics_dt(iso: &str) -> (r: String)
    ensures
        r@ == ics_dt_spec(iso@),
{
    let cs = chars_of(iso);
    let n = cs.len();
    let mut digits: Vec<char> = Vec::new();
    let mut i: usize = 0;
    proof {
        assert(cs@.subrange(0, 0) =~= Seq::<char>::empty());
    }
    while i < n
        invariant
            n == cs@.len(),
            cs@ == iso@,
            i <= n,
            digits@ == digits_of(cs@.subrange(0, i as int)),
        decreases n - i,
    {
        if is_digit(cs[i]) {
            digits.push(cs[i]);
        }
        proof {
            assert(cs@.subrange(0, i + 1).drop_last() =~= cs@.subrange(0, i as int));
            assert(cs@.subrange(0, i + 1).last() == cs@[i as int]);
        }
        i = i + 1;
    }
    proof {
        assert(cs@.subrange(0, n as int) =~= cs@);
    }
    while digits.len() < 14
        invariant
            pad14(digits@) == pad14(digits_of(cs@)),
        decreases 14 - digits.len(),
    {
        digits.push('0');
    }
    let mut out: Vec<char> = Vec::new();
    let mut i: usize = 0;
    while i < 8
        invariant
            digits@.len() >= 14,
            i <= 8,
            out@ == digits@.subrange(0, i as int),
        decreases 8 - i,
    {
        out.push(digits[i]);
        i = i + 1;
        proof {
            assert(out@ =~= digits@.subrange(0, i as int));
        }
    }
    out.push('T');
    let mut i: usize = 8;
    while i < 14
        invariant
            digits@.len() >= 14,
            8 <= i <= 14,
            out@ == digits@.subrange(0, 8) + seq!['T'] + digits@.subrange(8, i as int),
        decreases 14 - i,
    {
        out.push(digits[i]);
        i = i + 1;
        proof {
            assert(out@ =~= digits@.subrange(0, 8) + seq!['T'] + digits@.subrange(8, i as int));
        }
    }
    out.push('Z');
    proof {
        assert(digits@ == pad14(digits_of(cs@)));
        assert(out@ =~= ics_dt_spec(iso@));
    }
    string_from_chars(&out)
}

/// The 64-bit FNV-1a offset basis.
pub open spec fn fnv_offset() -> u64 {
    0xcbf29ce484222325u64
}

/// One FNV-1a step: fold a byte in and multiply, wrapping, by the prime.
pub open spec fn fnv_step(acc: u64, b: u8) -> u64 {
    (acc ^ (b as u64)).wrapping_mul(0x100000001b3u64)
}

/// FNV-1a folded over a byte sequence, starting from `acc`.
pub open spec fn fnv_acc(acc: u64, bytes: Seq<u8>) -> u64
    decreases bytes.len(),
{
    if bytes.len() == 0 {
        acc
    } else {
        fnv_step(fnv_acc(acc, bytes.drop_last()), bytes.last())
    }
}

/// Folds a byte vector into a running FNV-1a hash.
fn fnv_fold(acc: u64, bytes: &[u8]) -> (r: u64)
    ensures
        r == fnv_acc(acc, bytes@),
{
    let n = bytes.len();
    let mut h = acc;
    let mut i: usize = 0;
    proof {
        assert(bytes@.subrange(0, 0) =~= Seq::<u8>::empty());
    }
    while i < n
        invariant
            n == bytes@.len(),
            i <= n,
            h == fnv_acc(acc, bytes@.subrange(0, i as int)),
        decreases n - i,
    {
        h = (h ^ (bytes[i] as u64)).wrapping_mul(0x100000001b3u64);
        proof {
            assert(bytes@.subrange(0, i + 1).drop_last() =~= bytes@.subrange(0, i as int));
        }
        i = i + 1;
    }
    proof {
        assert(bytes@.subrange(0, n as int) =~= bytes@);
    }
    h
}

/// The lowercase hex digit for a value below sixteen.
pub open spec fn hex_digit(n: int) -> char {
    if n == 0 {
        '0'
    } else if n == 1 {
        '1'
    } else if n == 2 {
        '2'
    } else if n == 3 {
        '3'
    } else if n == 4 {
        '4'
    } else if n == 5 {
        '5'
    } else if n == 6 {
        '6'
    } else if n == 7 {
        '7'
    } else if n == 8 {
        '8'
    } else if n == 9 {
        '9'
    } else if n == 10 {
        'a'
    } else if n == 11 {
        'b'
    } else if n == 12 {
        'c'
    } else if n == 13 {
        'd'
    } else if n == 14 {
        'e'
    } else if n == 15 {
        'f'
    } else {
        '0'
    }
}

/// The last `k` hex digits of `h`, most significant first.
pub open spec fn hex_of(h: int, k: nat) -> Seq<char>
    decreases k,
{
    if k == 0 {
        Seq::<char>::empty()
    } else {
        hex_of(h / 16, (k - 1) as nat).push(hex_digit(h % 16))
    }
}

fn hex_digit_exec(n: u64) -> (r: char)
    requires
        n < 16,
    ensures
        r == hex_digit(n as int),
{
    if n == 0 {
        '0'
    } else if n == 1 {
        '1'
    } else if n == 2 {
        '2'
    } else if n == 3 {
        '3'
    } else if n == 4 {
        '4'
    } else if n == 5 {
        '5'
    } else if n == 6 {
        '6'
    } else if n == 7 {
        '7'
    } else if n == 8 {
        '8'
    } else if n == 9 {
        '9'
    } else if n == 10 {
        'a'
    } else if n == 11 {
        'b'
    } else if n == 12 {
        'c'
    } else if n == 13 {
        'd'
    } else if n == 14 {
        'e'
    } else {
        'f'
    }
}

/// Appends the sixteen-digit lowercase hex form of `h`.
fn push_hex16(out: &mut Vec<char>, h: u64, k: usize)
    requires
        k <= 16,
    ensures
        final(out)@ == old(out)@ + hex_of(h as int, k as nat),
    decreases k,
{
    if k == 0 {
        proof {
            assert(old(out)@ + hex_of(h as int, 0) =~= old(out)@);
        }
    } else {
        push_hex16(out, h / 16, k - 1);
        out.push(hex_digit_exec(h % 16));
        proof {
            assert(old(out)@ + hex_of(h as int, k as nat) =~= (old(out)@ + hex_of(
                h as int / 16,
                (k - 1) as nat,
            )).push(hex_digit(h as int % 16)));
        }
    }
}

/// The stable identifier derived from an event's start, end and summary: the
/// FNV-1a hash of their bytes in that order, in sixteen hex digits, with a
/// fixed suffix.
pub open spec fn uid_spec(start: Seq<u8>, end: Seq<u8>, summary: Seq<u8>) -> Seq<char> {
    hex_of(fnv_acc(fnv_acc(fnv_acc(fnv_offset(), start), end), summary) as int, 16) + "@ics"@
}

/// Derives a stable identifier for an event from its start, end and summary,
/// so that repeated builds from the same input yield the same identifier.
pub fn make_uid(start: &str, end: &str, summary: &str) -> (r: String)
    ensures
        r@ == uid_spec(start.spec_bytes(), end.spec_bytes(), summary.spec_bytes()),
{
    let mut h: u64 = 0xcbf29ce484222325u64;
    h = fnv_fold(h, start.as_bytes());
    h = fnv_fold(h, end.as_bytes());
    h = fnv_fold(h, summary.as_bytes());
    let mut out: Vec<char> = Vec::new();
    push_hex16(&mut out, h, 16);
    push_chars(&mut out, "@ics");
    string_from_chars(&out)
}

/// The value with its leading whitespace removed.
pub open spec fn trim_front(s: Seq<char>) -> Seq<char>
    decreases s.len(),
{
    if s.len() > 0 && is_space_c(s[0]) {
        trim_front(s.drop_first())
    } else {
        s
    }
}

/// The value with its trailing whitespace removed.
pub open spec fn trim_back(s: Seq<char>) -> Seq<char>
    decreases s.len(),
{
    if s.len() > 0 && is_space_c(s.last()) {
        trim_back(s.drop_last())
    } else {
        s
    }
}

/// The value with whitespace removed from both ends.
pub open spec fn trim_spec(s: Seq<char>) -> Seq<char> {
    trim_back(trim_front(s))
}

/// Removes whitespace from both ends of a value.
pub fn trim_str(s: &str) -> (r: String)
    ensures
        r@ == trim_spec(s@),
{
    let cs = chars_of(s);
    let n = cs.len();
    let mut a: usize = 0;
    proof {
        assert(cs@.subrange(0, n as int) =~= cs@);
    }
    while a < n && is_space(cs[a])
        invariant
            n == cs@.len(),
            cs@ == s@,
            a <= n,
            trim_front(cs@) == trim_front(cs@.subrange(a as int, n as int)),
        decreases n - a,
    {
        proof {
            assert(cs@.subrange(a as int, n as int).drop_first() =~= cs@.subrange(
                a + 1,
                n as int,
            ));
        }
        a = a + 1;
    }
    proof {
        assert(trim_front(cs@) == cs@.subrange(a as int, n as int));
    }
    let mut b: usize = n;
    while b > a && is_space(cs[b - 1])
        invariant
            n == cs@.len(),
            cs@ == s@,
            a <= b <= n,
            trim_front(cs@) == cs@.subrange(a as int, n as int),
            trim_back(cs@.subrange(a as int, n as int)) == trim_back(
                cs@.subrange(a as int, b as int),
            ),
        decreases b,
    {
        proof {
            assert(cs@.subrange(a as int, b as int).drop_last() =~= cs@.subrange(
                a as int,
                b - 1,
            ));
        }
        b = b - 1;
    }
    proof {
        assert(trim_spec(cs@) == cs@.subrange(a as int, b as int));
    }
    let mut out: Vec<char> = Vec::new();
    let mut i: usize = a;
    while i < b
        invariant
            n == cs@.len(),
            a <= i <= b <= n,
            out@ == cs@.subrange(a as int, i as int),
        decreases b - i,
    {
        out.push(cs[i]);
        i = i + 1;
        proof {
            assert(out@ =~= cs@.subrange(a as int, i as int));
        }
    }
    string_from_chars(&out)
}

/// The given metadata value, or its default.
pub open spec fn opt_or(o: Option<Seq<char>>, d: Seq<char>) -> Seq<char> {
    match o {
        Some(x) => x,
        None => d,
    }
}

/// The identifier an event is rendered under: the supplied one, or the stable
/// derived one.
pub open spec fn uid_view(ev: EvV) -> Seq<char> {
    match ev.uid {
        Some(u) => u,
        None => uid_spec(encode_utf8(ev.start), encode_utf8(ev.end), encode_utf8(ev.summary)),
    }
}

/// One exclusion line per excluded occurrence, in order.
pub open spec fn render_exdates(xs: Seq<Seq<char>>) -> Seq<char>
    decreases xs.len(),
{
    if xs.len() == 0 {
        Seq::<char>::empty()
    } else {
        render_exdates(xs.drop_last()) + "EXDATE:"@ + ics_dt_spec(xs.last()) + "\r\n"@
    }
}

/// The recurrence part of an event: an override marker is exclusive with the
/// rule and exclusions; a base occurrence carries the rule (if any) and the
/// exclusion list.
pub open spec fn render_recur(ev: EvV) -> Seq<char> {
    match ev.recurrence_id {
        Some(rid) => "RECURRENCE-ID:"@ + ics_dt_spec(rid) + "\r\n"@,
        None => (match ev.rrule {
            Some(rr) => "RRULE:"@ + trim_spec(rr) + "\r\n"@,
            None => Seq::<char>::empty(),
        }) + render_exdates(ev.exdates),
    }
}

/// The optional location line.
pub open spec fn render_location(ev: EvV) -> Seq<char> {
    match ev.location {
        Some(l) => "LOCATION:"@ + esc_spec(l) + "\r\n"@,
        None => Seq::<char>::empty(),
    }
}

/// One event block.
pub open spec fn render_event(ev: EvV) -> Seq<char> {
    "BEGIN:VEVENT\r\n"@ + "DTSTAMP:"@ + ics_dt_spec(ev.start) + "\r\n"@ + "UID:"@ + esc_spec(
        uid_view(ev),
    ) + "\r\n"@ + "DTSTART:"@ + ics_dt_spec(ev.start) + "\r\n"@ + "DTEND:"@ + ics_dt_spec(ev.end)
        + "\r\n"@ + render_recur(ev) + "SUMMARY:"@ + esc_spec(ev.summary) + "\r\n"@
        + render_location(ev) + "END:VEVENT\r\n"@
}

/// All event blocks, in order.
pub open spec fn render_events(evs: Seq<EvV>) -> Seq<char>
    decreases evs.len(),
{
    if evs.len() == 0 {
        Seq::<char>::empty()
    } else {
        render_events(evs.drop_last()) + render_event(evs.last())
    }
}

/// The calendar's metadata header.
pub open spec fn calendar_header(name: Seq<char>, tz: Seq<char>) -> Seq<char> {
    "BEGIN:VCALENDAR\r\n"@ + "VERSION:2.0\r\n"@
        + "PRODID:-//UFR Info//Schedule Builder 0.1//EN\r\n"@ + "CALSCALE:GREGORIAN\r\n"@
        + "X-WR-CALNAME:"@ + esc_spec(name) + "\r\n"@ + "X-WR-TIMEZONE:"@ + tz + "\r\n"@
}

/// The whole calendar document for a direct build.
pub open spec fn calendar_spec(input: BuildInputV) -> Seq<char> {
    calendar_header(opt_or(input.calendar_name, "My Calendar"@), opt_or(input.timezone, "Europe/Paris"@))
        + render_events(input.events) + "END:VCALENDAR\r\n"@
}

/// Appends one event block.
#[verifier::spinoff_prover]
#[verifier::rlimit(100)]
fn push_event(out: &mut Vec<char>, ev: &EventIn)
    ensures
        final(out)@ == old(out)@ + render_event((*ev)@),
{
    let ghost before = out@;
    push_chars(out, "BEGIN:VEVENT\r\n");
    push_chars(out, "DTSTAMP:");
    let dt_stamp = to_ics_dt(ev.start.as_str());
    push_chars(out, dt_stamp.as_str());
    push_chars(out, "\r\n");
    push_chars(out, "UID:");
    let uid = match &ev.uid {
        Some(u) => u.clone(),
        None => make_uid(ev.start.as_str(), ev.end.as_str(), ev.summary.as_str()),
    };
    proof {
        assert(uid@ == uid_view((*ev)@));
    }
    let uid_esc = esc(uid.as_str());
    push_chars(out, uid_esc.as_str());
    push_chars(out, "\r\n");
    push_chars(out, "DTSTART:");
    let dt_start = to_ics_dt(ev.start.as_str());
    push_chars(out, dt_start.as_str());
    push_chars(out, "\r\n");
    push_chars(out, "DTEND:");
    let dt_end = to_ics_dt(ev.end.as_str());
    push_chars(out, dt_end.as_str());
    push_chars(out, "\r\n");
    let ghost mid = out@;
    push_recur(out, ev);
    proof {
        assert(out@ == mid + render_recur((*ev)@));
    }
    push_chars(out, "SUMMARY:");
    let sum_esc = esc(ev.summary.as_str());
    push_chars(out, sum_esc.as_str());
    push_chars(out, "\r\n");
    match &ev.location {
        Some(l) => {
            push_chars(out, "LOCATION:");
            let loc_esc = esc(l.as_str());
            push_chars(out, loc_esc.as_str());
            push_chars(out, "\r\n");
        },
        None => {},
    }
    push_chars(out, "END:VEVENT\r\n");
    proof {
        assert(out@ =~= before + render_event((*ev)@));
    }
}

/// Appends the recurrence part of one event block.
fn push_recur(out: &mut Vec<char>, ev: &EventIn)
    ensures
        final(out)@ == old(out)@ + render_recur((*ev)@),
{
    match &ev.recurrence_id {
        Some(rid) => {
            push_chars(out, "RECURRENCE-ID:");
            let dt_rid = to_ics_dt(rid.as_str());
            push_chars(out, dt_rid.as_str());
            push_chars(out, "\r\n");
            proof {
                assert(out@ =~= old(out)@ + render_recur((*ev)@));
            }
        },
        None => {
            match &ev.rrule {
                Some(rr) => {
                    push_chars(out, "RRULE:");
                    let t = trim_str(rr.as_str());
                    push_chars(out, t.as_str());
                    push_chars(out, "\r\n");
                },
                None => {},
            }
            let ghost exbase = out@;
            let m = ev.exdates.len();
            let mut j: usize = 0;
            proof {
                assert(exbase + render_exdates((*ev)@.exdates.subrange(0, 0)) =~= exbase);
            }
            while j < m
                invariant
                    m == ev.exdates@.len(),
                    (*ev)@.exdates.len() == m,
                    j <= m,
                    out@ == exbase + render_exdates((*ev)@.exdates.subrange(0, j as int)),
                decreases m - j,
            {
                push_chars(out, "EXDATE:");
                let dt_ex = to_ics_dt(ev.exdates[j].as_str());
                push_chars(out, dt_ex.as_str());
                push_chars(out, "\r\n");
                proof {
                    assert((*ev)@.exdates.subrange(0, j + 1).drop_last() =~= (*ev)@.exdates.subrange(
                        0,
                        j as int,
                    ));
                    assert((*ev)@.exdates.subrange(0, j + 1).last() == (*ev)@.exdates[j as int]);
                    assert(out@ =~= exbase + render_exdates((*ev)@.exdates.subrange(0, j + 1)));
                }
                j = j + 1;
            }
            proof {
                assert((*ev)@.exdates.subrange(0, m as int) =~= (*ev)@.exdates);
                assert(out@ =~= old(out)@ + render_recur((*ev)@));
            }
        },
    }
}

/// Renders calendar metadata and an explicit session list into one calendar
/// document: one block per session, with a generation stamp, identifier,
/// start, end, either a recurrence rule plus exclusions or an override
/// marker, the summary, and the optional location, all reserved characters
/// escaped.
pub fn build_calendar(data: &BuildInput) -> (r: String)
    ensures
        r@ == calendar_spec((*data)@),
{
    let ghost name_v = opt_or((*data)@.calendar_name, "My Calendar"@);
    let ghost tz_v = opt_or((*data)@.timezone, "Europe/Paris"@);
    let mut out: Vec<char> = Vec::new();
    push_chars(&mut out, "BEGIN:VCALENDAR\r\n");
    push_chars(&mut out, "VERSION:2.0\r\n");
    push_chars(&mut out, "PRODID:-//UFR Info//Schedule Builder 0.1//EN\r\n");
    push_chars(&mut out, "CALSCALE:GREGORIAN\r\n");
    push_chars(&mut out, "X-WR-CALNAME:");
    match &data.calendar_name {
        Some(nm) => {
            let e = esc(nm.as_str());
            push_chars(&mut out, e.as_str());
        },
        None => {
            let e = esc("My Calendar");
            push_chars(&mut out, e.as_str());
        },
    }
    push_chars(&mut out, "\r\n");
    push_chars(&mut out, "X-WR-TIMEZONE:");
    match &data.timezone {
        Some(t) => push_chars(&mut out, t.as_str()),
        None => push_chars(&mut out, "Europe/Paris"),
    }
    push_chars(&mut out, "\r\n");
    proof {
        assert(out@ =~= calendar_header(name_v, tz_v));
    }
    let ghost hdr = out@;
    let n = data.events.len();
    let mut i: usize = 0;
    proof {
        assert(hdr + render_events((*data)@.events.subrange(0, 0)) =~= hdr);
    }
    while i < n
        invariant
            n == data.events@.len(),
            (*data)@.events.len() == n,
            i <= n,
            hdr == calendar_header(name_v, tz_v),
            out@ == hdr + render_events((*data)@.events.subrange(0, i as int)),
        decreases n - i,
    {
        let ghost evs = (*data)@.events;
        let ghost before = out@;
        let ev = &data.events[i];
        proof {
            assert(evs[i as int] == (*ev)@);
        }
        push_event(&mut out, ev);
        proof {
            assert(evs.subrange(0, i + 1).drop_last() =~= evs.subrange(0, i as int));
            assert(evs.subrange(0, i + 1).last() == evs[i as int]);
            assert(out@ =~= hdr + render_events(evs.subrange(0, i + 1)));
        }
        i = i + 1;
    }
    push_chars(&mut out, "END:VCALENDAR\r\n");
    proof {
        assert((*data)@.events.subrange(0, n as int) =~= (*data)@.events);
        assert(out@ =~= calendar_spec((*data)@));
    }
    string_from_chars(&out)
}

} // verus!
