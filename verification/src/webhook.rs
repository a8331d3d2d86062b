//! Webhook signature verification.
//!
//! A confish webhook carries a header of the form `ts=<digits>;sig=<hex>`,
//! where the signature is the HMAC-SHA256, keyed by the webhook secret, of
//! `"<ts>:"` followed by the raw request body. Always check the raw,
//! unparsed body: re-serialized JSON has other bytes.

use vstd::prelude::*;

use hmac::{Hmac, Mac};
use sha2::Sha256;
use vstd::utf8::encode_utf8;

use crate::text::{all_digits, chars_of, decimal, decimal_string, digits_value, is_digit, opt_str};
use crate::time::{nanos_per_sec, Duration};

verus! {

/// `c` is a Unicode `White_Space` character, the characters `str::trim` removes.
pub open spec fn is_whitespace(c: char) -> bool {
    ||| ('\u{9}' <= c <= '\u{d}')
    ||| c == ' '
    ||| c == '\u{85}'
    ||| c == '\u{a0}'
    ||| c == '\u{1680}'
    ||| ('\u{2000}' <= c <= '\u{200a}')
    ||| c == '\u{2028}'
    ||| c == '\u{2029}'
    ||| c == '\u{202f}'
    ||| c == '\u{205f}'
    ||| c == '\u{3000}'
}

/// `s` without its leading whitespace.
pub open spec fn trim_start(s: Seq<char>) -> Seq<char>
    decreases s.len(),
{
    if s.len() > 0 && is_whitespace(s[0]) {
        trim_start(s.drop_first())
    } else {
        s
    }
}

/// `s` without its trailing whitespace.
pub open spec fn trim_end(s: Seq<char>) -> Seq<char>
    decreases s.len(),
{
    if s.len() > 0 && is_whitespace(s.last()) {
        trim_end(s.drop_last())
    } else {
        s
    }
}

/// `s` without leading and trailing whitespace, as `str::trim` gives it.
pub open spec fn trim(s: Seq<char>) -> Seq<char> {
    trim_end(trim_start(s))
}

/// Trims leading and trailing whitespace, as `str::trim` does.
pub fn trim_whitespace(s: &Vec<char>) -> (t: Vec<char>)
    ensures
        t@ == trim(s@),
{
    let mut start: usize = 0;
    assert(s@.subrange(0, s.len() as int) == s@);
    while start < s.len() && is_whitespace_char(s[start])
        invariant
            start <= s.len(),
            trim_start(s@) == trim_start(s@.subrange(start as int, s.len() as int)),
        decreases s.len() - start,
    {
        proof {
            let rest = s@.subrange(start as int, s.len() as int);
            assert(rest.drop_first() == s@.subrange(start + 1, s.len() as int));
        }
        start = start + 1;
    }
    let ghost front = s@.subrange(start as int, s.len() as int);
    assert(trim_start(front) == front);
    let mut end: usize = s.len();
    while end > start && is_whitespace_char(s[end - 1])
        invariant
            start <= end <= s.len(),
            front == s@.subrange(start as int, s.len() as int),
            trim_end(front) == trim_end(s@.subrange(start as int, end as int)),
        decreases end - start,
    {
        proof {
            let rest = s@.subrange(start as int, end as int);
            assert(rest.drop_last() == s@.subrange(start as int, end - 1));
        }
        end = end - 1;
    }
    let ghost kept = s@.subrange(start as int, end as int);
    assert(trim_end(kept) == kept);
    let mut t: Vec<char> = Vec::new();
    let mut i = start;
    while i < end
        invariant
            start <= i <= end <= s.len(),
            t@ == s@.subrange(start as int, i as int),
        decreases end - i,
    {
        t.push(s[i]);
        i = i + 1;
        proof {
            assert(t@ == s@.subrange(start as int, i as int));
        }
    }
    t
}

/// Whether `c` is whitespace in the sense of `str::trim`.
pub fn is_whitespace_char(c: char) -> (b: bool)
    ensures
        b == is_whitespace(c),
{
    ('\u{9}' <= c && c <= '\u{d}') || c == ' ' || c == '\u{85}' || c == '\u{a0}' || c == '\u{1680}'
        || ('\u{2000}' <= c && c <= '\u{200a}') || c == '\u{2028}' || c == '\u{2029}'
        || c == '\u{202f}' || c == '\u{205f}' || c == '\u{3000}'
}


/// The pieces of `s` between occurrences of `sep`, as `str::split` yields
/// them (an empty `s` gives one empty piece).
pub open spec fn split(s: Seq<char>, sep: char) -> Seq<Seq<char>>
    decreases s.len(),
{
    if s.len() == 0 {
        seq![Seq::empty()]
    } else {
        let prev = split(s.drop_last(), sep);
        if s.last() == sep {
            prev.push(Seq::empty())
        } else {
            prev.update(prev.len() - 1, prev.last().push(s.last()))
        }
    }
}

/// `c` is an ASCII hexadecimal digit (either case).
pub open spec fn is_hex_digit(c: char) -> bool {
    ('0' <= c <= '9') || ('a' <= c <= 'f') || ('A' <= c <= 'F')
}

/// Every character of `s` is an ASCII hexadecimal digit.
pub open spec fn all_hex(s: Seq<char>) -> bool {
    forall|i: int| 0 <= i < s.len() ==> #[trigger] is_hex_digit(s[i])
}

/// `s` begins with `prefix`.
pub open spec fn starts_with(s: Seq<char>, prefix: Seq<char>) -> bool {
    s.len() >= prefix.len() && s.take(prefix.len() as int) == prefix
}

/// The field prefix of the timestamp: `ts=`.
pub open spec fn ts_prefix() -> Seq<char> {
    seq!['t', 's', '=']
}

/// The field prefix of the signature: `sig=`.
pub open spec fn sig_prefix() -> Seq<char> {
    seq!['s', 'i', 'g', '=']
}

/// The timestamp and signature seen so far, after reading one more field
/// `part` of the header; `None` when the field is not well formed.
pub open spec fn read_field(
    part: Seq<char>,
    ts: Option<Seq<char>>,
    sig: Option<Seq<char>>,
) -> Option<(Option<Seq<char>>, Option<Seq<char>>)> {
    if starts_with(part, ts_prefix()) {
        let value = part.skip(3);
        if value.len() > 0 && all_digits(value) {
            Some((Some(value), sig))
        } else {
            None
        }
    } else if starts_with(part, sig_prefix()) {
        let value = part.skip(4);
        if value.len() > 0 && all_hex(value) {
            Some((ts, Some(value)))
        } else {
            None
        }
    } else {
        None
    }
}

/// Reads the fields `parts` in order; a later field of a kind replaces an
/// earlier one.
pub open spec fn read_fields(parts: Seq<Seq<char>>) -> Option<(Option<Seq<char>>, Option<Seq<char>>)>
    decreases parts.len(),
{
    if parts.len() == 0 {
        Some((None, None))
    } else {
        match read_fields(parts.drop_last()) {
            Some((ts, sig)) => read_field(parts.last(), ts, sig),
            None => None,
        }
    }
}

/// The `(timestamp digits, signature hex)` of a header `ts=<digits>;sig=<hex>`:
/// `;`-separated fields, each `ts=` followed by one or more decimal digits or
/// `sig=` followed by one or more hex digits, both present; when a field
/// repeats, the last one counts.
pub open spec fn signature_header(s: Seq<char>) -> Option<(Seq<char>, Seq<char>)> {
    match read_fields(split(s, ';')) {
        Some((Some(ts), Some(sig))) => Some((ts, sig)),
        _ => None,
    }
}

/// `part` is a timestamp field: `ts=` and one or more decimal digits.
pub open spec fn is_ts_field(part: Seq<char>) -> bool {
    starts_with(part, ts_prefix()) && part.skip(3).len() > 0 && all_digits(part.skip(3))
}

/// `part` is a signature field: `sig=` and one or more hex digits.
pub open spec fn is_sig_field(part: Seq<char>) -> bool {
    starts_with(part, sig_prefix()) && part.skip(4).len() > 0 && all_hex(part.skip(4))
}

proof fn lemma_prefixes_exclusive(part: Seq<char>)
    ensures
        !(starts_with(part, ts_prefix()) && starts_with(part, sig_prefix())),
{
    if starts_with(part, ts_prefix()) && starts_with(part, sig_prefix()) {
        assert(part.take(3)[0] == part[0]);
        assert(part.take(4)[0] == part[0]);
    }
}

/// The header grammar field by field: the fields are read exactly when every
/// `;`-separated part is a timestamp or a signature field; a kind is present
/// exactly when some part is of that kind, and its value is that of the last
/// such part.
pub proof fn lemma_read_fields_by_part(parts: Seq<Seq<char>>)
    ensures
        (read_fields(parts) is Some) <==> (forall|i: int|
            0 <= i < parts.len() ==> is_ts_field(#[trigger] parts[i]) || is_sig_field(parts[i])),
        read_fields(parts) matches Some((ts, sig)) ==> {
            &&& (ts is Some <==> exists|i: int| 0 <= i < parts.len() && is_ts_field(#[trigger] parts[i]))
            &&& (ts matches Some(v) ==> exists|i: int|
                0 <= i < parts.len() && is_ts_field(#[trigger] parts[i]) && parts[i].skip(3) == v
                    && forall|j: int| i < j < parts.len() ==> !is_ts_field(#[trigger] parts[j]))
            &&& (sig is Some <==> exists|i: int| 0 <= i < parts.len() && is_sig_field(#[trigger] parts[i]))
            &&& (sig matches Some(v) ==> exists|i: int|
                0 <= i < parts.len() && is_sig_field(#[trigger] parts[i]) && parts[i].skip(4) == v
                    && forall|j: int| i < j < parts.len() ==> !is_sig_field(#[trigger] parts[j]))
        },
    decreases parts.len(),
{
    if parts.len() > 0 {
        let prev = parts.drop_last();
        let x = parts.last();
        lemma_read_fields_by_part(prev);
        lemma_prefixes_exclusive(x);
        assert forall|i: int| 0 <= i < prev.len() implies #[trigger] prev[i] == parts[i] by {}
        let n = parts.len() - 1;
        assert(parts[n] == x);
        if read_fields(prev) is None {
            let k = choose|i: int|
                0 <= i < prev.len() && !(is_ts_field(#[trigger] prev[i]) || is_sig_field(prev[i]));
            assert(parts[k] == prev[k]);
        } else {
            let (ts, sig) = read_fields(prev)->0;
            if !(is_ts_field(x) || is_sig_field(x)) {
                assert(read_field(x, ts, sig) is None);
            } else if is_ts_field(x) {
                assert(read_fields(parts) == Some((Some(x.skip(3)), sig)));
                assert forall|i: int| 0 <= i < parts.len() implies is_ts_field(#[trigger] parts[i])
                    || is_sig_field(parts[i]) by {
                    if i < prev.len() {
                        assert(parts[i] == prev[i]);
                    }
                }
                if sig is Some {
                    let k = choose|i: int|
                        0 <= i < prev.len() && is_sig_field(#[trigger] prev[i]) && prev[i].skip(4) == sig->0
                            && forall|j: int| i < j < prev.len() ==> !is_sig_field(#[trigger] prev[j]);
                    assert(parts[k] == prev[k]);
                    assert forall|j: int| k < j < parts.len() implies !is_sig_field(#[trigger] parts[j]) by {
                        if j < prev.len() {
                            assert(parts[j] == prev[j]);
                        }
                    }
                } else {
                    assert forall|i: int| 0 <= i < parts.len() implies !is_sig_field(#[trigger] parts[i]) by {
                        if i < prev.len() {
                            assert(parts[i] == prev[i]);
                        }
                    }
                }
            } else {
                assert(read_fields(parts) == Some((ts, Some(x.skip(4)))));
                assert forall|i: int| 0 <= i < parts.len() implies is_ts_field(#[trigger] parts[i])
                    || is_sig_field(parts[i]) by {
                    if i < prev.len() {
                        assert(parts[i] == prev[i]);
                    }
                }
                if ts is Some {
                    let k = choose|i: int|
                        0 <= i < prev.len() && is_ts_field(#[trigger] prev[i]) && prev[i].skip(3) == ts->0
                            && forall|j: int| i < j < prev.len() ==> !is_ts_field(#[trigger] prev[j]);
                    assert(parts[k] == prev[k]);
                    assert forall|j: int| k < j < parts.len() implies !is_ts_field(#[trigger] parts[j]) by {
                        if j < prev.len() {
                            assert(parts[j] == prev[j]);
                        }
                    }
                } else {
                    assert forall|i: int| 0 <= i < parts.len() implies !is_ts_field(#[trigger] parts[i]) by {
                        if i < prev.len() {
                            assert(parts[i] == prev[i]);
                        }
                    }
                }
            }
        }
    }
}

/// A signature header, field by field: it is read exactly when every
/// `;`-separated part is a timestamp or a signature field and both kinds
/// occur; the timestamp and signature are the values of the last part of
/// each kind.
pub proof fn lemma_signature_header_by_part(s: Seq<char>)
    ensures
        ({
            let parts = split(s, ';');
            &&& (signature_header(s) is Some) <==> ((forall|i: int|
                0 <= i < parts.len() ==> is_ts_field(#[trigger] parts[i]) || is_sig_field(parts[i]))
                && (exists|i: int| 0 <= i < parts.len() && is_ts_field(#[trigger] parts[i])) && (exists|
                i: int,
            | 0 <= i < parts.len() && is_sig_field(#[trigger] parts[i])))
            &&& signature_header(s) matches Some((t, g)) ==> {
                &&& exists|i: int|
                    0 <= i < parts.len() && is_ts_field(#[trigger] parts[i]) && parts[i].skip(3) == t
                        && forall|j: int| i < j < parts.len() ==> !is_ts_field(#[trigger] parts[j])
                &&& exists|i: int|
                    0 <= i < parts.len() && is_sig_field(#[trigger] parts[i]) && parts[i].skip(4) == g
                        && forall|j: int| i < j < parts.len() ==> !is_sig_field(#[trigger] parts[j])
            }
        }),
{
    lemma_read_fields_by_part(split(s, ';'));
}

/// The fields a header yields are never empty and hold only digits or hex digits.
proof fn lemma_read_fields_values(parts: Seq<Seq<char>>)
    ensures
        read_fields(parts) matches Some((ts, sig)) ==> {
            &&& ts matches Some(t) ==> t.len() > 0 && all_digits(t)
            &&& sig matches Some(g) ==> g.len() > 0 && all_hex(g)
        },
    decreases parts.len(),
{
    if parts.len() > 0 {
        lemma_read_fields_values(parts.drop_last());
    }
}

/// The kind of one field of a signature header.
enum FieldKind {
    Timestamp,
    Signature,
    Invalid,
}

/// Classifies the field `s[start..end]`.
fn field_kind(s: &Vec<char>, start: usize, end: usize) -> (k: FieldKind)
    requires
        start <= end <= s.len(),
    ensures
        ({
            let part = s@.subrange(start as int, end as int);
            &&& k is Timestamp <==> (starts_with(part, ts_prefix()) && part.skip(3).len() > 0
                && all_digits(part.skip(3)))
            &&& k is Signature <==> (!starts_with(part, ts_prefix()) && starts_with(part, sig_prefix())
                && part.skip(4).len() > 0 && all_hex(part.skip(4)))
        }),
{
    let ghost part = s@.subrange(start as int, end as int);
    if end - start >= 3 && s[start] == 't' && s[start + 1] == 's' && s[start + 2] == '=' {
        assert(part.take(3) == ts_prefix());
        if end - start == 3 {
            return FieldKind::Invalid;
        }
        let mut i = start + 3;
        while i < end
            invariant
                start + 3 <= i <= end <= s.len(),
                part == s@.subrange(start as int, end as int),
                forall|k: int| start + 3 <= k < i ==> is_digit(#[trigger] s@[k]),
                part.take(3) == ts_prefix(),
                end - start > 3,
            decreases end - i,
        {
            if !('0' <= s[i] && s[i] <= '9') {
                assert(part.skip(3)[i - start - 3] == s@[i as int]);
                assert(!is_digit(part.skip(3)[i - start - 3]));
                return FieldKind::Invalid;
            }
            i = i + 1;
        }
        assert forall|k: int| 0 <= k < part.skip(3).len() implies #[trigger] is_digit(part.skip(3)[k]) by {
            assert(part.skip(3)[k] == s@[start + 3 + k]);
        }
        FieldKind::Timestamp
    } else if end - start >= 4 && s[start] == 's' && s[start + 1] == 'i' && s[start + 2] == 'g'
        && s[start + 3] == '=' {
        assert(part.take(4) == sig_prefix());
        assert(!starts_with(part, ts_prefix())) by {
            if part.len() >= 3 {
                assert(part.take(3)[0] == part[0]);
            }
        }
        if end - start == 4 {
            return FieldKind::Invalid;
        }
        let mut i = start + 4;
        while i < end
            invariant
                start + 4 <= i <= end <= s.len(),
                part == s@.subrange(start as int, end as int),
                forall|k: int| start + 4 <= k < i ==> is_hex_digit(#[trigger] s@[k]),
                part.take(4) == sig_prefix(),
                !starts_with(part, ts_prefix()),
                end - start > 4,
            decreases end - i,
        {
            let c = s[i];
            if !(('0' <= c && c <= '9') || ('a' <= c && c <= 'f') || ('A' <= c && c <= 'F')) {
                assert(part.skip(4)[i - start - 4] == s@[i as int]);
                assert(!is_hex_digit(part.skip(4)[i - start - 4]));
                return FieldKind::Invalid;
            }
            i = i + 1;
        }
        assert forall|k: int| 0 <= k < part.skip(4).len() implies #[trigger] is_hex_digit(part.skip(4)[k]) by {
            assert(part.skip(4)[k] == s@[start + 4 + k]);
        }
        FieldKind::Signature
    } else {
        assert(!starts_with(part, ts_prefix())) by {
            if part.len() >= 3 && part.take(3) == ts_prefix() {
                assert(part.take(3)[0] == part[0]);
                assert(part.take(3)[1] == part[1]);
                assert(part.take(3)[2] == part[2]);
            }
        }
        assert(!starts_with(part, sig_prefix())) by {
            if part.len() >= 4 && part.take(4) == sig_prefix() {
                assert(part.take(4)[0] == part[0]);
                assert(part.take(4)[1] == part[1]);
                assert(part.take(4)[2] == part[2]);
                assert(part.take(4)[3] == part[3]);
            }
        }
        FieldKind::Invalid
    }
}


/// The text `s[a..b]` of an optional range.
spec fn range_text(s: Seq<char>, r: Option<(usize, usize)>) -> Option<Seq<char>> {
    match r {
        Some((a, b)) => Some(s.subrange(a as int, b as int)),
        None => None,
    }
}

spec fn range_in(r: Option<(usize, usize)>, len: int) -> bool {
    r matches Some((a, b)) ==> a <= b <= len
}

/// The fields read so far, as ranges into the header.
spec fn fields_read(
    s: Seq<char>,
    ok: bool,
    ts: Option<(usize, usize)>,
    sig: Option<(usize, usize)>,
) -> Option<(Option<Seq<char>>, Option<Seq<char>>)> {
    if ok {
        Some((range_text(s, ts), range_text(s, sig)))
    } else {
        None
    }
}

/// Reads the field `s[start..end]` on top of the fields read before it.
fn read_field_at(
    s: &Vec<char>,
    start: usize,
    end: usize,
    ok: &mut bool,
    ts: &mut Option<(usize, usize)>,
    sig: &mut Option<(usize, usize)>,
)
    requires
        start <= end <= s.len(),
        range_in(*old(ts), s.len() as int),
        range_in(*old(sig), s.len() as int),
    ensures
        range_in(*final(ts), s.len() as int),
        range_in(*final(sig), s.len() as int),
        fields_read(s@, *final(ok), *final(ts), *final(sig)) == match fields_read(
            s@,
            *old(ok),
            *old(ts),
            *old(sig),
        ) {
            Some((t, g)) => read_field(s@.subrange(start as int, end as int), t, g),
            None => None,
        },
{
    let ghost part = s@.subrange(start as int, end as int);
    if *ok {
        match field_kind(s, start, end) {
            FieldKind::Timestamp => {
                assert(part.skip(3) == s@.subrange(start + 3, end as int));
                *ts = Some((start + 3, end));
            },
            FieldKind::Signature => {
                assert(part.skip(4) == s@.subrange(start + 4, end as int));
                *sig = Some((start + 4, end));
            },
            FieldKind::Invalid => {
                *ok = false;
            },
        }
    }
}

/// Copies `s[a..b]` into a new vector.
fn copy_range(s: &Vec<char>, a: usize, b: usize) -> (v: Vec<char>)
    requires
        a <= b <= s.len(),
    ensures
        v@ == s@.subrange(a as int, b as int),
{
    let mut v: Vec<char> = Vec::new();
    let mut i = a;
    while i < b
        invariant
            a <= i <= b <= s.len(),
            v@ == s@.subrange(a as int, i as int),
        decreases b - i,
    {
        v.push(s[i]);
        i = i + 1;
        proof {
            assert(v@ == s@.subrange(a as int, i as int));
        }
    }
    v
}

/// Reads a signature header `ts=<digits>;sig=<hex>` given as characters.
pub fn parse_signature_chars(s: &Vec<char>) -> (r: Option<(Vec<char>, Vec<char>)>)
    ensures
        match signature_header(s@) {
            Some((t, g)) => r matches Some(p) && p.0@ == t && p.1@ == g,
            None => r is None,
        },
{
    let mut ok = true;
    let mut ts: Option<(usize, usize)> = None;
    let mut sig: Option<(usize, usize)> = None;
    let mut start: usize = 0;
    let mut i: usize = 0;
    proof {
        assert(s@.take(0) == Seq::<char>::empty());
        assert(s@.subrange(0, 0) == Seq::<char>::empty());
    }
    while i < s.len()
        invariant
            start <= i <= s.len(),
            split(s@.take(i as int), ';').len() >= 1,
            split(s@.take(i as int), ';').last() == s@.subrange(start as int, i as int),
            fields_read(s@, ok, ts, sig) == read_fields(split(s@.take(i as int), ';').drop_last()),
            range_in(ts, s.len() as int),
            range_in(sig, s.len() as int),
        decreases s.len() - i,
    {
        let ghost prev = split(s@.take(i as int), ';');
        proof {
            assert(s@.take(i + 1).drop_last() == s@.take(i as int));
            assert(s@.take(i + 1).last() == s@[i as int]);
        }
        if s[i] == ';' {
            read_field_at(s, start, i, &mut ok, &mut ts, &mut sig);
            proof {
                let next = split(s@.take(i + 1), ';');
                assert(next == prev.push(Seq::empty()));
                assert(next.drop_last() == prev);
                assert(prev == prev.drop_last().push(prev.last()));
                assert(s@.subrange(i + 1, i + 1) == Seq::<char>::empty());
            }
            start = i + 1;
        } else {
            proof {
                let next = split(s@.take(i + 1), ';');
                assert(next == prev.update(prev.len() - 1, prev.last().push(s@[i as int])));
                assert(next.drop_last() == prev.drop_last());
                assert(s@.subrange(start as int, i + 1) == s@.subrange(start as int, i as int).push(
                    s@[i as int],
                ));
            }
        }
        i = i + 1;
    }
    let len = s.len();
    read_field_at(s, start, len, &mut ok, &mut ts, &mut sig);
    proof {
        let parts = split(s@, ';');
        assert(s@.take(len as int) == s@);
        assert(parts == parts.drop_last().push(parts.last()));
    }
    if ok {
        match (ts, sig) {
            (Some((ta, tb)), Some((sa, sb))) => Some((copy_range(s, ta, tb), copy_range(s, sa, sb))),
            _ => None,
        }
    } else {
        None
    }
}

/// Reads a signature header of the form `ts=<digits>;sig=<hex>`: fields
/// separated by `;`, each `ts=` with one or more decimal digits or `sig=`
/// with one or more hex digits, both present (the last of a repeated field
/// counts). Returns the timestamp digits and the signature hex.
pub fn parse_signature(s: &str) -> (r: Option<(String, String)>)
    ensures
        match signature_header(s@) {
            Some((t, g)) => r matches Some(p) && p.0@ == t && p.1@ == g,
            None => r is None,
        },
{
    match parse_signature_chars(&chars_of(s)) {
        Some((ts, sig)) => Some((string_of(&ts), string_of(&sig))),
        None => None,
    }
}

/// A `String` holding the characters of `v`.
fn string_of(v: &Vec<char>) -> (s: String)
    ensures
        s@ == v@,
{
    let mut s = String::new();
    let mut i: usize = 0;
    while i < v.len()
        invariant
            i <= v.len(),
            s@ == v@.take(i as int),
        decreases v.len() - i,
    {
        s.push(v[i]);
        i = i + 1;
        proof {
            assert(s@ == v@.take(i as int));
        }
    }
    proof {
        assert(v@.take(v.len() as int) == v@);
    }
    s
}


/// Why a webhook was rejected.
#[derive(Debug, Clone, PartialEq, Eq, Structural)]
pub enum WebhookError {
    /// No signature header was provided, or it was empty.
    MissingSignature,
    /// The signature header does not have the `ts=<digits>;sig=<hex>` form.
    MalformedSignature,
    /// The signature does not match the body: wrong secret or tampered payload.
    InvalidSignature,
    /// The signature is authentic but its timestamp lies outside the tolerance window.
    TimestampOutsideTolerance {
        /// Absolute difference between the signed timestamp and now, in seconds.
        drift_secs: u64,
        /// The tolerance window, in whole seconds.
        tolerance_secs: u64,
    },
}

/// The application block of a webhook [`Payload`].
#[derive(Debug, Clone, PartialEq, Eq)]
pub struct PayloadApplication {
    pub name: String,
}

/// The environment block of a webhook [`Payload`].
#[derive(Debug, Clone, PartialEq, Eq)]
pub struct PayloadEnvironment {
    pub name: String,
    pub env_id: String,
    pub url: String,
}

/// A webhook payload, read from a body once [`verify`] accepted it.
#[derive(Debug)]
pub struct Payload {
    /// Event name, e.g. `environment.updated` or `environment.deleted`.
    pub event: String,
    /// ISO 8601 delivery timestamp.
    pub timestamp: Option<String>,
    pub application: Option<PayloadApplication>,
    pub environment: Option<PayloadEnvironment>,
    /// Changed fields, present on `environment.updated` when the server includes them.
    pub changes: Option<serde_json::Value>,
    /// Full configuration values, present when "include values" is enabled.
    pub values: Option<serde_json::Value>,
}

/// Options for [`verify`].
#[derive(Debug, Clone, Copy)]
pub struct VerifyOptions {
    /// Tolerance window. A zero duration disables the timestamp check.
    pub tolerance: Duration,
    /// The current Unix time in seconds; `None` reads the system clock.
    pub now: Option<u64>,
}

/// The default tolerance window: five minutes.
pub fn default_tolerance() -> (d: Duration)
    ensures
        d@ == 300 * nanos_per_sec(),
{
    Duration::from_secs(300)
}

impl Default for VerifyOptions {
    fn default() -> (opts: Self)
        ensures
            opts.tolerance@ == 300 * nanos_per_sec(),
            opts.now is None,
    {
        VerifyOptions { tolerance: default_tolerance(), now: None }
    }
}

/// The byte of an ASCII hex digit is a hex digit.
pub open spec fn is_hex_byte(b: u8) -> bool {
    (48 <= b <= 57) || (97 <= b <= 102) || (65 <= b <= 70)
}

/// The value of a hex digit byte.
pub open spec fn hex_byte_value(b: u8) -> int {
    if 48 <= b <= 57 {
        b - 48
    } else if 97 <= b <= 102 {
        b - 87
    } else {
        b - 55
    }
}

/// The bytes that the hex text `text` (two digits per byte, high digit first) stands for.
pub open spec fn hex_decoded(text: Seq<u8>) -> Seq<u8> {
    Seq::new(
        text.len() / 2,
        |i: int| (hex_byte_value(text[2 * i]) * 16 + hex_byte_value(text[2 * i + 1])) as u8,
    )
}

/// The bytes of ASCII text.
pub open spec fn ascii_bytes_of(s: Seq<char>) -> Seq<u8> {
    s.map_values(|c: char| c as u8)
}

/// The message a webhook signature covers: the decimal timestamp, `:`, and the body.
pub open spec fn signed_message(ts: nat, body: Seq<u8>) -> Seq<u8> {
    ascii_bytes_of(decimal(ts)) + seq![58u8] + body
}

/// The error `hex::decode` reports (odd length or a non-hex character).
#[verifier::external_type_specification]
#[verifier::external_body]
pub struct ExFromHexError(hex::FromHexError);

/// A reading of the system clock.
#[verifier::external_type_specification]
#[verifier::external_body]
pub struct ExSystemTime(std::time::SystemTime);

/// The HMAC-SHA256 tag of `message` under `key`.
pub uninterp spec fn hmac_sha256(key: Seq<u8>, message: Seq<u8>) -> Seq<u8>;

/// Hex-decodes `text` with `hex::decode`: succeeds exactly when `text` has
/// an even length and holds only hex digits (either case), and then yields
/// one byte per pair of digits, high digit first.
#[verifier::external_body]
fn decode_hex(text: &[u8]) -> (r: Result<Vec<u8>, hex::FromHexError>)
    ensures
        r is Ok <==> (text@.len() % 2 == 0 && forall|i: int|
            0 <= i < text@.len() ==> #[trigger] is_hex_byte(text@[i])),
        r matches Ok(bytes) ==> bytes@ == hex_decoded(text@),
{
    hex::decode(text)
}

/// Checks an HMAC-SHA256 tag with the `hmac` crate: `Hmac::<Sha256>::new_from_slice`
/// (which accepts keys of any length), `Mac::update` with `message`, then
/// `Mac::verify_slice`, a constant-time comparison. True exactly when `tag`
/// is the HMAC-SHA256 of `message` under `key`, which is 32 bytes long.
#[verifier::external_body]
fn hmac_sha256_matches(key: &[u8], message: &[u8], tag: &[u8]) -> (ok: bool)
    ensures
        ok == (tag@ == hmac_sha256(key@, message@)),
        ok ==> tag@.len() == 32,
{
    match Hmac::<Sha256>::new_from_slice(key) {
        Ok(mut mac) => {
            mac.update(message);
            mac.verify_slice(tag).is_ok()
        },
        Err(_) => false,
    }
}

/// Reads the system clock (`std::time::SystemTime::now`).
#[verifier::external_body]
fn system_time_now() -> std::time::SystemTime {
    std::time::SystemTime::now()
}

/// The time elapsed from the Unix epoch to `t` (`SystemTime::duration_since`);
/// `None` for instants before the epoch.
#[verifier::external_body]
fn elapsed_since_unix_epoch(t: &std::time::SystemTime) -> Option<std::time::Duration> {
    match t.duration_since(std::time::UNIX_EPOCH) {
        Ok(d) => Some(d),
        Err(_) => None,
    }
}

/// Whole seconds of a std duration (`std::time::Duration::as_secs`).
#[verifier::external_body]
fn std_duration_secs(d: &std::time::Duration) -> u64 {
    d.as_secs()
}

/// The current Unix time in whole seconds; 0 when the clock reads a time
/// before the epoch.
pub fn unix_time_now() -> u64 {
    let now = system_time_now();
    match elapsed_since_unix_epoch(&now) {
        Some(d) => std_duration_secs(&d),
        None => 0,
    }
}

/// `|a - b|`.
pub open spec fn abs_diff(a: int, b: int) -> int {
    if a >= b { a - b } else { b - a }
}

/// The header `signature` is well formed and carries the 32-byte
/// HMAC-SHA256, under `secret`, of its timestamp and `body`.
pub open spec fn signature_is_authentic(body: Seq<u8>, signature: Seq<char>, secret: Seq<char>) -> bool {
    match signature_header(trim(signature)) {
        Some((ts_text, sig_hex)) => {
            &&& digits_value(ts_text) <= u64::MAX
            &&& sig_hex.len() % 2 == 0
            &&& hex_decoded(ascii_bytes_of(sig_hex)).len() == 32
            &&& hex_decoded(ascii_bytes_of(sig_hex)) == hmac_sha256(
                encode_utf8(secret),
                signed_message(digits_value(ts_text), body),
            )
        },
        None => false,
    }
}

/// What verifying `body` against the header `signature` with `secret` gives,
/// with a tolerance window of `tolerance` nanoseconds and the clock at `now`.
pub open spec fn webhook_verdict(
    body: Seq<u8>,
    signature: Option<Seq<char>>,
    secret: Seq<char>,
    tolerance: nat,
    now: u64,
) -> Result<(), WebhookError> {
    match signature {
        None => Err(WebhookError::MissingSignature),
        Some(header) => {
            if header.len() == 0 {
                Err(WebhookError::MissingSignature)
            } else if secret.len() == 0 {
                Err(WebhookError::InvalidSignature)
            } else {
                match signature_header(trim(header)) {
                    None => Err(WebhookError::MalformedSignature),
                    Some((ts_text, sig_hex)) => {
                        let ts = digits_value(ts_text);
                        if ts > u64::MAX || sig_hex.len() % 2 != 0 {
                            Err(WebhookError::MalformedSignature)
                        } else if hex_decoded(ascii_bytes_of(sig_hex)).len() != 32 || hex_decoded(
                            ascii_bytes_of(sig_hex),
                        ) != hmac_sha256(encode_utf8(secret), signed_message(ts, body)) {
                            Err(WebhookError::InvalidSignature)
                        } else if tolerance > 0 && abs_diff(now as int, ts as int) > tolerance
                            / nanos_per_sec() {
                            Err(
                                WebhookError::TimestampOutsideTolerance {
                                    drift_secs: abs_diff(now as int, ts as int) as u64,
                                    tolerance_secs: (tolerance / nanos_per_sec()) as u64,
                                },
                            )
                        } else {
                            Ok(())
                        }
                    },
                }
            }
        },
    }
}

/// A zero tolerance disables the timestamp check: the verdict is the same
/// whatever the clock reads.
pub proof fn lemma_zero_tolerance_ignores_clock(
    body: Seq<u8>,
    signature: Option<Seq<char>>,
    secret: Seq<char>,
    now1: u64,
    now2: u64,
)
    ensures
        webhook_verdict(body, signature, secret, 0, now1) == webhook_verdict(
            body,
            signature,
            secret,
            0,
            now2,
        ),
{
}

/// Only an authentic signature can pass or be reported as stale: every
/// other verdict is an error other than `TimestampOutsideTolerance`.
pub proof fn lemma_stale_implies_authentic(
    body: Seq<u8>,
    header: Seq<char>,
    secret: Seq<char>,
    tolerance: nat,
    now: u64,
)
    requires
        webhook_verdict(body, Some(header), secret, tolerance, now) is Ok
            || webhook_verdict(body, Some(header), secret, tolerance, now) matches Err(
            WebhookError::TimestampOutsideTolerance { .. },
        ),
    ensures
        signature_is_authentic(body, header, secret),
{
}

/// The lower-case hex digit of `n` (`0 <= n < 16`).
pub open spec fn hex_lower(n: int) -> char {
    if n < 10 {
        (48 + n) as char
    } else {
        (87 + n) as char
    }
}

/// The hex text of `bytes`, two lower-case digits per byte, high digit first.
pub open spec fn hex_text(bytes: Seq<u8>) -> Seq<char> {
    Seq::new(
        2 * bytes.len(),
        |i: int|
            if i % 2 == 0 {
                hex_lower(bytes[i / 2] as int / 16)
            } else {
                hex_lower(bytes[i / 2] as int % 16)
            },
    )
}

/// The header a sender writes for timestamp `ts` and signature `tag`:
/// `ts=<ts>;sig=<tag in hex>`.
pub open spec fn signed_header(ts: nat, tag: Seq<u8>) -> Seq<char> {
    ts_prefix() + decimal(ts) + seq![';'] + sig_prefix() + hex_text(tag)
}

proof fn lemma_hex_text(bytes: Seq<u8>)
    ensures
        hex_text(bytes).len() == 2 * bytes.len(),
        all_hex(hex_text(bytes)),
        hex_decoded(ascii_bytes_of(hex_text(bytes))) == bytes,
{
    let t = hex_text(bytes);
    let a = ascii_bytes_of(t);
    assert forall|i: int| 0 <= i < t.len() implies #[trigger] is_hex_digit(t[i]) by {}
    assert forall|i: int| 0 <= i < bytes.len() implies #[trigger] hex_decoded(a)[i] == bytes[i] by {
        let hi = bytes[i] as int / 16;
        let lo = bytes[i] as int % 16;
        assert(t[2 * i] == hex_lower(hi));
        assert(t[2 * i + 1] == hex_lower(lo));
        assert(a[2 * i] == t[2 * i] as u8);
        assert(a[2 * i + 1] == t[2 * i + 1] as u8);
        assert(hex_byte_value(a[2 * i]) == hi);
        assert(hex_byte_value(a[2 * i + 1]) == lo);
    }
    assert(hex_decoded(a).len() == bytes.len());
}

proof fn lemma_split_without_sep(s: Seq<char>, sep: char)
    requires
        forall|i: int| 0 <= i < s.len() ==> #[trigger] s[i] != sep,
    ensures
        split(s, sep) == seq![s],
    decreases s.len(),
{
    if s.len() > 0 {
        let prev = s.drop_last();
        assert forall|i: int| 0 <= i < prev.len() implies #[trigger] prev[i] != sep by {
            assert(prev[i] == s[i]);
        }
        lemma_split_without_sep(prev, sep);
        assert(s.last() == s[s.len() - 1]);
        assert(prev.push(s.last()) == s);
        assert(seq![prev].update(0, s) =~= seq![s]);
    } else {
        assert(s =~= Seq::<char>::empty());
    }
}

proof fn lemma_split_pair(a: Seq<char>, b: Seq<char>, sep: char)
    requires
        forall|i: int| 0 <= i < a.len() ==> #[trigger] a[i] != sep,
        forall|i: int| 0 <= i < b.len() ==> #[trigger] b[i] != sep,
    ensures
        split(a + seq![sep] + b, sep) == seq![a, b],
    decreases b.len(),
{
    let s = a + seq![sep] + b;
    if b.len() == 0 {
        lemma_split_without_sep(a, sep);
        assert(s.drop_last() == a);
        assert(s.last() == sep);
        assert(b =~= Seq::<char>::empty());
        assert(seq![a].push(Seq::<char>::empty()) =~= seq![a, b]);
    } else {
        let prev = b.drop_last();
        assert forall|i: int| 0 <= i < prev.len() implies #[trigger] prev[i] != sep by {
            assert(prev[i] == b[i]);
        }
        lemma_split_pair(a, prev, sep);
        assert(s.drop_last() == a + seq![sep] + prev);
        assert(s.last() == b[b.len() - 1]);
        assert(prev.push(b.last()) == b);
        assert(seq![a, prev].update(1, b) =~= seq![a, b]);
    }
}

/// Signing and verifying agree: a header `ts=<ts>;sig=<hex>` that carries
/// the HMAC-SHA256, under a non-empty `secret`, of `"<ts>:"` and `body` is
/// accepted when the clock `now` lies within the tolerance of `ts` (or the
/// tolerance is zero), and otherwise reported as stale with the drift.
pub proof fn lemma_signed_webhook_verdict(
    body: Seq<u8>,
    secret: Seq<char>,
    ts: u64,
    tag: Seq<u8>,
    tolerance: nat,
    now: u64,
)
    requires
        secret.len() > 0,
        tag == hmac_sha256(encode_utf8(secret), signed_message(ts as nat, body)),
        tag.len() == 32,
    ensures
        webhook_verdict(body, Some(signed_header(ts as nat, tag)), secret, tolerance, now) == if tolerance
            > 0 && abs_diff(now as int, ts as int) > tolerance / nanos_per_sec() {
            Err(
                WebhookError::TimestampOutsideTolerance {
                    drift_secs: abs_diff(now as int, ts as int) as u64,
                    tolerance_secs: (tolerance / nanos_per_sec()) as u64,
                },
            )
        } else {
            Ok(())
        },
{
    let digits = decimal(ts as nat);
    let hex = hex_text(tag);
    let p1 = ts_prefix() + digits;
    let p2 = sig_prefix() + hex;
    let header = signed_header(ts as nat, tag);
    crate::text::lemma_decimal_round_trip(ts as nat);
    lemma_hex_text(tag);
    assert(header == p1 + seq![';'] + p2);
    assert forall|i: int| 0 <= i < p1.len() implies #[trigger] p1[i] != ';' by {
        if i >= 3 {
            assert(p1[i] == digits[i - 3]);
            assert(is_digit(digits[i - 3]));
        }
    }
    assert forall|i: int| 0 <= i < p2.len() implies #[trigger] p2[i] != ';' by {
        if i >= 4 {
            assert(p2[i] == hex[i - 4]);
            assert(is_hex_digit(hex[i - 4]));
        }
    }
    lemma_split_pair(p1, p2, ';');
    assert(header[0] == 't');
    assert(trim_start(header) == header);
    assert(header.last() == p2[p2.len() - 1]);
    assert(is_hex_digit(hex[hex.len() - 1]));
    assert(trim_end(header) == header);
    assert(trim(header) == header);
    assert(p1.take(3) == ts_prefix());
    assert(p1.skip(3) == digits);
    assert(p2[0] == 's');
    assert(!starts_with(p2, ts_prefix())) by {
        assert(p2.take(3)[0] == 's');
    }
    assert(p2.take(4) == sig_prefix());
    assert(p2.skip(4) == hex);
    let parts = seq![p1, p2];
    assert(parts.drop_last() == seq![p1]);
    assert(seq![p1].drop_last() == Seq::<Seq<char>>::empty());
    assert(read_fields(Seq::<Seq<char>>::empty()) == Some((None::<Seq<char>>, None::<Seq<char>>)));
    assert(starts_with(p1, ts_prefix()));
    assert(read_field(p1, None, None) == Some((Some(digits), None::<Seq<char>>)));
    assert(read_fields(seq![p1]) == Some((Some(digits), None::<Seq<char>>)));
    assert(read_fields(parts) == Some((Some(digits), Some(hex))));
    assert(signature_header(trim(header)) == Some((digits, hex)));
}

/// The bytes of ASCII characters.
fn ascii_bytes(v: &Vec<char>) -> (b: Vec<u8>)
    requires
        forall|i: int| 0 <= i < v@.len() ==> (#[trigger] v@[i] as int) < 128,
    ensures
        b@ == ascii_bytes_of(v@),
{
    let mut b: Vec<u8> = Vec::new();
    let mut i: usize = 0;
    while i < v.len()
        invariant
            i <= v.len(),
            forall|k: int| 0 <= k < v@.len() ==> (#[trigger] v@[k] as int) < 128,
            b@ == ascii_bytes_of(v@.take(i as int)),
        decreases v.len() - i,
    {
        let c = v[i];
        b.push(c as u8);
        i = i + 1;
        proof {
            assert(ascii_bytes_of(v@.take(i as int)) == ascii_bytes_of(v@.take(i - 1)).push(c as u8));
        }
    }
    proof {
        assert(v@.take(v.len() as int) == v@);
    }
    b
}

/// The bytes `"<ts>:"` followed by `body`.
fn signed_message_bytes(ts: u64, body: &[u8]) -> (m: Vec<u8>)
    ensures
        m@ == signed_message(ts as nat, body@),
{
    let digits = chars_of(decimal_string(ts).as_str());
    proof {
        lemma_decimal_is_ascii(ts as nat);
    }
    let mut m = ascii_bytes(&digits);
    m.push(58u8);
    let ghost head = m@;
    let mut i: usize = 0;
    while i < body.len()
        invariant
            i <= body.len(),
            m@ == head + body@.take(i as int),
        decreases body.len() - i,
    {
        m.push(body[i]);
        i = i + 1;
        proof {
            assert(m@ == head + body@.take(i as int));
        }
    }
    proof {
        assert(body@.take(body.len() as int) == body@);
    }
    m
}

proof fn lemma_decimal_is_ascii(n: nat)
    ensures
        forall|i: int| 0 <= i < decimal(n).len() ==> (#[trigger] decimal(n)[i] as int) < 128,
    decreases n,
{
    if n >= 10 {
        lemma_decimal_is_ascii(n / 10);
        let prev = decimal(n / 10);
        assert(decimal(n) == prev.push(crate::text::digit_char((n % 10) as int)));
        assert forall|i: int| 0 <= i < decimal(n).len() implies (#[trigger] decimal(n)[i] as int)
            < 128 by {
            if i < prev.len() {
                assert(decimal(n)[i] == prev[i]);
            }
        }
    }
}

/// Verifies a confish webhook: the header `signature` must be present and
/// of the form `ts=<digits>;sig=<hex>` (surrounding whitespace ignored), the
/// hex must be the HMAC-SHA256 under `secret` of `"<ts>:"` followed by
/// `body`, and, unless the tolerance is zero, `ts` must lie within the
/// tolerance of the current time. The signature is checked before the
/// timestamp, so only authentic webhooks can be reported as stale. Without
/// `opts.now`, the current time is a reading of `unix_time_now`, taken only
/// when the timestamp is checked.
pub fn verify(body: &[u8], signature: Option<&str>, secret: &str, opts: &VerifyOptions) -> (r:
    Result<(), WebhookError>)
    ensures
        opts.now matches Some(now) ==> r == webhook_verdict(
            body@,
            opt_str(signature),
            secret@,
            opts.tolerance@,
            now,
        ),
        opts.now is None ==> exists|now: u64|
            r == #[trigger] webhook_verdict(body@, opt_str(signature), secret@, opts.tolerance@, now),
        (opts.now is None && opts.tolerance@ > 0 && secret@.len() > 0 && signature is Some
            && opt_str(signature)->0.len() > 0 && signature_is_authentic(
            body@,
            opt_str(signature)->0,
            secret@,
        )) ==> exists|now: u64|
            call_ensures(unix_time_now, (), now) && r == #[trigger] webhook_verdict(
                body@,
                opt_str(signature),
                secret@,
                opts.tolerance@,
                now,
            ),
        r is Ok ==> signature_is_authentic(body@, opt_str(signature)->0, secret@),
        r matches Err(WebhookError::TimestampOutsideTolerance { .. }) ==> signature_is_authentic(
            body@,
            opt_str(signature)->0,
            secret@,
        ),
{
    let header = match signature {
        None => return Err(WebhookError::MissingSignature),
        Some(h) => h,
    };
    if header.is_empty() {
        return Err(WebhookError::MissingSignature);
    }
    if secret.is_empty() {
        return Err(WebhookError::InvalidSignature);
    }
    let trimmed = trim_whitespace(&chars_of(header));
    let (ts_text, sig_hex) = match parse_signature_chars(&trimmed) {
        None => return Err(WebhookError::MalformedSignature),
        Some(fields) => fields,
    };
    proof {
        lemma_read_fields_values(split(trimmed@, ';'));
        assert(is_digit(ts_text@[0]));
    }
    // Digits alone, without a sign: parsing yields their value when it fits.
    let ts = match crate::text::parse_u64_chars(&ts_text) {
        None => return Err(WebhookError::MalformedSignature),
        Some(ts) => ts,
    };
    proof {
        assert forall|i: int| 0 <= i < sig_hex@.len() implies (#[trigger] sig_hex@[i] as int) < 128 by {
            assert(is_hex_digit(sig_hex@[i]));
        }
    }
    let sig_bytes = ascii_bytes(&sig_hex);
    proof {
        assert forall|i: int| 0 <= i < sig_bytes@.len() implies #[trigger] is_hex_byte(sig_bytes@[i]) by {
            assert(is_hex_digit(sig_hex@[i]));
            assert(sig_bytes@[i] == sig_hex@[i] as u8);
        }
    }
    let provided = match decode_hex(sig_bytes.as_slice()) {
        Err(_) => return Err(WebhookError::MalformedSignature),
        Ok(bytes) => bytes,
    };
    let message = signed_message_bytes(ts, body);
    if !hmac_sha256_matches(secret.as_bytes(), message.as_slice(), provided.as_slice()) {
        return Err(WebhookError::InvalidSignature);
    }
    if !opts.tolerance.is_zero() {
        let now = match opts.now {
            Some(now) => now,
            None => {
                let clock = unix_time_now;
                let t = clock();
                assert(call_ensures(unix_time_now, (), t));
                t
            },
        };
        assert(opts.now is None ==> call_ensures(unix_time_now, (), now));
        let drift = if now >= ts { now - ts } else { ts - now };
        let tolerance_secs = opts.tolerance.as_secs();
        if drift > tolerance_secs {
            let r = Err(WebhookError::TimestampOutsideTolerance { drift_secs: drift, tolerance_secs });
            assert(r == webhook_verdict(body@, opt_str(signature), secret@, opts.tolerance@, now));
            return r;
        }
        assert(Ok::<(), WebhookError>(()) == webhook_verdict(
            body@,
            opt_str(signature),
            secret@,
            opts.tolerance@,
            now,
        ));
    } else {
        assert(Ok::<(), WebhookError>(()) == webhook_verdict(
            body@,
            opt_str(signature),
            secret@,
            opts.tolerance@,
            0,
        ));
    }
    Ok(())
}

} // verus!
