//! Feeds: items keyed by an external ID, with an optional time-to-live.

use vstd::prelude::*;

use vstd::utf8::encode_utf8;

use crate::time::{nanos_per_sec, Duration};

verus! {

/// The bytes left as they are in an external ID path segment: ASCII letters
/// and digits and the RFC 3986 unreserved marks `-`, `_`, `.` and `~`.
pub open spec fn is_unreserved_byte(b: u8) -> bool {
    ||| (48 <= b <= 57)
    ||| (65 <= b <= 90)
    ||| (97 <= b <= 122)
    ||| b == 45
    ||| b == 95
    ||| b == 46
    ||| b == 126
}

/// The upper-case hex digit of `n` (`0 <= n < 16`).
pub open spec fn hex_upper(n: int) -> char {
    if n < 10 {
        (48 + n) as char
    } else {
        (55 + n) as char
    }
}

/// How one byte of an external ID appears in the path: itself when it is
/// unreserved, else `%` and its two upper-case hex digits.
pub open spec fn encode_byte(b: u8) -> Seq<char> {
    if is_unreserved_byte(b) {
        seq![b as char]
    } else {
        seq!['%', hex_upper(b as int / 16), hex_upper(b as int % 16)]
    }
}

/// The percent-encoding of the byte string `bytes`.
pub open spec fn percent_encoded(bytes: Seq<u8>) -> Seq<char>
    decreases bytes.len(),
{
    if bytes.len() == 0 {
        Seq::empty()
    } else {
        percent_encoded(bytes.drop_last()) + encode_byte(bytes.last())
    }
}

/// ASCII letters of either case, digits, `-`, `_`, `.` and `~` are kept as
/// they are; every other byte becomes `%` and two upper-case hex digits
/// whose value is the byte.
pub proof fn lemma_encode_byte(b: u8)
    ensures
        (('0' as u8 <= b <= '9' as u8) || ('A' as u8 <= b <= 'Z' as u8) || ('a' as u8 <= b
            <= 'z' as u8) || b == '-' as u8 || b == '_' as u8 || b == '.' as u8 || b == '~' as u8)
            ==> encode_byte(b) == seq![b as char],
        !(('0' as u8 <= b <= '9' as u8) || ('A' as u8 <= b <= 'Z' as u8) || ('a' as u8 <= b
            <= 'z' as u8) || b == '-' as u8 || b == '_' as u8 || b == '.' as u8 || b == '~' as u8)
            ==> {
            let e = encode_byte(b);
            &&& e.len() == 3
            &&& e[0] == '%'
            &&& ('0' <= e[1] <= '9' || 'A' <= e[1] <= 'F')
            &&& ('0' <= e[2] <= '9' || 'A' <= e[2] <= 'F')
            &&& hex_char_value(e[1]) * 16 + hex_char_value(e[2]) == b
        },
{
}

/// An ID made only of ASCII letters, digits, `-`, `_`, `.` and `~` is its
/// own encoding, character for character.
pub proof fn lemma_plain_id_unchanged(bytes: Seq<u8>)
    requires
        forall|i: int|
            0 <= i < bytes.len() ==> ('0' as u8 <= #[trigger] bytes[i] <= '9' as u8) || ('A' as u8
                <= bytes[i] <= 'Z' as u8) || ('a' as u8 <= bytes[i] <= 'z' as u8) || bytes[i]
                == '-' as u8 || bytes[i] == '_' as u8 || bytes[i] == '.' as u8 || bytes[i] == '~' as u8,
    ensures
        percent_encoded(bytes) == bytes.map_values(|b: u8| b as char),
    decreases bytes.len(),
{
    if bytes.len() > 0 {
        let prev = bytes.drop_last();
        assert forall|i: int| 0 <= i < prev.len() implies ('0' as u8 <= #[trigger] prev[i] <= '9' as u8)
            || ('A' as u8 <= prev[i] <= 'Z' as u8) || ('a' as u8 <= prev[i] <= 'z' as u8) || prev[i]
            == '-' as u8 || prev[i] == '_' as u8 || prev[i] == '.' as u8 || prev[i] == '~' as u8 by {
            assert(prev[i] == bytes[i]);
        }
        lemma_plain_id_unchanged(prev);
        let last = bytes[bytes.len() - 1];
        lemma_encode_byte(last);
        assert(bytes.map_values(|b: u8| b as char) == prev.map_values(|b: u8| b as char).push(
            last as char,
        ));
    }
}

/// A character that may stand in an encoded path segment.
pub open spec fn is_segment_char(c: char) -> bool {
    ||| ('0' <= c <= '9')
    ||| ('A' <= c <= 'Z')
    ||| ('a' <= c <= 'z')
    ||| c == '-'
    ||| c == '_'
    ||| c == '.'
    ||| c == '~'
    ||| c == '%'
}

/// The upper-case hex digit of `n`.
fn hex_digit_upper(n: u8) -> (c: char)
    requires
        n < 16,
    ensures
        c == hex_upper(n as int),
        is_segment_char(c),
{
    if n < 10 {
        (48 + n) as char
    } else {
        (55 + n) as char
    }
}

/// Percent-encodes an external ID for use as one URL path segment: the
/// UTF-8 bytes of `external_id` that are ASCII letters, digits, `-`, `_`,
/// `.` or `~` stay as they are; every other byte becomes `%XX` with upper-case
/// hex digits. The result never holds `/`, `?`, `#` or any character outside
/// that set and `%`.
pub fn encode_external_id(external_id: &str) -> (encoded: String)
    ensures
        encoded@ == percent_encoded(encode_utf8(external_id@)),
        forall|i: int| 0 <= i < encoded@.len() ==> #[trigger] is_segment_char(encoded@[i]),
        percent_decoded(encoded@) == encode_utf8(external_id@),
        vstd::utf8::decode_utf8(percent_decoded(encoded@)) == external_id@,
{
    let bytes = external_id.as_bytes();
    let mut encoded = String::new();
    let mut i: usize = 0;
    while i < bytes.len()
        invariant
            i <= bytes.len(),
            bytes@ == encode_utf8(external_id@),
            encoded@ == percent_encoded(bytes@.take(i as int)),
            forall|k: int| 0 <= k < encoded@.len() ==> #[trigger] is_segment_char(encoded@[k]),
        decreases bytes.len() - i,
    {
        let b = bytes[i];
        let ghost before = encoded@;
        if (48 <= b && b <= 57) || (65 <= b && b <= 90) || (97 <= b && b <= 122) || b == 45 || b == 95
            || b == 46 || b == 126 {
            encoded.push(b as char);
        } else {
            encoded.push('%');
            encoded.push(hex_digit_upper(b / 16));
            encoded.push(hex_digit_upper(b % 16));
        }
        proof {
            assert(bytes@.take(i + 1).drop_last() == bytes@.take(i as int));
            assert(encoded@ == before + encode_byte(b));
            assert forall|k: int| 0 <= k < encoded@.len() implies #[trigger] is_segment_char(
                encoded@[k],
            ) by {
                if k < before.len() {
                    assert(encoded@[k] == before[k]);
                }
            }
        }
        i = i + 1;
    }
    proof {
        assert(bytes@.take(bytes.len() as int) == bytes@);
        lemma_percent_round_trip(bytes@);
        vstd::utf8::encode_utf8_decode_utf8(external_id@);
    }
    encoded
}

/// The value of an upper-case hex digit.
pub open spec fn hex_char_value(c: char) -> int {
    if '0' <= c <= '9' {
        c as int - 48
    } else {
        c as int - 55
    }
}

/// Undoes percent-encoding: `%` and two hex digits stand for one byte,
/// any other character for its own code.
pub open spec fn percent_decoded(s: Seq<char>) -> Seq<u8>
    decreases s.len(),
{
    if s.len() == 0 {
        Seq::empty()
    } else if s[0] == '%' && s.len() >= 3 {
        seq![(hex_char_value(s[1]) * 16 + hex_char_value(s[2])) as u8] + percent_decoded(s.skip(3))
    } else {
        seq![s[0] as u8] + percent_decoded(s.skip(1))
    }
}

proof fn lemma_percent_encoded_concat(a: Seq<u8>, b: Seq<u8>)
    ensures
        percent_encoded(a + b) == percent_encoded(a) + percent_encoded(b),
    decreases b.len(),
{
    if b.len() == 0 {
        assert(a + b == a);
    } else {
        lemma_percent_encoded_concat(a, b.drop_last());
        assert((a + b).drop_last() == a + b.drop_last());
        assert((a + b).last() == b.last());
    }
}

proof fn lemma_decode_encoded_byte(x: u8, rest: Seq<char>)
    ensures
        percent_decoded(encode_byte(x) + rest) == seq![x] + percent_decoded(rest),
{
    let e = encode_byte(x);
    let s = e + rest;
    if is_unreserved_byte(x) {
        assert(s[0] == x as char);
        assert(s.skip(1) == rest);
    } else {
        let hi = x as int / 16;
        let lo = x as int % 16;
        assert(s[0] == '%');
        assert(s[1] == hex_upper(hi));
        assert(s[2] == hex_upper(lo));
        assert(hex_char_value(hex_upper(hi)) == hi);
        assert(hex_char_value(hex_upper(lo)) == lo);
        assert(s.skip(3) == rest);
    }
}

/// Percent-decoding undoes percent-encoding.
pub proof fn lemma_percent_round_trip(bytes: Seq<u8>)
    ensures
        percent_decoded(percent_encoded(bytes)) == bytes,
    decreases bytes.len(),
{
    if bytes.len() > 0 {
        let first = bytes[0];
        let rest = bytes.drop_first();
        assert(bytes == seq![first] + rest);
        lemma_percent_encoded_concat(seq![first], rest);
        assert(seq![first].drop_last() == Seq::<u8>::empty());
        assert(seq![first].last() == first);
        assert(percent_encoded(Seq::<u8>::empty()) == Seq::<char>::empty());
        assert(Seq::<char>::empty() + encode_byte(first) == encode_byte(first));
        assert(percent_encoded(seq![first]) == encode_byte(first));
        lemma_decode_encoded_byte(first, percent_encoded(rest));
        lemma_percent_round_trip(rest);
    }
}

/// Distinct external IDs never share an encoded path segment: the encoding
/// can be undone.
pub proof fn lemma_external_id_encoding_injective(a: Seq<char>, b: Seq<char>)
    requires
        percent_encoded(encode_utf8(a)) == percent_encoded(encode_utf8(b)),
    ensures
        a == b,
{
    lemma_percent_round_trip(encode_utf8(a));
    lemma_percent_round_trip(encode_utf8(b));
    vstd::utf8::encode_utf8_decode_utf8(a);
    vstd::utf8::encode_utf8_decode_utf8(b);
}

/// A single item in a feed replace payload.
#[derive(Debug, Clone)]
pub struct FeedItemInput<V> {
    /// Client-chosen identifier, 255 characters or fewer.
    pub external_id: String,
    /// The item's data.
    pub data: V,
    /// Optional time-to-live, sent as whole seconds and omitted when `None`
    /// (the item is then permanent). Must be between 1 second and 30 days.
    pub ttl: Option<Duration>,
}

impl<V> FeedItemInput<V> {
    /// Builds an input item; parameter order matches the single-item upsert.
    pub fn new(external_id: &str, data: V, ttl: Option<Duration>) -> (item: Self)
        ensures
            item.external_id@ == external_id@,
            item.data == data,
            item.ttl == ttl,
    {
        FeedItemInput { external_id: external_id.to_owned(), data, ttl }
    }

    /// The TTL as sent on the wire: whole seconds, or nothing.
    pub fn ttl_secs(&self) -> (secs: Option<u64>)
        ensures
            secs == ttl_wire_secs(self.ttl),
    {
        wire_ttl(self.ttl)
    }
}

/// A TTL as sent on the wire: whole seconds (fractions are dropped), or nothing.
pub open spec fn ttl_wire_secs(ttl: Option<Duration>) -> Option<u64> {
    match ttl {
        Some(d) => Some((d@ / nanos_per_sec()) as u64),
        None => None,
    }
}

/// A TTL as sent on the wire: whole seconds (fractions are dropped), or nothing.
pub fn wire_ttl(ttl: Option<Duration>) -> (secs: Option<u64>)
    ensures
        secs == ttl_wire_secs(ttl),
{
    match ttl {
        Some(d) => Some(d.as_secs()),
        None => None,
    }
}

/// An item returned by the feeds API; `data` is decoded into the caller's type.
#[derive(Debug, Clone)]
pub struct FeedItem<T> {
    pub id: String,
    pub external_id: String,
    pub data: T,
    pub expires_at: Option<String>,
    pub created_at: Option<String>,
    pub updated_at: Option<String>,
}

/// Counts returned by a feed replace.
#[derive(Debug, Clone, Copy, PartialEq, Eq, Structural)]
pub struct FeedReplaceResult {
    pub created: u64,
    pub updated: u64,
    pub deleted: u64,
}

} // verus!
