//! Decimal rendering and parsing of unsigned integers, and the string
//! building blocks the rest of the library writes with.

use vstd::prelude::*;

verus! {

/// Appends one character to a `String` (std's `String::push`).
pub assume_specification[ String::push ](s: &mut String, ch: char)
    ensures
        final(s)@ == old(s)@.push(ch),
;

/// Appends a string slice to a `String` (std's `String::push_str`).
pub assume_specification[ String::push_str ](s: &mut String, string: &str)
    ensures
        final(s)@ == old(s)@ + string@,
;

/// The ASCII character of decimal digit `d`.
pub open spec fn digit_char(d: int) -> char {
    if d == 0 {
        '0'
    } else if d == 1 {
        '1'
    } else if d == 2 {
        '2'
    } else if d == 3 {
        '3'
    } else if d == 4 {
        '4'
    } else if d == 5 {
        '5'
    } else if d == 6 {
        '6'
    } else if d == 7 {
        '7'
    } else if d == 8 {
        '8'
    } else {
        '9'
    }
}

/// The decimal text of `n`, without leading zeros (`0` is `"0"`).
pub open spec fn decimal(n: nat) -> Seq<char>
    decreases n,
{
    if n < 10 {
        seq![digit_char(n as int)]
    } else {
        decimal(n / 10).push(digit_char((n % 10) as int))
    }
}

/// The decimal text of `n`, left-padded with `'0'` to at least `width` characters.
pub open spec fn zero_padded(n: nat, width: nat) -> Seq<char> {
    let digits = decimal(n);
    if digits.len() >= width {
        digits
    } else {
        Seq::new((width - digits.len()) as nat, |i: int| '0') + digits
    }
}

/// The text of an optional string slice.
pub open spec fn opt_str(s: Option<&str>) -> Option<Seq<char>> {
    match s {
        Some(t) => Some(t@),
        None => None,
    }
}

/// `c` is an ASCII decimal digit.
pub open spec fn is_digit(c: char) -> bool {
    '0' <= c <= '9'
}

/// The value of an ASCII decimal digit.
pub open spec fn digit_value(c: char) -> int {
    c as int - 48
}

/// The value of a string of decimal digits (the empty string is 0).
pub open spec fn digits_value(s: Seq<char>) -> nat
    decreases s.len(),
{
    if s.len() == 0 {
        0
    } else {
        (digits_value(s.drop_last()) * 10 + digit_value(s.last())) as nat
    }
}

/// Number of characters in the decimal text of `n`.
pub fn decimal_len(n: u64) -> (len: usize)
    ensures
        len as nat == decimal(n as nat).len(),
        1 <= len <= 20,
    decreases n,
{
    if n < 10 {
        1
    } else {
        let rest = decimal_len(n / 10);
        proof {
            assert(n / 10 < 0x1999_9999_9999_999a);
            if rest == 20 {
                // twenty digits already need at least 10^19
                lemma_decimal_len_bound((n / 10) as nat, 18);
                reveal_with_fuel(pow10, 20);
                assert(pow10(19) == 10_000_000_000_000_000_000);
            }
        }
        rest + 1
    }
}

/// `10^k`.
pub open spec fn pow10(k: nat) -> nat
    decreases k,
{
    if k == 0 {
        1
    } else {
        10 * pow10((k - 1) as nat)
    }
}

/// A number whose decimal text has at least `k + 2` digits is at least `10^(k+1)`.
proof fn lemma_decimal_len_bound(n: nat, k: nat)
    ensures
        decimal(n).len() >= k + 2 ==> n >= pow10(k + 1),
    decreases n,
{
    if n >= 10 {
        assert(decimal(n).len() == decimal(n / 10).len() + 1);
        assert(pow10(k + 1) == 10 * pow10(k));
        if k >= 1 {
            lemma_decimal_len_bound(n / 10, (k - 1) as nat);
            assert(pow10(k) == 10 * pow10((k - 1) as nat));
        } else {
            assert(pow10(0) == 1);
        }
    } else {
        assert(decimal(n).len() == 1);
    }
}

/// A number below `10^k` has at most `k` decimal digits (for `k >= 1`).
pub proof fn lemma_decimal_len_at_most(n: nat, k: nat)
    requires
        k >= 1,
        n < pow10(k),
    ensures
        decimal(n).len() <= k,
    decreases k,
{
    if n >= 10 {
        assert(pow10(k) == 10 * pow10((k - 1) as nat));
        if k == 1 {
            assert(pow10(0) == 1);
        } else {
            lemma_decimal_len_at_most(n / 10, (k - 1) as nat);
        }
    }
}

/// Zero-padding a number below `10^w` to `w` places gives exactly `w` characters.
pub proof fn lemma_zero_padded_len(n: nat, w: nat)
    requires
        w >= 1,
        n < pow10(w),
    ensures
        zero_padded(n, w).len() == w,
{
    lemma_decimal_len_at_most(n, w);
}

/// Appends the decimal text of `n` to `out`.
pub fn push_decimal(out: &mut String, n: u64)
    ensures
        final(out)@ == old(out)@ + decimal(n as nat),
    decreases n,
{
    if n < 10 {
        out.push(digit_to_char(n));
    } else {
        push_decimal(out, n / 10);
        out.push(digit_to_char(n % 10));
        proof {
            assert(old(out)@ + decimal(n as nat) == old(out)@ + decimal((n / 10) as nat) + seq![
                digit_char((n % 10) as int),
            ]);
        }
    }
}

/// Appends the decimal text of `n`, left-padded with zeros to `width` characters.
pub fn push_zero_padded(out: &mut String, n: u64, width: usize)
    ensures
        final(out)@ == old(out)@ + zero_padded(n as nat, width as nat),
{
    let len = decimal_len(n);
    let ghost start = out@;
    if len < width {
        let pad = width - len;
        let mut i: usize = 0;
        while i < pad
            invariant
                i <= pad,
                out@ == start + Seq::new(i as nat, |k: int| '0'),
            decreases pad - i,
        {
            out.push('0');
            i = i + 1;
            proof {
                assert(out@ == start + Seq::new(i as nat, |k: int| '0'));
            }
        }
        push_decimal(out, n);
        proof {
            assert(out@ == start + (Seq::new(pad as nat, |k: int| '0') + decimal(n as nat)));
        }
    } else {
        push_decimal(out, n);
    }
}

/// The character of a decimal digit.
pub fn digit_to_char(d: u64) -> (c: char)
    requires
        d < 10,
    ensures
        c == digit_char(d as int),
{
    if d == 0 {
        '0'
    } else if d == 1 {
        '1'
    } else if d == 2 {
        '2'
    } else if d == 3 {
        '3'
    } else if d == 4 {
        '4'
    } else if d == 5 {
        '5'
    } else if d == 6 {
        '6'
    } else if d == 7 {
        '7'
    } else if d == 8 {
        '8'
    } else {
        '9'
    }
}

/// The decimal text of `n` as a new `String`.
pub fn decimal_string(n: u64) -> (s: String)
    ensures
        s@ == decimal(n as nat),
{
    let mut s = String::new();
    push_decimal(&mut s, n);
    s
}


/// The characters of `s`, in order.
pub fn chars_of(s: &str) -> (v: Vec<char>)
    ensures
        v@ == s@,
{
    let mut v: Vec<char> = Vec::new();
    for c in it: s.chars()
        invariant
            v@ == it.seq().take(it.index() as int),
            it.seq() == s@,
    {
        v.push(c);
    }
    v
}


/// Every character of `s` is an ASCII decimal digit.
pub open spec fn all_digits(s: Seq<char>) -> bool {
    forall|i: int| 0 <= i < s.len() ==> #[trigger] is_digit(s[i])
}

/// What `u64::from_str` gives for the text `s`: an optional `+` sign
/// followed by at least one decimal digit, with a value that fits in 64 bits.
pub open spec fn u64_from_str(s: Seq<char>) -> Option<u64> {
    let digits = if s.len() > 0 && s[0] == '+' { s.drop_first() } else { s };
    if digits.len() > 0 && all_digits(digits) && digits_value(digits) <= u64::MAX {
        Some(digits_value(digits) as u64)
    } else {
        None
    }
}

/// Parses the decimal digits `s[start..]` (at least one) into a `u64`;
/// `None` when one of them is not a digit or the value does not fit.
fn parse_digits_from(s: &Vec<char>, start: usize) -> (r: Option<u64>)
    requires
        start <= s.len(),
    ensures
        ({
            let digits = s@.subrange(start as int, s.len() as int);
            r == if digits.len() > 0 && all_digits(digits) && digits_value(digits) <= u64::MAX {
                Some(digits_value(digits) as u64)
            } else {
                None::<u64>
            }
        }),
{
    let ghost digits = s@.subrange(start as int, s.len() as int);
    if start == s.len() {
        return None;
    }
    let mut acc: u64 = 0;
    let mut overflow = false;
    let mut i = start;
    while i < s.len()
        invariant
            start <= i <= s.len(),
            digits == s@.subrange(start as int, s.len() as int),
            all_digits(digits.take(i - start)),
            !overflow ==> acc as nat == digits_value(digits.take(i - start)),
            overflow ==> digits_value(digits.take(i - start)) > u64::MAX,
        decreases s.len() - i,
    {
        let c = s[i];
        if !('0' <= c && c <= '9') {
            proof {
                assert(digits[i - start] == c);
                assert(!is_digit(digits[i - start]));
            }
            return None;
        }
        let d = (c as u64) - 48;
        proof {
            let prefix = digits.take(i - start + 1);
            assert(prefix.drop_last() == digits.take(i - start));
            assert(prefix.last() == c);
            assert(digits_value(prefix) == digits_value(digits.take(i - start)) * 10 + d);
            assert forall|k: int| 0 <= k < prefix.len() implies #[trigger] is_digit(prefix[k]) by {
                if k < i - start {
                    assert(prefix[k] == digits.take(i - start)[k]);
                }
            }
        }
        if !overflow {
            if acc > 1_844_674_407_370_955_161 || (acc == 1_844_674_407_370_955_161 && d > 5) {
                overflow = true;
            } else {
                acc = acc * 10 + d;
            }
        }
        i = i + 1;
    }
    proof {
        assert(digits.take(i - start) == digits);
    }
    if overflow {
        None
    } else {
        Some(acc)
    }
}

/// Parses `s` as `u64::from_str` does.
pub fn parse_u64_chars(s: &Vec<char>) -> (r: Option<u64>)
    ensures
        r == u64_from_str(s@),
{
    if s.len() > 0 && s[0] == '+' {
        let r = parse_digits_from(s, 1);
        proof {
            assert(s@.subrange(1, s.len() as int) == s@.drop_first());
        }
        r
    } else {
        let r = parse_digits_from(s, 0);
        proof {
            assert(s@.subrange(0, s.len() as int) == s@);
        }
        r
    }
}

/// Parses `s` as `u64::from_str` does: an optional `+` followed by decimal
/// digits whose value fits in a `u64`.
pub fn parse_u64(s: &str) -> (r: Option<u64>)
    ensures
        r == u64_from_str(s@),
{
    parse_u64_chars(&chars_of(s))
}


proof fn lemma_digit_char(k: int)
    requires
        0 <= k < 10,
    ensures
        is_digit(digit_char(k)),
        digit_value(digit_char(k)) == k,
{
    if k == 0 {
    } else if k == 1 {
    } else if k == 2 {
    } else if k == 3 {
    } else if k == 4 {
    } else if k == 5 {
    } else if k == 6 {
    } else if k == 7 {
    } else if k == 8 {
    } else {
    }
}

/// The decimal text of a number is all digits, and reading it back gives the number.
pub proof fn lemma_decimal_round_trip(n: nat)
    ensures
        all_digits(decimal(n)),
        decimal(n).len() > 0,
        digits_value(decimal(n)) == n,
    decreases n,
{
    if n >= 10 {
        lemma_decimal_round_trip(n / 10);
        let prev = decimal(n / 10);
        let d = digit_char((n % 10) as int);
        lemma_digit_char((n % 10) as int);
        assert(decimal(n) == prev.push(d));
        assert(decimal(n).drop_last() == prev);
        assert(decimal(n).last() == d);
        assert(digits_value(decimal(n)) == digits_value(prev) * 10 + digit_value(d));
        assert forall|i: int| 0 <= i < decimal(n).len() implies #[trigger] is_digit(decimal(n)[i]) by {
            if i < prev.len() {
                assert(decimal(n)[i] == prev[i]);
            }
        }
    } else {
        lemma_digit_char(n as int);
        assert(decimal(n).drop_last() == Seq::<char>::empty());
        assert(digits_value(decimal(n)) == digits_value(Seq::<char>::empty()) * 10 + digit_value(
            decimal(n).last(),
        ));
    }
}

/// Parsing the decimal text of a `u64` gives the number back.
pub proof fn lemma_parse_decimal(n: u64)
    ensures
        u64_from_str(decimal(n as nat)) == Some(n),
{
    lemma_decimal_round_trip(n as nat);
    assert(is_digit(decimal(n as nat)[0]));
}

} // verus!
