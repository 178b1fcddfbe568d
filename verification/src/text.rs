//! Text as UTF-8 bytes: building strings, decimal numbers, and searching.
//!
//! Strings that the decoder produces are assembled as bytes and turned into
//! a `String` in one place.  What a string holds is stated through
//! `vstd::utf8::decode_utf8` of those bytes.

use vstd::pervasive::unreached;
use vstd::prelude::*;
use vstd::string::StringSliceAdditionalSpecFns;
use vstd::utf8::{
    decode_utf8, encode_utf8, encode_utf8_decode_utf8, encode_utf8_valid_utf8, is_ascii_chars,
    is_ascii_chars_encode_utf8, valid_utf8,
};

verus! {

#[verifier::external_type_specification]
#[verifier::external_body]
pub struct ExFromUtf8Error(std::string::FromUtf8Error);

/// Calls `String::from_utf8`.  Trusted: it succeeds exactly on valid UTF-8,
/// and the string then holds the bytes it was given.
#[verifier::external_body]
fn string_from_utf8(bytes: Vec<u8>) -> (r: Result<String, std::string::FromUtf8Error>)
    ensures
        r is Ok <==> valid_utf8(bytes@),
        r matches Ok(s) ==> encode_utf8(s@) == bytes@,
{
    String::from_utf8(bytes)
}

/// Whether every byte is an ASCII byte.
pub open spec fn all_ascii(bytes: Seq<u8>) -> bool {
    forall|i: int| 0 <= i < bytes.len() ==> #[trigger] bytes[i] < 128
}

/// ASCII bytes are valid UTF-8.
pub proof fn lemma_ascii_is_utf8(bytes: Seq<u8>)
    requires
        all_ascii(bytes),
    ensures
        valid_utf8(bytes),
{
    let chars = Seq::new(bytes.len(), |i: int| bytes[i] as char);
    assert(is_ascii_chars(chars));
    is_ascii_chars_encode_utf8(chars);
    assert(encode_utf8(chars) =~= bytes);
    encode_utf8_valid_utf8(chars);
}

/// Turns UTF-8 bytes into a string; `None` where they are not UTF-8.
pub fn text_from_utf8(bytes: Vec<u8>) -> (r: Option<String>)
    ensures
        r is Some <==> valid_utf8(bytes@),
        r matches Some(s) ==> s@ == decode_utf8(bytes@),
{
    match string_from_utf8(bytes) {
        Ok(s) => {
            proof {
                encode_utf8_decode_utf8(s@);
            }
            Some(s)
        },
        Err(_) => None,
    }
}

/// Turns ASCII bytes into a string.
pub fn ascii_text(bytes: Vec<u8>) -> (s: String)
    requires
        all_ascii(bytes@),
    ensures
        s@ == decode_utf8(bytes@),
{
    proof {
        lemma_ascii_is_utf8(bytes@);
    }
    match text_from_utf8(bytes) {
        Some(s) => s,
        None => unreached(),
    }
}

/// Whether two byte slices hold the same bytes.
pub fn bytes_eq(a: &[u8], b: &[u8]) -> (r: bool)
    ensures
        r == (a@ == b@),
{
    if a.len() != b.len() {
        return false;
    }
    let mut i: usize = 0;
    while i < a.len()
        invariant
            a@.len() == b@.len(),
            i <= a@.len(),
            forall|j: int| 0 <= j < i ==> a@[j] == b@[j],
        decreases a@.len() - i,
    {
        if a[i] != b[i] {
            return false;
        }
        i = i + 1;
    }
    assert(a@ =~= b@);
    true
}

/// The index of the first `sep` in `s`, or -1 where there is none.
pub open spec fn first_index_of(s: Seq<u8>, sep: u8) -> int
    decreases s.len(),
{
    if s.len() == 0 {
        -1
    } else {
        let before = first_index_of(s.drop_last(), sep);
        if before >= 0 {
            before
        } else if s.last() == sep {
            s.len() - 1
        } else {
            -1
        }
    }
}

/// The index of the last `sep` in `s`, or -1 where there is none.
pub open spec fn last_index_of(s: Seq<u8>, sep: u8) -> int
    decreases s.len(),
{
    if s.len() == 0 {
        -1
    } else if s.last() == sep {
        s.len() - 1
    } else {
        last_index_of(s.drop_last(), sep)
    }
}

/// `first_index_of` is the least index that holds `sep`.
pub proof fn lemma_first_index_of(s: Seq<u8>, sep: u8)
    ensures
        -1 <= first_index_of(s, sep) < s.len(),
        first_index_of(s, sep) >= 0 ==> s[first_index_of(s, sep)] == sep,
        forall|i: int|
            0 <= i < s.len() && (first_index_of(s, sep) < 0 || i < first_index_of(s, sep))
                ==> #[trigger] s[i] != sep,
    decreases s.len(),
{
    if s.len() > 0 {
        lemma_first_index_of(s.drop_last(), sep);
        assert forall|i: int|
            0 <= i < s.len() && (first_index_of(s, sep) < 0 || i < first_index_of(
                s,
                sep,
            )) implies #[trigger] s[i] != sep by {
            if i < s.len() - 1 {
                assert(s.drop_last()[i] == s[i]);
            }
        }
    }
}

/// `last_index_of` is the greatest index that holds `sep`.
pub proof fn lemma_last_index_of(s: Seq<u8>, sep: u8)
    ensures
        -1 <= last_index_of(s, sep) < s.len(),
        last_index_of(s, sep) >= 0 ==> s[last_index_of(s, sep)] == sep,
        forall|i: int| last_index_of(s, sep) < i < s.len() ==> #[trigger] s[i] != sep,
    decreases s.len(),
{
    if s.len() > 0 && s.last() != sep {
        lemma_last_index_of(s.drop_last(), sep);
        assert forall|i: int| last_index_of(s, sep) < i < s.len() implies #[trigger] s[i]
            != sep by {
            if i < s.len() - 1 {
                assert(s.drop_last()[i] == s[i]);
            }
        }
    }
}

/// Finds the first `sep` in `s`.
pub fn find_first(s: &[u8], sep: u8) -> (r: Option<usize>)
    ensures
        match r {
            Some(i) => first_index_of(s@, sep) == i,
            None => first_index_of(s@, sep) == -1,
        },
{
    let mut i: usize = 0;
    while i < s.len()
        invariant
            i <= s@.len(),
            first_index_of(s@.take(i as int), sep) == -1,
        decreases s@.len() - i,
    {
        proof {
            assert(s@.take(i + 1).drop_last() =~= s@.take(i as int));
        }
        if s[i] == sep {
            proof {
                lemma_first_prefix(s@, sep, i as int + 1);
            }
            return Some(i);
        }
        i = i + 1;
    }
    assert(s@.take(i as int) =~= s@);
    None
}

/// Once a prefix of `s` holds `sep`, the first index in `s` is the first
/// index in that prefix.
pub proof fn lemma_first_prefix(s: Seq<u8>, sep: u8, n: int)
    requires
        0 <= n <= s.len(),
        first_index_of(s.take(n), sep) >= 0,
    ensures
        first_index_of(s, sep) == first_index_of(s.take(n), sep),
    decreases s.len() - n,
{
    if n < s.len() {
        assert(s.take(n + 1).drop_last() =~= s.take(n));
        lemma_first_prefix(s, sep, n + 1);
    } else {
        assert(s.take(n) =~= s);
    }
}

/// Finds the last `sep` in `s`.
pub fn find_last(s: &[u8], sep: u8) -> (r: Option<usize>)
    ensures
        match r {
            Some(i) => last_index_of(s@, sep) == i,
            None => last_index_of(s@, sep) == -1,
        },
{
    let mut i: usize = s.len();
    assert(s@.take(i as int) =~= s@);
    while i > 0
        invariant
            i <= s@.len(),
            last_index_of(s@, sep) == last_index_of(s@.take(i as int), sep),
        decreases i,
    {
        proof {
            assert(s@.take(i as int).drop_last() =~= s@.take(i - 1));
        }
        if s[i - 1] == sep {
            return Some(i - 1);
        }
        i = i - 1;
    }
    None
}

/// The decimal digits of `n`, most significant first, without padding.
pub open spec fn decimal(n: nat) -> Seq<u8>
    decreases n,
{
    if n < 10 {
        seq![(48 + n) as u8]
    } else {
        decimal(n / 10).push((48 + n % 10) as u8)
    }
}

/// The decimal digits of `n`, with zeros in front up to `width` digits.
pub open spec fn zero_padded(n: nat, width: nat) -> Seq<u8> {
    let d = decimal(n);
    if d.len() >= width {
        d
    } else {
        Seq::new((width - d.len()) as nat, |i: int| 48u8) + d
    }
}

/// Decimal digits are ASCII, and a `u32` has at most ten of them.
pub proof fn lemma_decimal_ascii(n: nat)
    ensures
        all_ascii(decimal(n)),
        decimal(n).len() >= 1,
        n <= u32::MAX ==> decimal(n).len() <= 10,
    decreases n,
{
    if n >= 10 {
        lemma_decimal_ascii(n / 10);
        if n <= u32::MAX {
            lemma_decimal_len(n);
        }
    }
}

/// A number below `10^k` has at most `k` digits, for the sizes of a `u32`.
proof fn lemma_decimal_len(n: nat)
    requires
        n <= u32::MAX,
    ensures
        decimal(n).len() <= 10,
{
    reveal_with_fuel(decimal, 11);
}

/// Appends the decimal digits of `n` to `out`, zero-padded to `width`.
pub fn push_decimal(out: &mut Vec<u8>, n: u32, width: usize)
    requires
        width <= 16,
    ensures
        final(out)@ == old(out)@ + zero_padded(n as nat, width as nat),
{
    let mut rev: Vec<u8> = Vec::new();
    let mut rest: u32 = n;
    proof {
        lemma_decimal_ascii(n as nat);
    }
    while rest >= 10
        invariant
            decimal(n as nat) == decimal(rest as nat) + rev@.reverse(),
            rev@.len() + decimal(rest as nat).len() == decimal(n as nat).len(),
            decimal(n as nat).len() <= 10,
        decreases rest,
    {
        let d: u8 = 48 + (rest % 10) as u8;
        proof {
            assert(rev@.push(d).reverse() =~= seq![d] + rev@.reverse());
            assert(decimal(rest as nat) == decimal((rest / 10) as nat).push(d));
            assert(decimal((rest / 10) as nat).push(d) + rev@.reverse() =~= decimal(
                (rest / 10) as nat,
            ) + (seq![d] + rev@.reverse()));
        }
        rev.push(d);
        rest = rest / 10;
    }
    let d: u8 = 48 + rest as u8;
    proof {
        assert(rev@.push(d).reverse() =~= seq![d] + rev@.reverse());
        assert(decimal(rest as nat) =~= seq![d]);
    }
    rev.push(d);
    assert(rev@.reverse() =~= decimal(n as nat));
    let ghost digits = rev@;
    while rev.len() < width
        invariant
            width <= 16,
            digits.len() <= rev@.len(),
            digits.len() <= 10,
            rev@.len() == digits.len() || rev@.len() <= width,
            rev@.subrange(0, digits.len() as int) == digits,
            forall|i: int| digits.len() <= i < rev@.len() ==> rev@[i] == 48u8,
        decreases width - rev@.len(),
    {
        rev.push(48u8);
    }
    proof {
        let d = decimal(n as nat);
        assert(digits.reverse() =~= d);
        assert(digits.len() == d.len());
        let want = zero_padded(n as nat, width as nat);
        assert(rev@.len() == want.len());
        assert forall|i: int| 0 <= i < rev@.len() implies #[trigger] rev@.reverse()[i]
            == want[i] by {
            let j = rev@.len() - 1 - i;
            if j < digits.len() {
                assert(rev@[j] == rev@.subrange(0, digits.len() as int)[j]);
                assert(digits.reverse()[digits.len() - 1 - j] == digits[j]);
            }
        }
        assert(rev@.reverse() =~= want);
    }
    let mut k: usize = rev.len();
    let ghost start = out@;
    while k > 0
        invariant
            k <= rev@.len(),
            out@ == start + rev@.reverse().subrange(0, rev@.len() - k),
        decreases k,
    {
        k = k - 1;
        proof {
            let r = rev@.reverse();
            let m = rev@.len() - k - 1;
            assert(r.subrange(0, m + 1) =~= r.subrange(0, m).push(rev@[k as int]));
            assert((start + r.subrange(0, m)).push(rev@[k as int]) =~= start + r.subrange(
                0,
                m + 1,
            ));
        }
        out.push(rev[k]);
    }
    proof {
        let r = rev@.reverse();
        assert(r.subrange(0, rev@.len() as int) =~= r);
    }
}

/// Whether `b` is an ASCII decimal digit.
pub open spec fn is_digit(b: u8) -> bool {
    48 <= b <= 57
}

/// Whether every byte of `s` is a decimal digit.
pub open spec fn all_digits(s: Seq<u8>) -> bool {
    forall|i: int| 0 <= i < s.len() ==> is_digit(#[trigger] s[i])
}

/// The number that the digits in `s` spell; bytes that are no digits are
/// skipped.
pub open spec fn digits_value(s: Seq<u8>) -> nat
    decreases s.len(),
{
    if s.len() == 0 {
        0
    } else if is_digit(s.last()) {
        digits_value(s.drop_last()) * 10 + (s.last() - 48) as nat
    } else {
        digits_value(s.drop_last())
    }
}

/// Whether `s` holds a decimal digit.
pub open spec fn has_digit(s: Seq<u8>) -> bool {
    exists|i: int| 0 <= i < s.len() && is_digit(#[trigger] s[i])
}

/// The number spelled by a prefix is at most the number spelled by the whole.
pub proof fn lemma_digits_value_grows(s: Seq<u8>, n: int)
    requires
        0 <= n <= s.len(),
    ensures
        digits_value(s.take(n)) <= digits_value(s),
    decreases s.len() - n,
{
    if n < s.len() {
        assert(s.take(n + 1).drop_last() =~= s.take(n));
        lemma_digits_value_grows(s, n + 1);
    } else {
        assert(s.take(n) =~= s);
    }
}

/// What parsing `s` as an unsigned 32-bit decimal gives: an optional `+`,
/// then at least one digit and nothing else, and a value that fits.
pub open spec fn parse_u32_spec(s: Seq<u8>) -> Option<u32> {
    let d = if s.len() > 0 && s[0] == 43 {
        s.skip(1)
    } else {
        s
    };
    if d.len() > 0 && all_digits(d) && digits_value(d) <= u32::MAX {
        Some(digits_value(d) as u32)
    } else {
        None
    }
}

/// Parses an unsigned 32-bit decimal.
pub fn parse_u32(s: &[u8]) -> (r: Option<u32>)
    ensures
        r == parse_u32_spec(s@),
{
    let start: usize = if s.len() > 0 && s[0] == 43 {
        1
    } else {
        0
    };
    let ghost d = s@.skip(start as int);
    assert(s@.skip(0) =~= s@);
    if start == s.len() {
        return None;
    }
    let mut v: u32 = 0;
    let mut i: usize = start;
    while i < s.len()
        invariant
            start <= i <= s@.len(),
            d == s@.skip(start as int),
            d == (if s@.len() > 0 && s@[0] == 43 {
                s@.skip(1)
            } else {
                s@
            }),
            d.len() > 0,
            all_digits(d.take(i - start)),
            v == digits_value(d.take(i - start)),
        decreases s@.len() - i,
    {
        let b = s[i];
        proof {
            assert(d.take(i - start + 1).drop_last() =~= d.take(i - start));
            assert(d.take(i - start + 1).last() == b);
            lemma_digits_value_grows(d, i - start + 1);
        }
        if b < 48 || b > 57 {
            assert(!is_digit(d[i - start]));
            return None;
        }
        let digit: u32 = (b - 48) as u32;
        if v > (u32::MAX - digit) / 10 {
            return None;
        }
        v = v * 10 + digit;
        proof {
            assert forall|j: int| 0 <= j < i - start + 1 implies is_digit(
                #[trigger] d.take(i - start + 1)[j],
            ) by {
                if j < i - start {
                    assert(d.take(i - start)[j] == d[j]);
                }
            }
        }
        i = i + 1;
    }
    assert(d.take(i - start) =~= d);
    Some(v)
}

/// The number that the digits scattered in `s` spell, or zero where there
/// is no digit or the number does not fit 32 bits.
pub open spec fn scattered_u32(s: Seq<u8>) -> u32 {
    if has_digit(s) && digits_value(s) <= u32::MAX {
        digits_value(s) as u32
    } else {
        0
    }
}

/// Reads the digits scattered in `s` as one number.
pub fn parse_scattered_u32(s: &[u8]) -> (r: u32)
    ensures
        r == scattered_u32(s@),
{
    let mut v: u32 = 0;
    let mut saw: bool = false;
    let mut i: usize = 0;
    while i < s.len()
        invariant
            i <= s@.len(),
            saw == has_digit(s@.take(i as int)),
            v == digits_value(s@.take(i as int)),
        decreases s@.len() - i,
    {
        let b = s[i];
        let ghost next = s@.take(i + 1);
        proof {
            assert(next.drop_last() =~= s@.take(i as int));
            assert(next.last() == b);
            lemma_digits_value_grows(s@, i + 1);
            if has_digit(s@.take(i as int)) {
                let w = choose|w: int|
                    0 <= w < s@.take(i as int).len() && is_digit(#[trigger] s@.take(i as int)[w]);
                assert(is_digit(next[w]));
            }
            if has_digit(next) && !is_digit(b) {
                let w = choose|w: int| 0 <= w < next.len() && is_digit(#[trigger] next[w]);
                assert(is_digit(s@.take(i as int)[w]));
            }
        }
        if 48 <= b && b <= 57 {
            assert(is_digit(next[i as int]));
            saw = true;
            let digit: u32 = (b - 48) as u32;
            if v > (u32::MAX - digit) / 10 {
                return 0;
            }
            v = v * 10 + digit;
        }
        i = i + 1;
    }
    assert(s@.take(i as int) =~= s@);
    if saw {
        v
    } else {
        0
    }
}

/// Whether two strings hold the same text.
pub fn str_eq(a: &str, b: &str) -> (r: bool)
    ensures
        r == (a@ == b@),
{
    proof {
        encode_utf8_decode_utf8(a@);
        encode_utf8_decode_utf8(b@);
    }
    bytes_eq(a.as_bytes(), b.as_bytes())
}

} // verus!
