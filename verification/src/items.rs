//! Which items of a list a caller asks for: one index or a range.

use vstd::prelude::*;
use vstd::string::StringSliceAdditionalSpecFns;
use vstd::utf8::{
    encode_utf8_valid_utf8, is_char_boundary, is_char_boundary_iff_not_is_continuation_byte,
    is_char_boundary_start_end_of_seq, is_continuation_byte, valid_utf8,
};
use crate::text::{
    all_digits, digits_value, find_first, first_index_of, is_digit, lemma_digits_value_grows,
    lemma_first_index_of,
};

verus! {

/// The byte `-` that parts the two ends of a range.
pub const DASH: u8 = 45;

/// The items asked for.
#[derive(Clone, Copy, Debug, PartialEq, Eq)]
pub enum ItemsSpec {
    /// The item at one index.
    One(usize),
    /// The items from `start` up to `end_exclusive`, which is left out.
    Range { start: usize, end_exclusive: usize },
}

/// Why a text names no items.
#[derive(Clone, Copy, Debug, PartialEq, Eq)]
pub enum ItemsError {
    /// The text before the dash is no number.
    BadStart,
    /// The text behind the dash is no number.
    BadEnd,
    /// The range ends before it starts.
    EndBeforeStart,
    /// The text is no number.
    BadIndex,
}

impl ItemsError {
    /// The text shown for this cause.
    pub open spec fn spec_message(self) -> Seq<char> {
        match self {
            ItemsError::BadStart => "bad items start"@,
            ItemsError::BadEnd => "bad items end"@,
            ItemsError::EndBeforeStart => "items end must be >= start"@,
            ItemsError::BadIndex => "bad items index"@,
        }
    }

    /// Returns the text shown for this cause.
    pub fn message(&self) -> (m: String)
        ensures
            m@ == self.spec_message(),
    {
        let text: &str = match self {
            ItemsError::BadStart => "bad items start",
            ItemsError::BadEnd => "bad items end",
            ItemsError::EndBeforeStart => "items end must be >= start",
            ItemsError::BadIndex => "bad items index",
        };
        text.to_owned()
    }
}

/// Whether a character is white space: one of the characters that
/// Unicode gives the property `White_Space`.
pub open spec fn is_white_space(c: char) -> bool {
    let n = c as u32;
    (0x09 <= n <= 0x0d) || n == 0x20 || n == 0x85 || n == 0xa0 || n == 0x1680 || (0x2000 <= n
        <= 0x200a) || n == 0x2028 || n == 0x2029 || n == 0x202f || n == 0x205f || n == 0x3000
}

/// A text without the white space at its start.
pub open spec fn without_leading_space(s: Seq<char>) -> Seq<char>
    decreases s.len(),
{
    if s.len() > 0 && is_white_space(s[0]) {
        without_leading_space(s.drop_first())
    } else {
        s
    }
}

/// A text without the white space at its end.
pub open spec fn without_trailing_space(s: Seq<char>) -> Seq<char>
    decreases s.len(),
{
    if s.len() > 0 && is_white_space(s.last()) {
        without_trailing_space(s.drop_last())
    } else {
        s
    }
}

/// A text without the white space at its start and at its end.
pub open spec fn trimmed_text(s: Seq<char>) -> Seq<char> {
    without_trailing_space(without_leading_space(s))
}

/// Calls `str::trim`.  Trusted: what comes back is the text without the
/// characters of the Unicode property `White_Space` at its start and at
/// its end.
#[verifier::external_body]
fn trim_text(s: &str) -> (r: &str)
    ensures
        r@ == trimmed_text(s@),
{
    s.trim()
}

/// What parsing `s` as an unsigned decimal of the machine's word size
/// gives: an optional `+`, then at least one digit and nothing else, and
/// a value that fits.
pub open spec fn parse_usize_spec(s: Seq<u8>) -> Option<usize> {
    let d = if s.len() > 0 && s[0] == 43 {
        s.skip(1)
    } else {
        s
    };
    if d.len() > 0 && all_digits(d) && digits_value(d) <= usize::MAX {
        Some(digits_value(d) as usize)
    } else {
        None
    }
}

/// Parses an unsigned decimal of the machine's word size.
pub fn parse_usize(s: &[u8]) -> (r: Option<usize>)
    ensures
        r == parse_usize_spec(s@),
{
    let start: usize = if s.len() > 0 && s[0] == 43 {
        1
    } else {
        0
    };
    let ghost d = s@.skip(start as int);
    assert(s@.skip(0) =~= s@);
    if start == s.len() {
        return None;
    }
    let mut v: usize = 0;
    let mut i: usize = start;
    while i < s.len()
        invariant
            start <= i <= s@.len(),
            d == s@.skip(start as int),
            d == (if s@.len() > 0 && s@[0] == 43 {
                s@.skip(1)
            } else {
                s@
            }),
            d.len() > 0,
            all_digits(d.take(i - start)),
            v == digits_value(d.take(i - start)),
        decreases s@.len() - i,
    {
        let b = s[i];
        proof {
            assert(d.take(i - start + 1).drop_last() =~= d.take(i - start));
            assert(d.take(i - start + 1).last() == b);
            lemma_digits_value_grows(d, i - start + 1);
        }
        if b < 48 || b > 57 {
            assert(!is_digit(d[i - start]));
            return None;
        }
        let digit: usize = (b - 48) as usize;
        if v > (usize::MAX - digit) / 10 {
            return None;
        }
        v = v * 10 + digit;
        proof {
            assert forall|j: int| 0 <= j < i - start + 1 implies is_digit(
                #[trigger] d.take(i - start + 1)[j],
            ) by {
                if j < i - start {
                    assert(d.take(i - start)[j] == d[j]);
                }
            }
        }
        i = i + 1;
    }
    assert(d.take(i - start) =~= d);
    Some(v)
}

/// In valid UTF-8 that starts with an ASCII byte, the second byte starts
/// a character.
proof fn lemma_boundary_behind_ascii(b: Seq<u8>)
    requires
        valid_utf8(b),
        b.len() > 1,
        b[0] < 128,
    ensures
        is_char_boundary(b, 1),
{
    let x = b[0];
    assert(x & 0x80 == 0) by (bit_vector)
        requires
            x < 128,
    ;
    reveal_with_fuel(is_char_boundary, 2);
}

/// Splits a text at its first `-` into what stands before and behind it.
pub fn split_at_dash(s: &str) -> (r: Option<(&str, &str)>)
    ensures
        match r {
            Some((a, b)) => {
                let i = first_index_of(s.spec_bytes(), DASH);
                &&& i >= 0
                &&& a.spec_bytes() == s.spec_bytes().subrange(0, i)
                &&& b.spec_bytes() == s.spec_bytes().subrange(i + 1, s.spec_bytes().len() as int)
            },
            None => first_index_of(s.spec_bytes(), DASH) == -1,
        },
{
    let bytes = s.as_bytes();
    match find_first(bytes, DASH) {
        None => None,
        Some(i) => {
            proof {
                let b = s.spec_bytes();
                lemma_first_index_of(b, DASH);
                encode_utf8_valid_utf8(s@);
                assert(!is_continuation_byte(45u8)) by (bit_vector);
                is_char_boundary_iff_not_is_continuation_byte(b, i as int);
            }
            let (a, rest) = s.split_at(i);
            proof {
                let rb = rest.spec_bytes();
                encode_utf8_valid_utf8(rest@);
                assert(rb[0] == 45u8);
                if rb.len() > 1 {
                    lemma_boundary_behind_ascii(rb);
                } else {
                    is_char_boundary_start_end_of_seq(rb);
                }
            }
            let (dash, b) = rest.split_at(1);
            proof {
                let all = s.spec_bytes();
                assert(b.spec_bytes() =~= all.subrange(i + 1, all.len() as int));
            }
            Some((a, b))
        },
    }
}

/// The items that two texts name as the ends of a range, each without
/// the white space around it.
pub open spec fn range_of(a: Seq<char>, b: Seq<char>) -> Result<ItemsSpec, ItemsError> {
    match parse_usize_spec(vstd::utf8::encode_utf8(trimmed_text(a))) {
        None => Err(ItemsError::BadStart),
        Some(start) => match parse_usize_spec(vstd::utf8::encode_utf8(trimmed_text(b))) {
            None => Err(ItemsError::BadEnd),
            Some(end_exclusive) => if end_exclusive < start {
                Err(ItemsError::EndBeforeStart)
            } else {
                Ok(ItemsSpec::Range { start, end_exclusive })
            },
        },
    }
}

/// The items that a text without white space around it names: a range
/// where it holds a dash, which parts `START` from `END` at the first
/// one, else the one index that it spells.
pub open spec fn items_of_trimmed(t: Seq<char>) -> Result<ItemsSpec, ItemsError> {
    let b = vstd::utf8::encode_utf8(t);
    let i = first_index_of(b, DASH);
    if i >= 0 {
        range_of(
            vstd::utf8::decode_utf8(b.subrange(0, i)),
            vstd::utf8::decode_utf8(b.subrange(i + 1, b.len() as int)),
        )
    } else {
        match parse_usize_spec(b) {
            Some(idx) => Ok(ItemsSpec::One(idx)),
            None => Err(ItemsError::BadIndex),
        }
    }
}

/// Reads the two ends of a range.
pub fn parse_range(a: &str, b: &str) -> (r: Result<ItemsSpec, ItemsError>)
    ensures
        r == range_of(a@, b@),
{
    let start = match parse_usize(trim_text(a).as_bytes()) {
        Some(v) => v,
        None => {
            return Err(ItemsError::BadStart);
        },
    };
    let end_exclusive = match parse_usize(trim_text(b).as_bytes()) {
        Some(v) => v,
        None => {
            return Err(ItemsError::BadEnd);
        },
    };
    if end_exclusive < start {
        return Err(ItemsError::EndBeforeStart);
    }
    Ok(ItemsSpec::Range { start, end_exclusive })
}

/// Reads which items a text asks for, once the white space around it is
/// gone.
pub fn parse_trimmed_items(t: &str) -> (r: Result<ItemsSpec, ItemsError>)
    ensures
        r == items_of_trimmed(t@),
{
    proof {
        lemma_first_index_of(t.spec_bytes(), DASH);
    }
    match split_at_dash(t) {
        Some((a, b)) => {
            proof {
                vstd::utf8::encode_utf8_decode_utf8(a@);
                vstd::utf8::encode_utf8_decode_utf8(b@);
            }
            parse_range(a, b)
        },
        None => match parse_usize(t.as_bytes()) {
            Some(idx) => Ok(ItemsSpec::One(idx)),
            None => Err(ItemsError::BadIndex),
        },
    }
}

/// Reads which items a text asks for: `N` for one item, or `START-END`
/// for a range whose end is left out.  White space around the text and
/// around each number is passed over.
pub fn parse_items_spec(s: &str) -> (r: Result<ItemsSpec, ItemsError>)
    ensures
        r == items_of_trimmed(trimmed_text(s@)),
{
    parse_trimmed_items(trim_text(s))
}

/// The places asked for in a list of `len` items: the first, the one
/// behind the last, and whether one item was asked for.  What lies
/// outside the list is left out.
pub open spec fn indices_of(len: usize, spec: ItemsSpec) -> (usize, usize, bool) {
    match spec {
        ItemsSpec::One(i) => if i >= len {
            (len, len, true)
        } else {
            (i, (i + 1) as usize, true)
        },
        ItemsSpec::Range { start, end_exclusive } => (
            if start < len {
                start
            } else {
                len
            },
            if end_exclusive < len {
                end_exclusive
            } else {
                len
            },
            false,
        ),
    }
}

/// Returns the places asked for in a list of `len` items.
pub fn slice_indices(len: usize, spec: &ItemsSpec) -> (r: (usize, usize, bool))
    ensures
        r == indices_of(len, *spec),
        r.0 <= len,
        r.1 <= len,
{
    match *spec {
        ItemsSpec::One(i) => {
            if i >= len {
                (len, len, true)
            } else {
                (i, i + 1, true)
            }
        },
        ItemsSpec::Range { start, end_exclusive } => {
            let s = if start < len {
                start
            } else {
                len
            };
            let e = if end_exclusive < len {
                end_exclusive
            } else {
                len
            };
            (s, e, false)
        },
    }
}

/// The places to show of a list of `len` items: none where nothing of
/// what was asked for lies inside the list.
pub open spec fn selection_of(len: usize, spec: ItemsSpec) -> Option<(usize, usize, bool)> {
    let r = indices_of(len, spec);
    if r.0 >= r.1 {
        None
    } else {
        Some(r)
    }
}

/// Returns the places to show of a list of `len` items.  What comes back
/// lies inside the list and holds at least one item.
pub fn select_items(len: usize, spec: &ItemsSpec) -> (r: Option<(usize, usize, bool)>)
    ensures
        r == selection_of(len, *spec),
        r matches Some(s) ==> s.0 < s.1 <= len,
{
    let r = slice_indices(len, spec);
    if r.0 >= r.1 {
        None
    } else {
        Some(r)
    }
}

} // verus!
