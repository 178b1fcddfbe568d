//! Accessions: the `PREFIX:TAIL` names of controlled-vocabulary terms.

use vstd::pervasive::unreached;
use vstd::prelude::*;
use vstd::slice::slice_subrange;
use vstd::string::StringSliceAdditionalSpecFns;
use vstd::utf8::{
    decode_utf8, encode_utf8, encode_utf8_decode_utf8, encode_utf8_valid_utf8, is_ascii_chars,
    is_ascii_chars_encode_utf8, is_char_boundary, is_char_boundary_iff_not_is_continuation_byte,
    is_char_boundary_start_end_of_seq, is_continuation_byte, valid_utf8, valid_utf8_concat,
};
use crate::text::{
    all_ascii, bytes_eq, decimal, find_first, find_last, first_index_of, last_index_of,
    lemma_ascii_is_utf8, lemma_decimal_ascii, lemma_first_index_of, parse_scattered_u32, parse_u32,
    parse_u32_spec, push_decimal, scattered_u32, text_from_utf8, zero_padded,
};

verus! {

/// Code of the `MS` vocabulary in a metadata block.
pub const CODE_MS: u8 = 0;

/// Code of the `UO` vocabulary in a metadata block.
pub const CODE_UO: u8 = 1;

/// Code of the `NCIT` vocabulary in a metadata block.
pub const CODE_NCIT: u8 = 2;

/// Code of the `PEFF` vocabulary in a metadata block.
pub const CODE_PEFF: u8 = 3;

/// The byte `:` that parts a prefix from a tail.
pub const COLON: u8 = 58;

/// The bytes of `MS`.
pub open spec fn prefix_ms() -> Seq<u8> {
    seq![77u8, 83u8]
}

/// The bytes of `UO`.
pub open spec fn prefix_uo() -> Seq<u8> {
    seq![85u8, 79u8]
}

/// The bytes of `NCIT`.
pub open spec fn prefix_ncit() -> Seq<u8> {
    seq![78u8, 67u8, 73u8, 84u8]
}

/// The bytes of `PEFF`.
pub open spec fn prefix_peff() -> Seq<u8> {
    seq![80u8, 69u8, 70u8, 70u8]
}

/// The bytes of `B000`, the prefix under which attributes are filed.
pub open spec fn prefix_attr() -> Seq<u8> {
    seq![66u8, 48u8, 48u8, 48u8]
}

/// The text that UTF-8 bytes spell, where there are any.
pub open spec fn text_of(b: Option<Seq<u8>>) -> Option<Seq<char>> {
    match b {
        Some(x) => Some(decode_utf8(x)),
        None => None,
    }
}

/// The bytes of an optional string.
pub open spec fn bytes_of(s: Option<&str>) -> Option<Seq<u8>> {
    match s {
        Some(x) => Some(x.spec_bytes()),
        None => None,
    }
}

/// A string whose characters are the ASCII bytes `b` holds exactly `b`.
pub proof fn lemma_ascii_str_bytes(s: &str, b: Seq<u8>)
    requires
        s@.len() == b.len(),
        forall|i: int| 0 <= i < b.len() ==> b[i] < 128 && s@[i] as u8 == #[trigger] b[i],
        is_ascii_chars(s@),
    ensures
        s.spec_bytes() == b,
        decode_utf8(b) == s@,
{
    is_ascii_chars_encode_utf8(s@);
    assert(encode_utf8(s@) =~= b);
    encode_utf8_decode_utf8(s@);
}

/// The prefix that a vocabulary code stands for.
pub open spec fn prefix_of_code(c: u8) -> Option<Seq<u8>> {
    if c == CODE_MS {
        Some(prefix_ms())
    } else if c == CODE_UO {
        Some(prefix_uo())
    } else if c == CODE_NCIT {
        Some(prefix_ncit())
    } else if c == CODE_PEFF {
        Some(prefix_peff())
    } else {
        None
    }
}

/// Returns the prefix that a vocabulary code stands for; any other code,
/// such as `0xFF`, stands for none.
pub fn cv_ref_from_code(c: u8) -> (r: Option<&'static str>)
    ensures
        bytes_of(r) == prefix_of_code(c),
        text_of(prefix_of_code(c)) == r.deep_view(),
{
    if c == CODE_MS {
        proof {
            reveal_strlit("MS");
            lemma_ascii_str_bytes("MS", prefix_ms());
        }
        Some("MS")
    } else if c == CODE_UO {
        proof {
            reveal_strlit("UO");
            lemma_ascii_str_bytes("UO", prefix_uo());
        }
        Some("UO")
    } else if c == CODE_NCIT {
        proof {
            reveal_strlit("NCIT");
            lemma_ascii_str_bytes("NCIT", prefix_ncit());
        }
        Some("NCIT")
    } else if c == CODE_PEFF {
        proof {
            reveal_strlit("PEFF");
            lemma_ascii_str_bytes("PEFF", prefix_peff());
        }
        Some("PEFF")
    } else {
        None
    }
}

/// Whether `p` is the prefix of one of the four controlled vocabularies.
pub open spec fn is_cv_prefix_bytes(p: Seq<u8>) -> bool {
    p == prefix_ms() || p == prefix_uo() || p == prefix_ncit() || p == prefix_peff()
}

/// Whether `p` is the prefix of one of the four controlled vocabularies.
pub fn is_cv_prefix_slice(p: &[u8]) -> (r: bool)
    ensures
        r == is_cv_prefix_bytes(p@),
{
    let ms: [u8; 2] = [77, 83];
    let uo: [u8; 2] = [85, 79];
    let ncit: [u8; 4] = [78, 67, 73, 84];
    let peff: [u8; 4] = [80, 69, 70, 70];
    assert(ms@ =~= prefix_ms());
    assert(uo@ =~= prefix_uo());
    assert(ncit@ =~= prefix_ncit());
    assert(peff@ =~= prefix_peff());
    bytes_eq(p, ms.as_slice()) || bytes_eq(p, uo.as_slice()) || bytes_eq(p, ncit.as_slice())
        || bytes_eq(p, peff.as_slice())
}

/// Whether `p` is `MS`, `UO`, `NCIT` or `PEFF`.
pub fn is_cv_prefix(p: &str) -> (r: bool)
    ensures
        r == is_cv_prefix_bytes(p.spec_bytes()),
{
    is_cv_prefix_slice(p.as_bytes())
}

/// Whether `p` is `B000`.
pub fn is_attr_prefix(p: &[u8]) -> (r: bool)
    ensures
        r == (p@ == prefix_attr()),
{
    let attr: [u8; 4] = [66, 48, 48, 48];
    assert(attr@ =~= prefix_attr());
    bytes_eq(p, attr.as_slice())
}

/// The bytes of the accession made of a prefix and a numeric tail.
///
/// A tail of zero stands for no accession.  `MS`, `UO` and `PEFF` pad the
/// tail to seven digits; `NCIT` writes `C` and pads to five; any other
/// prefix writes the tail as it is; without a prefix the tail stands alone.
pub open spec fn accession_bytes(prefix: Option<Seq<u8>>, a: u32) -> Option<Seq<u8>> {
    if a == 0 {
        None
    } else {
        match prefix {
            None => Some(decimal(a as nat)),
            Some(p) => if p == prefix_ms() || p == prefix_uo() || p == prefix_peff() {
                Some(p + seq![COLON] + zero_padded(a as nat, 7))
            } else if p == prefix_ncit() {
                Some(p + seq![COLON, 67u8] + zero_padded(a as nat, 5))
            } else {
                Some(p + seq![COLON] + decimal(a as nat))
            },
        }
    }
}

/// Zero-padded decimals are ASCII.
pub proof fn lemma_zero_padded_ascii(n: nat, width: nat)
    ensures
        all_ascii(zero_padded(n, width)),
{
    lemma_decimal_ascii(n);
    let d = decimal(n);
    let z = zero_padded(n, width);
    assert forall|i: int| 0 <= i < z.len() implies #[trigger] z[i] < 128 by {
        if d.len() < width && i >= width - d.len() {
            assert(z[i] == d[i - (width - d.len())]);
        }
    }
}

/// Makes the accession of a prefix and a numeric tail.
pub fn make_accession(r: Option<&str>, a: u32) -> (acc: Option<String>)
    ensures
        acc.deep_view() == text_of(accession_bytes(bytes_of(r), a)),
{
    if a == 0 {
        return None;
    }
    let mut out: Vec<u8> = Vec::new();
    match r {
        None => {
            push_decimal(&mut out, a, 1);
            proof {
                lemma_decimal_ascii(a as nat);
                assert(out@ =~= decimal(a as nat));
                lemma_ascii_is_utf8(out@);
            }
        },
        Some(p) => {
            let pb = p.as_bytes();
            out.extend_from_slice(pb);
            let ghost head = out@;
            let wide = is_cv_prefix_slice(pb);
            let ncit: [u8; 4] = [78, 67, 73, 84];
            assert(ncit@ =~= prefix_ncit());
            let is_ncit = bytes_eq(pb, ncit.as_slice());
            out.push(COLON);
            if is_ncit {
                out.push(67u8);
                push_decimal(&mut out, a, 5);
            } else if wide {
                push_decimal(&mut out, a, 7);
            } else {
                push_decimal(&mut out, a, 1);
            }
            proof {
                lemma_decimal_ascii(a as nat);
                lemma_zero_padded_ascii(a as nat, 5);
                lemma_zero_padded_ascii(a as nat, 7);
                assert(zero_padded(a as nat, 1) == decimal(a as nat));
                assert(head =~= pb@);
                let tail = out@.subrange(head.len() as int, out@.len() as int);
                assert(out@ =~= head + tail);
                assert(all_ascii(tail));
                lemma_ascii_is_utf8(tail);
                encode_utf8_valid_utf8(p@);
                valid_utf8_concat(head, tail);
                assert(out@ =~= accession_bytes(bytes_of(r), a).unwrap());
            }
        },
    }
    match text_from_utf8(out) {
        Some(s) => Some(s),
        None => unreached(),
    }
}

/// The part of `s` behind its last `:`, or all of `s` where it has none.
pub open spec fn tail_bytes(s: Seq<u8>) -> Seq<u8> {
    s.subrange(last_index_of(s, COLON) + 1, s.len() as int)
}

/// Borrows the part of `s` behind its last `:`.
pub fn tail_slice(s: &[u8]) -> (t: &[u8])
    ensures
        t@ == tail_bytes(s@),
{
    proof {
        crate::text::lemma_last_index_of(s@, COLON);
    }
    let n = s.len();
    match find_last(s, COLON) {
        Some(i) => slice_subrange(s, i + 1, n),
        None => slice_subrange(s, 0, n),
    }
}

/// The numeric tail of an accession when the tail is read strictly: the
/// part behind the last `:` must be a decimal number that fits 32 bits,
/// else the tail counts as zero.
pub open spec fn acc_tail(acc: Option<Seq<u8>>) -> u32 {
    match acc {
        None => 0,
        Some(s) => match parse_u32_spec(tail_bytes(s)) {
            Some(v) => v,
            None => 0,
        },
    }
}

/// Reads the numeric tail of an accession strictly.
pub fn parse_acc_tail(acc: Option<&str>) -> (t: u32)
    ensures
        t == acc_tail(bytes_of(acc)),
{
    match acc {
        None => 0,
        Some(s) => match parse_u32(tail_slice(s.as_bytes())) {
            Some(v) => v,
            None => 0,
        },
    }
}

/// Reads the numeric tail of an accession leniently: the digits behind the
/// last `:` are read as one number and everything else is skipped, so that
/// `NCIT:C12345` gives 12345.  No digit, or a number that does not fit 32
/// bits, gives zero.
pub fn parse_accession_tail_str(acc: &str) -> (t: u32)
    ensures
        t == scattered_u32(tail_bytes(acc.spec_bytes())),
{
    parse_scattered_u32(tail_slice(acc.as_bytes()))
}

/// Splits an accession at its first `:` into prefix and tail.
pub fn split_prefix(acc: &str) -> (r: Option<(&str, &str)>)
    ensures
        match r {
            Some((p, t)) => {
                let i = first_index_of(acc.spec_bytes(), COLON);
                &&& i >= 0
                &&& p.spec_bytes() == acc.spec_bytes().subrange(0, i)
                &&& t.spec_bytes() == acc.spec_bytes().subrange(
                    i + 1,
                    acc.spec_bytes().len() as int,
                )
            },
            None => first_index_of(acc.spec_bytes(), COLON) == -1,
        },
{
    let bytes = acc.as_bytes();
    match find_first(bytes, COLON) {
        None => None,
        Some(i) => {
            proof {
                let b = acc.spec_bytes();
                lemma_first_index_of(b, COLON);
                encode_utf8_valid_utf8(acc@);
                assert(!is_continuation_byte(58u8)) by (bit_vector);
                is_char_boundary_iff_not_is_continuation_byte(b, i as int);
            }
            let (p, rest) = acc.split_at(i);
            proof {
                let rb = rest.spec_bytes();
                encode_utf8_valid_utf8(rest@);
                assert(rb[0] == 58u8);
                if rb.len() > 1 {
                    lemma_second_is_boundary(rb);
                } else {
                    is_char_boundary_start_end_of_seq(rb);
                }
            }
            let (colon, t) = rest.split_at(1);
            proof {
                let b = acc.spec_bytes();
                assert(t.spec_bytes() =~= b.subrange(i + 1, b.len() as int));
            }
            Some((p, t))
        },
    }
}

/// In valid UTF-8 that starts with an ASCII byte, the second byte starts a
/// character.
proof fn lemma_second_is_boundary(b: Seq<u8>)
    requires
        valid_utf8(b),
        b.len() > 1,
        b[0] < 128,
    ensures
        is_char_boundary(b, 1),
{
    let x = b[0];
    assert(x & 0x80 == 0) by (bit_vector)
        requires
            x < 128,
    ;
    reveal_with_fuel(is_char_boundary, 2);
}

/// The vocabulary prefix of a unit accession: the part before its first
/// `:`, where it has one.
pub fn unit_cv_ref(unit_accession: &Option<String>) -> (r: Option<String>)
    ensures
        match unit_accession {
            None => r is None,
            Some(u) => {
                let b = encode_utf8(u@);
                let i = first_index_of(b, COLON);
                if i < 0 {
                    r is None
                } else {
                    r is Some && encode_utf8(r->Some_0@) == b.subrange(0, i)
                }
            },
        },
{
    match unit_accession {
        None => None,
        Some(u) => match split_prefix(u.as_str()) {
            None => None,
            Some((p, _)) => Some(p.to_owned()),
        },
    }
}

/// The attribute that an accession names: the tail of an accession whose
/// prefix is `B000` and whose tail is a decimal number.
pub open spec fn attr_tail(acc: Option<Seq<u8>>) -> Option<u32> {
    match acc {
        None => None,
        Some(s) => {
            let i = first_index_of(s, COLON);
            if i < 0 || s.subrange(0, i) != prefix_attr() {
                None
            } else {
                parse_u32_spec(s.subrange(i + 1, s.len() as int))
            }
        },
    }
}

/// Reads the attribute that an accession names.
pub fn b000_tail(acc: Option<&str>) -> (r: Option<u32>)
    ensures
        r == attr_tail(bytes_of(acc)),
{
    match acc {
        None => None,
        Some(s) => {
            let b = s.as_bytes();
            let n = b.len();
            proof {
                lemma_first_index_of(b@, COLON);
            }
            match find_first(b, COLON) {
                None => None,
                Some(i) => {
                    if !is_attr_prefix(slice_subrange(b, 0, i)) {
                        None
                    } else {
                        parse_u32(slice_subrange(b, i + 1, n))
                    }
                },
            }
        },
    }
}

} // verus!
