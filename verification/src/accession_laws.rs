//! What holds of accessions as the decoder writes them: they are read
//! back as the vocabulary and the number that they were made from.

use vstd::prelude::*;
use vstd::utf8::decode_utf8_encode_utf8;
use crate::accession::{
    acc_tail, accession_bytes, COLON, is_cv_prefix_bytes, lemma_zero_padded_ascii, prefix_ncit,
    prefix_of_code, tail_bytes, text_of,
};
use crate::meta_encode::{acc_code, acc_number};
use crate::meta_laws::normal;
use crate::params::CvParamModel;
use crate::text::{
    all_ascii, all_digits, decimal, digits_value, first_index_of, has_digit, is_digit,
    last_index_of, lemma_ascii_is_utf8, lemma_decimal_ascii, lemma_first_index_of,
    lemma_last_index_of, zero_padded,
};

verus! {

/// The decimal digits of a number are digits, and they spell the number.
pub proof fn lemma_decimal_spells(n: nat)
    ensures
        all_digits(decimal(n)),
        digits_value(decimal(n)) == n,
        decimal(n).len() >= 1,
    decreases n,
{
    if n < 10 {
        let d = decimal(n);
        assert(d.drop_last() =~= Seq::<u8>::empty());
        assert(digits_value(d.drop_last()) == 0);
        assert(is_digit(d.last()));
    } else {
        lemma_decimal_spells(n / 10);
        let head = decimal(n / 10);
        let d = decimal(n);
        assert(d.drop_last() =~= head);
        assert(is_digit(d.last()));
        assert forall|i: int| 0 <= i < d.len() implies is_digit(#[trigger] d[i]) by {
            if i < head.len() {
                assert(d[i] == head[i]);
            }
        }
    }
}

/// Digits behind bytes that spell nothing spell what they spell alone.
pub proof fn lemma_digits_behind(a: Seq<u8>, d: Seq<u8>)
    requires
        digits_value(a) == 0,
        all_digits(d),
    ensures
        digits_value(a + d) == digits_value(d),
    decreases d.len(),
{
    if d.len() == 0 {
        assert(a + d =~= a);
    } else {
        lemma_digits_behind(a, d.drop_last());
        assert((a + d).drop_last() =~= a + d.drop_last());
        assert((a + d).last() == d.last());
        assert(is_digit(d.last()));
    }
}

/// Zeros spell zero.
pub proof fn lemma_zeros_spell_zero(k: nat)
    ensures
        digits_value(Seq::new(k, |i: int| 48u8)) == 0,
    decreases k,
{
    let z = Seq::new(k, |i: int| 48u8);
    if k > 0 {
        lemma_zeros_spell_zero((k - 1) as nat);
        assert(z.drop_last() =~= Seq::new((k - 1) as nat, |i: int| 48u8));
    }
}

/// The padded digits of a number are digits, and they spell the number.
pub proof fn lemma_padded_spells(n: nat, width: nat)
    ensures
        all_digits(zero_padded(n, width)),
        digits_value(zero_padded(n, width)) == n,
        zero_padded(n, width).len() >= 1,
{
    lemma_decimal_spells(n);
    let d = decimal(n);
    if d.len() < width {
        let zeros = Seq::new((width - d.len()) as nat, |i: int| 48u8);
        lemma_zeros_spell_zero((width - d.len()) as nat);
        lemma_digits_behind(zeros, d);
        let z = zero_padded(n, width);
        assert forall|i: int| 0 <= i < z.len() implies is_digit(#[trigger] z[i]) by {
            if i >= zeros.len() {
                assert(z[i] == d[i - zeros.len()]);
            }
        }
    }
}

/// Bytes without a separator have no first and no last one.
pub proof fn lemma_no_separator(s: Seq<u8>, sep: u8)
    requires
        forall|i: int| 0 <= i < s.len() ==> #[trigger] s[i] != sep,
    ensures
        first_index_of(s, sep) == -1,
        last_index_of(s, sep) == -1,
{
    lemma_first_index_of(s, sep);
    lemma_last_index_of(s, sep);
}

/// A separator between two runs of bytes that hold none is the first and
/// the last one.
pub proof fn lemma_one_separator(p: Seq<u8>, sep: u8, z: Seq<u8>)
    requires
        forall|i: int| 0 <= i < p.len() ==> #[trigger] p[i] != sep,
        forall|i: int| 0 <= i < z.len() ==> #[trigger] z[i] != sep,
    ensures
        first_index_of(p + seq![sep] + z, sep) == p.len(),
        last_index_of(p + seq![sep] + z, sep) == p.len(),
{
    let s = p + seq![sep] + z;
    lemma_first_index_of(s, sep);
    lemma_last_index_of(s, sep);
    assert(s[p.len() as int] == sep);
    assert forall|i: int| 0 <= i < s.len() && i != p.len() implies s[i] != sep by {
        if i < p.len() {
            assert(s[i] == p[i]);
        } else {
            assert(s[i] == z[i - p.len() - 1]);
        }
    }
}

/// Digits are no colons.
proof fn lemma_digits_hold_no_colon(d: Seq<u8>)
    requires
        all_digits(d),
    ensures
        forall|i: int| 0 <= i < d.len() ==> #[trigger] d[i] != COLON,
{
    assert forall|i: int| 0 <= i < d.len() implies #[trigger] d[i] != COLON by {
        assert(is_digit(d[i]));
    }
}

/// Whether an accession has the form in which the decoder writes the
/// accession of its vocabulary and its number.
pub open spec fn is_written_form(acc: Option<Seq<char>>) -> bool {
    text_of(accession_bytes(prefix_of_code(acc_code(acc)), acc_number(acc))) == acc
}

/// The accession that the decoder writes for a vocabulary and a number
/// is read back as that vocabulary and that number, and so has the form
/// in which the decoder writes it.  Without a vocabulary the same holds
/// of the number alone.
pub proof fn lemma_written_accession(prefix: Option<Seq<u8>>, n: u32)
    requires
        prefix matches Some(p) ==> is_cv_prefix_bytes(p),
    ensures
        is_written_form(text_of(accession_bytes(prefix, n))),
        n != 0 ==> acc_number(text_of(accession_bytes(prefix, n))) == n,
        n != 0 ==> prefix_of_code(acc_code(text_of(accession_bytes(prefix, n)))) == prefix,
        n != 0 && prefix is None ==> acc_tail(accession_bytes(prefix, n)) == n,
{
    if n != 0 {
        let b = accession_bytes(prefix, n).unwrap();
        lemma_decimal_spells(n as nat);
        lemma_padded_spells(n as nat, 7);
        lemma_padded_spells(n as nat, 5);
        lemma_decimal_ascii(n as nat);
        lemma_zero_padded_ascii(n as nat, 7);
        lemma_zero_padded_ascii(n as nat, 5);
        match prefix {
            None => {
                let d = decimal(n as nat);
                lemma_digits_hold_no_colon(d);
                lemma_no_separator(d, COLON);
                lemma_ascii_is_utf8(d);
                decode_utf8_encode_utf8(d);
                assert(tail_bytes(d) =~= d);
                assert(is_digit(d[0]));
                assert(has_digit(d));
                assert(d[0] != 43);
            },
            Some(p) => {
                if p == prefix_ncit() {
                    let z = seq![67u8] + zero_padded(n as nat, 5);
                    assert(b =~= p + seq![COLON] + z);
                    assert forall|i: int| 0 <= i < z.len() implies #[trigger] z[i] != COLON by {
                        if i > 0 {
                            assert(is_digit(zero_padded(n as nat, 5)[i - 1]));
                        }
                    }
                    lemma_one_separator(p, COLON, z);
                    assert(all_ascii(b)) by {
                        assert forall|i: int| 0 <= i < b.len() implies #[trigger] b[i] < 128 by {
                            if i > p.len() + 1 {
                                assert(b[i] == zero_padded(n as nat, 5)[i - p.len() - 2]);
                            }
                        }
                    }
                    lemma_ascii_is_utf8(b);
                    decode_utf8_encode_utf8(b);
                    assert(tail_bytes(b) =~= z);
                    assert(b.subrange(0, p.len() as int) =~= p);
                    assert(digits_value(seq![67u8]) == 0) by {
                        reveal_with_fuel(digits_value, 3);
                        assert(seq![67u8].drop_last() =~= Seq::<u8>::empty());
                        assert(!is_digit(seq![67u8].last()));
                    }
                    lemma_digits_behind(seq![67u8], zero_padded(n as nat, 5));
                    assert(is_digit(z[1]));
                    assert(has_digit(z));
                } else {
                    let z = zero_padded(n as nat, 7);
                    assert(b =~= p + seq![COLON] + z);
                    lemma_digits_hold_no_colon(z);
                    lemma_one_separator(p, COLON, z);
                    assert(all_ascii(b)) by {
                        assert forall|i: int| 0 <= i < b.len() implies #[trigger] b[i] < 128 by {
                            if i > p.len() {
                                assert(b[i] == z[i - p.len() - 1]);
                            }
                        }
                    }
                    lemma_ascii_is_utf8(b);
                    decode_utf8_encode_utf8(b);
                    assert(tail_bytes(b) =~= z);
                    assert(b.subrange(0, p.len() as int) =~= p);
                    assert(is_digit(z[0]));
                    assert(has_digit(z));
                }
            },
        }
    }
}

/// Whether an accession names a term by a number: its number is not
/// zero, or it belongs to none of the four vocabularies.
pub open spec fn is_numbered(acc: Option<Seq<char>>) -> bool {
    acc_number(acc) != 0 || prefix_of_code(acc_code(acc)) is None
}

/// A parameter that has come back from a block comes back from the next
/// block as it is, wherever its accession and the accession of its unit
/// name their terms by a number: both keep their vocabulary and their
/// number, and so the names are looked up under the same keys.
pub proof fn lemma_normal_is_idempotent(p: CvParamModel, table: Map<Seq<u8>, Seq<char>>)
    requires
        is_numbered(p.accession),
        is_numbered(p.unit_accession),
    ensures
        normal(normal(p, table), table) == normal(p, table),
{
    let prefix = prefix_of_code(acc_code(p.accession));
    let unit_prefix = prefix_of_code(acc_code(p.unit_accession));
    lemma_written_accession(prefix, acc_number(p.accession));
    lemma_written_accession(unit_prefix, acc_number(p.unit_accession));
    let q = normal(p, table);
    if acc_number(p.accession) == 0 {
        assert(q.accession is None);
    }
    if acc_number(p.unit_accession) == 0 {
        assert(q.unit_accession is None);
    }
}

/// A parameter whose accession and whose unit accession have the form in
/// which the decoder writes them comes back from a block with both, and
/// with its value.
pub proof fn lemma_term_comes_back(p: CvParamModel, table: Map<Seq<u8>, Seq<char>>)
    requires
        is_written_form(p.accession),
        is_written_form(p.unit_accession),
    ensures
        normal(p, table).accession == p.accession,
        normal(p, table).unit_accession == p.unit_accession,
        normal(p, table).value == p.value,
{
}

} // verus!
