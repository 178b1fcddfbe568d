//! Encoding the parameters of many items as a metadata block.
//!
//! Every parameter becomes one record.  Its accession is split into a
//! vocabulary code and a numeric tail, and its value is interned in the
//! table of numbers or of texts, so that a value that many records carry
//! stands in the block once.

use vstd::prelude::*;
use vstd::slice::slice_subrange;
use vstd::string::StringSliceAdditionalSpecFns;
use vstd::utf8::encode_utf8;
use crate::accession::{
    CODE_MS, CODE_NCIT, CODE_PEFF, CODE_UO, COLON, prefix_ms, prefix_ncit, prefix_peff, prefix_uo,
    tail_bytes, tail_slice,
};
use crate::error::EncodeError;
use crate::interner::{interned, interned_at, NumberTable, texts_view, TextTable};
use crate::meta_writer::{ColumnsModel, MetaColumns, write_meta_block};
use crate::metadata::{KIND_NUMBER, KIND_TEXT};
use crate::params::{CvParam, CvParamModel, ParamValue, ParamValueModel};
use crate::text::{
    bytes_eq, find_first, first_index_of, lemma_first_index_of, parse_scattered_u32, scattered_u32,
};

verus! {

/// The code that marks a record as not taken from a controlled
/// vocabulary, and a record as having no unit.
pub const CODE_NONE: u8 = 0xFF;

/// Value kind code of a record without a value.
pub const KIND_EMPTY: u8 = 2;

/// The vocabulary code of a prefix.
pub open spec fn code_of_prefix(p: Seq<u8>) -> u8 {
    if p == prefix_ms() {
        CODE_MS
    } else if p == prefix_uo() {
        CODE_UO
    } else if p == prefix_ncit() {
        CODE_NCIT
    } else if p == prefix_peff() {
        CODE_PEFF
    } else {
        CODE_NONE
    }
}

/// The vocabulary code of an accession: that of the prefix before its
/// first colon; none where it has no colon or no such prefix.
pub open spec fn acc_code(acc: Option<Seq<char>>) -> u8 {
    match acc {
        None => CODE_NONE,
        Some(c) => {
            let b = encode_utf8(c);
            let i = first_index_of(b, COLON);
            if i < 0 {
                CODE_NONE
            } else {
                code_of_prefix(b.subrange(0, i))
            }
        },
    }
}

/// The numeric tail of an accession, read leniently; zero where there is
/// no accession.
pub open spec fn acc_number(acc: Option<Seq<char>>) -> u32 {
    match acc {
        None => 0,
        Some(c) => scattered_u32(tail_bytes(encode_utf8(c))),
    }
}

/// Splits an accession into its vocabulary code and its numeric tail.
pub fn code_and_tail(acc: &Option<String>) -> (r: (u8, u32))
    ensures
        r.0 == acc_code(acc.deep_view()),
        r.1 == acc_number(acc.deep_view()),
{
    match acc {
        None => (CODE_NONE, 0),
        Some(s) => {
            let b = s.as_str().as_bytes();
            let tail = parse_scattered_u32(tail_slice(b));
            proof {
                lemma_first_index_of(b@, COLON);
            }
            let code = match find_first(b, COLON) {
                None => CODE_NONE,
                Some(i) => {
                    let p = slice_subrange(b, 0, i);
                    let ms: [u8; 2] = [77, 83];
                    let uo: [u8; 2] = [85, 79];
                    let ncit: [u8; 4] = [78, 67, 73, 84];
                    let peff: [u8; 4] = [80, 69, 70, 70];
                    assert(ms@ =~= prefix_ms());
                    assert(uo@ =~= prefix_uo());
                    assert(ncit@ =~= prefix_ncit());
                    assert(peff@ =~= prefix_peff());
                    if bytes_eq(p, ms.as_slice()) {
                        CODE_MS
                    } else if bytes_eq(p, uo.as_slice()) {
                        CODE_UO
                    } else if bytes_eq(p, ncit.as_slice()) {
                        CODE_NCIT
                    } else if bytes_eq(p, peff.as_slice()) {
                        CODE_PEFF
                    } else {
                        CODE_NONE
                    }
                },
            };
            (code, tail)
        },
    }
}

/// The parameters of the first `n` items, one after the other.
pub open spec fn flat(items: Seq<Seq<CvParamModel>>, n: int) -> Seq<CvParamModel>
    decreases n,
{
    if n <= 0 {
        Seq::empty()
    } else {
        flat(items, n - 1) + items[n - 1]
    }
}

/// The table of numbers after the first `m` parameters have been
/// encoded.
pub open spec fn numbers_after(ps: Seq<CvParamModel>, m: int) -> Seq<u64>
    decreases m,
{
    if m <= 0 {
        Seq::empty()
    } else {
        let t = numbers_after(ps, m - 1);
        match ps[m - 1].value {
            ParamValueModel::Number(b) => interned(t, b),
            _ => t,
        }
    }
}

/// The table of texts after the first `m` parameters have been encoded.
pub open spec fn texts_after(ps: Seq<CvParamModel>, m: int) -> Seq<Seq<u8>>
    decreases m,
{
    if m <= 0 {
        Seq::empty()
    } else {
        let t = texts_after(ps, m - 1);
        match ps[m - 1].value {
            ParamValueModel::Text(s) => interned(t, encode_utf8(s)),
            _ => t,
        }
    }
}

/// The value kind of a value.
pub open spec fn kind_of(v: ParamValueModel) -> u8 {
    match v {
        ParamValueModel::Number(_) => KIND_NUMBER,
        ParamValueModel::Text(_) => KIND_TEXT,
        ParamValueModel::Empty => KIND_EMPTY,
    }
}

/// The value index of parameter `m`: where its value stands in its table
/// once it has been interned; zero where it has no value.
pub open spec fn slot_of(ps: Seq<CvParamModel>, m: int) -> int {
    match ps[m].value {
        ParamValueModel::Number(b) => interned_at(numbers_after(ps, m), b),
        ParamValueModel::Text(s) => interned_at(texts_after(ps, m), encode_utf8(s)),
        ParamValueModel::Empty => 0,
    }
}

/// The bytes of the first `k` texts, one after the other.
pub open spec fn texts_joined(texts: Seq<Seq<u8>>, k: int) -> Seq<u8>
    decreases k,
{
    if k <= 0 {
        Seq::empty()
    } else {
        texts_joined(texts, k - 1) + texts[k - 1]
    }
}

/// The columns that the parameters of the items are encoded as.
pub open spec fn columns_of(items: Seq<Seq<CvParamModel>>) -> ColumnsModel {
    let ps = flat(items, items.len() as int);
    let n = ps.len() as int;
    let texts = texts_after(ps, n);
    ColumnsModel {
        item_indices: Seq::new(items.len() + 1, |i: int| flat(items, i).len() as u32),
        codes: Seq::new(ps.len(), |m: int| acc_code(ps[m].accession)),
        tails: Seq::new(ps.len(), |m: int| acc_number(ps[m].accession)),
        unit_codes: Seq::new(ps.len(), |m: int| acc_code(ps[m].unit_accession)),
        unit_tails: Seq::new(ps.len(), |m: int| acc_number(ps[m].unit_accession)),
        kinds: Seq::new(ps.len(), |m: int| kind_of(ps[m].value)),
        indices: Seq::new(ps.len(), |m: int| slot_of(ps, m) as u32),
        numbers: numbers_after(ps, n),
        text_offsets: Seq::new(texts.len(), |k: int| texts_joined(texts, k).len() as u32),
        text_lengths: Seq::new(texts.len(), |k: int| texts[k].len() as u32),
        text_data: texts_joined(texts, texts.len() as int),
    }
}

/// Whether the parameters of the items are more than a block can hold:
/// more items or more parameters than 32 bits count, or more bytes of
/// text than 32 bits address.
pub open spec fn meta_too_large(items: Seq<Seq<CvParamModel>>) -> bool {
    let ps = flat(items, items.len() as int);
    let texts = texts_after(ps, ps.len() as int);
    items.len() > u32::MAX || ps.len() > u32::MAX || texts_joined(texts, texts.len() as int).len()
        > u32::MAX
}

/// The parameters of more items are at least as many.
pub proof fn lemma_flat_grows(items: Seq<Seq<CvParamModel>>, i: int, n: int)
    requires
        0 <= i <= n <= items.len(),
    ensures
        flat(items, i).len() <= flat(items, n).len(),
        flat(items, n).subrange(0, flat(items, i).len() as int) == flat(items, i),
    decreases n - i,
{
    if i < n {
        lemma_flat_grows(items, i, n - 1);
        let a = flat(items, n - 1);
        assert((a + items[n - 1]).subrange(0, flat(items, i).len() as int) =~= a.subrange(
            0,
            flat(items, i).len() as int,
        ));
    } else {
        assert(flat(items, n).subrange(0, flat(items, n).len() as int) =~= flat(items, n));
    }
}

/// The bytes of more texts are at least as many.
pub proof fn lemma_texts_joined_grows(texts: Seq<Seq<u8>>, k: int, n: int)
    requires
        0 <= k <= n <= texts.len(),
    ensures
        texts_joined(texts, k).len() <= texts_joined(texts, n).len(),
    decreases n - k,
{
    if k < n {
        lemma_texts_joined_grows(texts, k, n - 1);
    }
}

/// A metadata block and the counts that the header gives for it.
pub struct EncodedMeta {
    /// The bytes of the block.
    pub bytes: Vec<u8>,
    /// The number of records.
    pub meta_count: u32,
    /// The number of entries of the number table.
    pub num_count: u32,
    /// The number of entries of the string table.
    pub str_count: u32,
}

/// Parameter `q` of the first items is parameter `q` of all the items.
proof fn lemma_flat_index(items: Seq<Seq<CvParamModel>>, i: int, q: int)
    requires
        0 <= i <= items.len(),
        0 <= q < flat(items, i).len(),
    ensures
        flat(items, i).len() <= flat(items, items.len() as int).len(),
        flat(items, items.len() as int)[q] == flat(items, i)[q],
{
    lemma_flat_grows(items, i, items.len() as int);
    let all = flat(items, items.len() as int);
    assert(all.subrange(0, flat(items, i).len() as int)[q] == all[q]);
}

/// Lays the texts of a table out as offsets, lengths and bytes.
fn lay_out_texts(texts: &[Vec<u8>]) -> (r: Option<(Vec<u32>, Vec<u32>, Vec<u8>)>)
    requires
        texts@.len() <= u32::MAX,
    ensures
        match r {
            Some(v) => {
                let t = texts_view(texts@);
                &&& texts_joined(t, t.len() as int).len() <= u32::MAX
                &&& v.0@ == Seq::new(t.len(), |k: int| texts_joined(t, k).len() as u32)
                &&& v.1@ == Seq::new(t.len(), |k: int| t[k].len() as u32)
                &&& v.2@ == texts_joined(t, t.len() as int)
            },
            None => texts_joined(texts_view(texts@), texts@.len() as int).len() > u32::MAX,
        },
{
    let ghost t = texts_view(texts@);
    let mut offsets: Vec<u32> = Vec::with_capacity(texts.len());
    let mut lengths: Vec<u32> = Vec::with_capacity(texts.len());
    let mut data: Vec<u8> = Vec::new();
    let mut k: usize = 0;
    while k < texts.len()
        invariant
            k <= texts@.len(),
            t == texts_view(texts@),
            data@ == texts_joined(t, k as int),
            data@.len() <= u32::MAX,
            offsets@ == Seq::new(k as nat, |j: int| texts_joined(t, j).len() as u32),
            lengths@ == Seq::new(k as nat, |j: int| t[j].len() as u32),
        decreases texts@.len() - k,
    {
        let x = &texts[k];
        assert(t[k as int] == x@);
        let at = data.len();
        if x.len() > u32::MAX as usize - at {
            proof {
                lemma_texts_joined_grows(t, k + 1, t.len() as int);
            }
            return None;
        }
        offsets.push(at as u32);
        lengths.push(x.len() as u32);
        data.extend_from_slice(x.as_slice());
        proof {
            assert(offsets@ =~= Seq::new((k + 1) as nat, |j: int| texts_joined(t, j).len() as u32));
            assert(lengths@ =~= Seq::new((k + 1) as nat, |j: int| t[j].len() as u32));
        }
        k = k + 1;
    }
    Some((offsets, lengths, data))
}

/// Encodes the parameters of the items as a metadata block.
pub fn encode_meta_block(items: &Vec<Vec<CvParam>>) -> (r: Result<EncodedMeta, EncodeError>)
    ensures
        match r {
            Ok(e) => {
                let c = columns_of(items.deep_view());
                &&& !meta_too_large(items.deep_view())
                &&& c.shaped()
                &&& e.bytes@ == c.layout()
                &&& e.meta_count == c.shape().meta_count
                &&& e.num_count == c.shape().num_count
                &&& e.str_count == c.shape().str_count
                &&& items@.len() == c.shape().item_count
            },
            Err(er) => er == EncodeError::TooLarge && meta_too_large(items.deep_view()),
        },
{
    let ghost iv = items.deep_view();
    let ghost ps = flat(iv, iv.len() as int);
    if items.len() > u32::MAX as usize {
        return Err(EncodeError::TooLarge);
    }
    let mut item_indices: Vec<u32> = Vec::new();
    let mut codes: Vec<u8> = Vec::new();
    let mut tails: Vec<u32> = Vec::new();
    let mut unit_codes: Vec<u8> = Vec::new();
    let mut unit_tails: Vec<u32> = Vec::new();
    let mut kinds: Vec<u8> = Vec::new();
    let mut indices: Vec<u32> = Vec::new();
    let mut numbers = NumberTable::new();
    let mut texts = TextTable::new();
    let mut m: u32 = 0;
    let mut i: usize = 0;
    while i < items.len()
        invariant
            i <= items@.len(),
            iv == items.deep_view(),
            ps == flat(iv, iv.len() as int),
            m == flat(iv, i as int).len(),
            numbers.wf(),
            texts.wf(),
            numbers.numbers() == numbers_after(ps, m as int),
            texts.texts() == texts_after(ps, m as int),
            item_indices@ == Seq::new(i as nat, |j: int| flat(iv, j).len() as u32),
            codes@ == Seq::new(m as nat, |q: int| acc_code(ps[q].accession)),
            tails@ == Seq::new(m as nat, |q: int| acc_number(ps[q].accession)),
            unit_codes@ == Seq::new(m as nat, |q: int| acc_code(ps[q].unit_accession)),
            unit_tails@ == Seq::new(m as nat, |q: int| acc_number(ps[q].unit_accession)),
            kinds@ == Seq::new(m as nat, |q: int| kind_of(ps[q].value)),
            indices@ == Seq::new(m as nat, |q: int| slot_of(ps, q) as u32),
        decreases items@.len() - i,
    {
        item_indices.push(m);
        assert(item_indices@ =~= Seq::new((i + 1) as nat, |j: int| flat(iv, j).len() as u32));
        let item = &items[i];
        let ghost base = m as int;
        assert(iv[i as int] == item.deep_view());
        let mut k: usize = 0;
        while k < item.len()
            invariant
                i < items@.len(),
                k <= item@.len(),
                iv == items.deep_view(),
                iv[i as int] == item.deep_view(),
                ps == flat(iv, iv.len() as int),
                base == flat(iv, i as int).len(),
                m == base + k,
                numbers.wf(),
                texts.wf(),
                numbers.numbers() == numbers_after(ps, m as int),
                texts.texts() == texts_after(ps, m as int),
                codes@ == Seq::new(m as nat, |q: int| acc_code(ps[q].accession)),
                tails@ == Seq::new(m as nat, |q: int| acc_number(ps[q].accession)),
                unit_codes@ == Seq::new(m as nat, |q: int| acc_code(ps[q].unit_accession)),
                unit_tails@ == Seq::new(m as nat, |q: int| acc_number(ps[q].unit_accession)),
                kinds@ == Seq::new(m as nat, |q: int| kind_of(ps[q].value)),
                indices@ == Seq::new(m as nat, |q: int| slot_of(ps, q) as u32),
            decreases item@.len() - k,
        {
            let p = &item[k];
            proof {
                let next = flat(iv, i + 1);
                assert(next == flat(iv, i as int) + iv[i as int]);
                assert(next[base + k] == iv[i as int][k as int]);
                lemma_flat_index(iv, i + 1, base + k);
                assert(ps[m as int] == p.deep_view());
                crate::meta_laws::lemma_tables(ps, m as int);
                crate::meta_laws::lemma_tables(ps, m + 1);
                numbers.lemma_wf();
                texts.lemma_wf();
            }
            if m == u32::MAX {
                return Err(EncodeError::TooLarge);
            }
            let (code, tail) = code_and_tail(&p.accession);
            let (unit_code, unit_tail) = code_and_tail(&p.unit_accession);
            let (kind, slot): (u8, u32) = match &p.value {
                ParamValue::Number(b) => match numbers.intern(*b) {
                    Some(at) => (KIND_NUMBER, at),
                    None => {
                        return Err(EncodeError::TooLarge);
                    },
                },
                ParamValue::Text(t) => match texts.intern(t.as_str().as_bytes()) {
                    Some(at) => (KIND_TEXT, at),
                    None => {
                        return Err(EncodeError::TooLarge);
                    },
                },
                ParamValue::Empty => (KIND_EMPTY, 0),
            };
            codes.push(code);
            tails.push(tail);
            unit_codes.push(unit_code);
            unit_tails.push(unit_tail);
            kinds.push(kind);
            indices.push(slot);
            proof {
                let m1 = (m + 1) as nat;
                assert(codes@ =~= Seq::new(m1, |q: int| acc_code(ps[q].accession)));
                assert(tails@ =~= Seq::new(m1, |q: int| acc_number(ps[q].accession)));
                assert(unit_codes@ =~= Seq::new(m1, |q: int| acc_code(ps[q].unit_accession)));
                assert(unit_tails@ =~= Seq::new(m1, |q: int| acc_number(ps[q].unit_accession)));
                assert(kinds@ =~= Seq::new(m1, |q: int| kind_of(ps[q].value)));
                assert(indices@ =~= Seq::new(m1, |q: int| slot_of(ps, q) as u32));
            }
            m = m + 1;
            k = k + 1;
        }
        proof {
            assert(flat(iv, i + 1) == flat(iv, i as int) + iv[i as int]);
        }
        i = i + 1;
    }
    item_indices.push(m);
    proof {
        assert(item_indices@ =~= Seq::new(iv.len() + 1, |j: int| flat(iv, j).len() as u32));
        crate::meta_laws::lemma_tables(ps, ps.len() as int);
        numbers.lemma_wf();
        texts.lemma_wf();
    }
    let num_count = numbers.as_slice().len() as u32;
    let str_count = texts.as_slice().len() as u32;
    let (text_offsets, text_lengths, text_data) = match lay_out_texts(texts.as_slice()) {
        Some(v) => v,
        None => {
            return Err(EncodeError::TooLarge);
        },
    };
    let mut number_values: Vec<u64> = Vec::new();
    number_values.extend_from_slice(numbers.as_slice());
    assert(number_values@ =~= numbers.numbers());
    let c = MetaColumns {
        item_indices,
        codes,
        tails,
        unit_codes,
        unit_tails,
        kinds,
        indices,
        numbers: number_values,
        text_offsets,
        text_lengths,
        text_data,
    };
    let bytes = write_meta_block(&c);
    Ok(EncodedMeta { bytes, meta_count: m, num_count, str_count })
}

} // verus!
