//! What holds between an encoded metadata block and what the decoder
//! makes of it.

use vstd::prelude::*;
use vstd::utf8::{encode_utf8, encode_utf8_decode_utf8, encode_utf8_valid_utf8};
use crate::accession::{accession_bytes, prefix_of_code, text_of};
use crate::error::DecodeError;
use crate::interner::{distinct, interned, lemma_index_in, lemma_interned};
use crate::meta_encode::{
    acc_code, acc_number, CODE_NONE, columns_of, flat, kind_of, lemma_flat_grows,
    lemma_texts_joined_grows, meta_too_large, numbers_after, slot_of, texts_after, texts_joined,
};
use crate::meta_writer::{
    ColumnsModel, lemma_layout_offsets, lemma_record_reads_back, lemma_tables_read_back,
};
use crate::metadata::{
    items, KIND_NUMBER, KIND_TEXT, meta_block_spec, name_of_code, record_param, record_value,
    records,
};
use crate::params::{CvParamModel, ParamValueModel};

verus! {

/// A parameter as it comes back from a block: its vocabulary and its
/// accession are rebuilt from the code and the tail that its accession
/// was split into, its names are those of the table, and its value is
/// what it was.
pub open spec fn normal(p: CvParamModel, table: Map<Seq<u8>, Seq<char>>) -> CvParamModel {
    let prefix = prefix_of_code(acc_code(p.accession));
    let tail = acc_number(p.accession);
    let unit_prefix = prefix_of_code(acc_code(p.unit_accession));
    let unit_tail = acc_number(p.unit_accession);
    CvParamModel {
        cv_ref: text_of(prefix),
        accession: text_of(accession_bytes(prefix, tail)),
        name: match name_of_code(table, prefix, tail) {
            Some(n) => n,
            None => Seq::empty(),
        },
        value: p.value,
        unit_cv_ref: text_of(unit_prefix),
        unit_name: name_of_code(table, unit_prefix, unit_tail),
        unit_accession: text_of(accession_bytes(unit_prefix, unit_tail)),
    }
}

/// The parameters of an item as they come back from a block.
pub open spec fn normal_params(ps: Seq<CvParamModel>, table: Map<Seq<u8>, Seq<char>>) -> Seq<
    CvParamModel,
> {
    Seq::new(ps.len(), |k: int| normal(ps[k], table))
}

/// The parameters of the items as they come back from a block.
pub open spec fn normal_items(items: Seq<Seq<CvParamModel>>, table: Map<Seq<u8>, Seq<char>>)
    -> Seq<Seq<CvParamModel>> {
    Seq::new(items.len(), |i: int| normal_params(items[i], table))
}

/// The prefix sums of an encoded block do not decrease and end at the
/// number of records; every value index lies inside the table of its
/// kind; and a record under a vocabulary has a tail that is not zero
/// wherever the accession it came from spells a number that is not zero.
pub proof fn lemma_block_is_valid(items: Seq<Seq<CvParamModel>>)
    requires
        !meta_too_large(items),
    ensures
        ({
            let c = columns_of(items);
            let ps = flat(items, items.len() as int);
            &&& c.shaped()
            &&& forall|i: int|
                0 <= i < items.len() ==> (#[trigger] c.item_indices[i]) <= c.item_indices[i + 1]
            &&& c.item_indices[items.len() as int] == c.codes.len()
            &&& forall|m: int|
                0 <= m < c.codes.len() && #[trigger] c.kinds[m] == KIND_NUMBER ==> c.indices[m]
                    < c.numbers.len()
            &&& forall|m: int|
                0 <= m < c.codes.len() && #[trigger] c.kinds[m] == KIND_TEXT ==> c.indices[m]
                    < c.text_offsets.len()
            &&& forall|m: int|
                0 <= m < c.codes.len() && #[trigger] c.codes[m] != CODE_NONE && acc_number(
                    ps[m].accession,
                ) != 0 ==> c.tails[m] != 0
        }),
{
    let c = columns_of(items);
    let ps = flat(items, items.len() as int);
    let n = ps.len() as int;
    lemma_tables(ps, n);
    assert forall|i: int| 0 <= i < items.len() implies (#[trigger] c.item_indices[i])
        <= c.item_indices[i + 1] by {
        lemma_flat_grows(items, i, i + 1);
        lemma_flat_grows(items, i + 1, items.len() as int);
    }
    assert forall|m: int|
        0 <= m < c.codes.len() && #[trigger] c.kinds[m] == KIND_NUMBER implies c.indices[m]
            < c.numbers.len() by {
        lemma_slot(ps, m, n);
    }
    assert forall|m: int|
        0 <= m < c.codes.len() && #[trigger] c.kinds[m] == KIND_TEXT implies c.indices[m]
            < c.text_offsets.len() by {
        lemma_slot(ps, m, n);
    }
}

/// The tables after `m` parameters hold no more values than `m`, and no
/// value twice.
pub proof fn lemma_tables(ps: Seq<CvParamModel>, m: int)
    requires
        0 <= m <= ps.len(),
    ensures
        numbers_after(ps, m).len() + texts_after(ps, m).len() <= m,
        distinct(numbers_after(ps, m)),
        distinct(texts_after(ps, m)),
    decreases m,
{
    if m > 0 {
        lemma_tables(ps, m - 1);
        match ps[m - 1].value {
            ParamValueModel::Number(b) => {
                lemma_interned(numbers_after(ps, m - 1), b);
            },
            ParamValueModel::Text(t) => {
                lemma_interned(texts_after(ps, m - 1), encode_utf8(t));
            },
            ParamValueModel::Empty => {},
        }
    }
}

/// What stands in a table stays where it is as more parameters are
/// encoded.
pub proof fn lemma_tables_keep(ps: Seq<CvParamModel>, m: int, n: int)
    requires
        0 <= m <= n <= ps.len(),
    ensures
        numbers_after(ps, m).len() <= numbers_after(ps, n).len(),
        texts_after(ps, m).len() <= texts_after(ps, n).len(),
        forall|k: int|
            0 <= k < numbers_after(ps, m).len() ==> #[trigger] numbers_after(ps, n)[k]
                == numbers_after(ps, m)[k],
        forall|k: int|
            0 <= k < texts_after(ps, m).len() ==> #[trigger] texts_after(ps, n)[k] == texts_after(
                ps,
                m,
            )[k],
    decreases n - m,
{
    if m < n {
        lemma_tables_keep(ps, m, n - 1);
        lemma_tables(ps, n - 1);
        match ps[n - 1].value {
            ParamValueModel::Number(b) => {
                lemma_interned(numbers_after(ps, n - 1), b);
            },
            ParamValueModel::Text(t) => {
                lemma_interned(texts_after(ps, n - 1), encode_utf8(t));
            },
            ParamValueModel::Empty => {},
        }
    }
}

/// The value of parameter `m` stands in the final table of its kind, at
/// the value index of the parameter.
pub proof fn lemma_slot(ps: Seq<CvParamModel>, m: int, n: int)
    requires
        0 <= m < n <= ps.len(),
    ensures
        0 <= slot_of(ps, m) <= m,
        ps[m].value matches ParamValueModel::Number(b) ==> slot_of(ps, m) < numbers_after(
            ps,
            n,
        ).len() && numbers_after(ps, n)[slot_of(ps, m)] == b,
        ps[m].value matches ParamValueModel::Text(t) ==> slot_of(ps, m) < texts_after(ps, n).len()
            && texts_after(ps, n)[slot_of(ps, m)] == encode_utf8(t),
{
    lemma_tables(ps, m);
    lemma_tables_keep(ps, m + 1, n);
    match ps[m].value {
        ParamValueModel::Number(b) => {
            lemma_interned(numbers_after(ps, m), b);
            lemma_index_in(numbers_after(ps, m), b, 0);
            assert(numbers_after(ps, m + 1) == interned(numbers_after(ps, m), b));
        },
        ParamValueModel::Text(t) => {
            lemma_interned(texts_after(ps, m), encode_utf8(t));
            lemma_index_in(texts_after(ps, m), encode_utf8(t), 0);
            assert(texts_after(ps, m + 1) == interned(texts_after(ps, m), encode_utf8(t)));
        },
        ParamValueModel::Empty => {},
    }
}

/// Text `k` lies in the bytes of the first `n` texts behind the texts
/// before it.
pub proof fn lemma_text_lies(texts: Seq<Seq<u8>>, k: int, n: int)
    requires
        0 <= k < n <= texts.len(),
    ensures
        texts_joined(texts, k).len() + texts[k].len() <= texts_joined(texts, n).len(),
        texts_joined(texts, n).subrange(
            texts_joined(texts, k).len() as int,
            (texts_joined(texts, k).len() + texts[k].len()) as int,
        ) == texts[k],
    decreases n,
{
    if k < n - 1 {
        lemma_text_lies(texts, k, n - 1);
        let a = texts_joined(texts, n - 1);
        let lo = texts_joined(texts, k).len() as int;
        let hi = lo + texts[k].len() as int;
        assert((a + texts[n - 1]).subrange(lo, hi) =~= a.subrange(lo, hi));
    } else {
        let a = texts_joined(texts, n - 1);
        assert((a + texts[k]).subrange(a.len() as int, (a.len() + texts[k].len()) as int)
            =~= texts[k]);
    }
}

/// Whether record `m` of the columns carries the value `v`: its kind is
/// that of `v`, and its value index points at `v` in the table of that
/// kind.
pub open spec fn carries(c: ColumnsModel, m: int, v: ParamValueModel) -> bool {
    &&& c.kinds[m] == kind_of(v)
    &&& v matches ParamValueModel::Number(bits) ==> c.indices[m] < c.numbers.len()
        && c.numbers[c.indices[m] as int] == bits
    &&& v matches ParamValueModel::Text(t) ==> {
        let idx = c.indices[m] as int;
        &&& idx < c.text_offsets.len()
        &&& c.text_offsets[idx] + c.text_lengths[idx] <= c.text_data.len()
        &&& c.text_data.subrange(
            c.text_offsets[idx] as int,
            c.text_offsets[idx] + c.text_lengths[idx],
        ) == encode_utf8(t)
    }
}

/// The value of a record is read back from a written block as the value
/// that the record carries.
pub proof fn lemma_value_reads_back(c: ColumnsModel, m: int, v: ParamValueModel)
    requires
        c.shaped(),
        0 <= m < c.codes.len(),
        carries(c, m, v),
    ensures
        record_value(c.layout(), c.shape(), m) == Ok::<ParamValueModel, DecodeError>(v),
{
    reveal(record_value);
    lemma_layout_offsets(c);
    lemma_record_reads_back(c, m);
    lemma_tables_read_back(c);
    let b = c.layout();
    let s = c.shape();
    let idx = c.indices[m] as int;
    match v {
        ParamValueModel::Number(bits) => {
            assert(crate::bytes::le_u64(b, s.numeric_values() + 8 * idx) == c.numbers[idx]);
        },
        ParamValueModel::Text(t) => {
            let off = c.text_offsets[idx] as int;
            let len = c.text_lengths[idx] as int;
            assert(crate::bytes::le_u32(b, s.string_offsets() + 4 * idx) == c.text_offsets[idx]);
            assert(crate::bytes::le_u32(b, s.string_lengths() + 4 * idx) == c.text_lengths[idx]);
            assert(b.subrange(s.strings_data() + off, s.strings_data() + (off + len))
                == c.text_data.subrange(off, off + len));
            encode_utf8_valid_utf8(t);
            encode_utf8_decode_utf8(t);
        },
        ParamValueModel::Empty => {},
    }
}

/// Every record of the columns that items are encoded as carries the
/// value of the parameter it was made from.
pub proof fn lemma_columns_carry(items: Seq<Seq<CvParamModel>>, m: int)
    requires
        !meta_too_large(items),
        0 <= m < flat(items, items.len() as int).len(),
    ensures
        columns_of(items).shaped(),
        columns_of(items).codes.len() == flat(items, items.len() as int).len(),
        carries(columns_of(items), m, flat(items, items.len() as int)[m].value),
{
    let c = columns_of(items);
    let ps = flat(items, items.len() as int);
    let n = ps.len() as int;
    lemma_tables(ps, n);
    lemma_slot(ps, m, n);
    let idx = slot_of(ps, m);
    match ps[m].value {
        ParamValueModel::Number(bits) => {},
        ParamValueModel::Text(t) => {
            let texts = texts_after(ps, n);
            lemma_text_lies(texts, idx, texts.len() as int);
            lemma_texts_joined_grows(texts, idx, texts.len() as int);
        },
        ParamValueModel::Empty => {},
    }
}

/// The value of record `m` of an encoded block is the value of the
/// parameter it was made from.
pub proof fn lemma_value_round_trip(items: Seq<Seq<CvParamModel>>, m: int)
    requires
        !meta_too_large(items),
        0 <= m < flat(items, items.len() as int).len(),
    ensures
        record_value(columns_of(items).layout(), columns_of(items).shape(), m) == Ok::<
            ParamValueModel,
            DecodeError,
        >(flat(items, items.len() as int)[m].value),
{
    lemma_columns_carry(items, m);
    lemma_value_reads_back(
        columns_of(items),
        m,
        flat(items, items.len() as int)[m].value,
    );
}

/// Record `m` of an encoded block stands for the parameter it was made
/// from, as parameters come back from a block.
pub proof fn lemma_param_round_trip(
    items: Seq<Seq<CvParamModel>>,
    table: Map<Seq<u8>, Seq<char>>,
    m: int,
)
    requires
        !meta_too_large(items),
        0 <= m < flat(items, items.len() as int).len(),
    ensures
        record_param(columns_of(items).layout(), columns_of(items).shape(), table, m) == Ok::<
            CvParamModel,
            DecodeError,
        >(normal(flat(items, items.len() as int)[m], table)),
{
    reveal(record_param);
    let c = columns_of(items);
    let ps = flat(items, items.len() as int);
    lemma_tables(ps, ps.len() as int);
    lemma_value_round_trip(items, m);
    lemma_record_reads_back(c, m);
}

/// The records `lo..hi` of an encoded block stand for the parameters
/// they were made from.
pub proof fn lemma_records_round_trip(
    items: Seq<Seq<CvParamModel>>,
    table: Map<Seq<u8>, Seq<char>>,
    lo: int,
    hi: int,
)
    requires
        !meta_too_large(items),
        0 <= lo <= hi <= flat(items, items.len() as int).len(),
    ensures
        records(columns_of(items).layout(), columns_of(items).shape(), table, lo, hi) == Ok::<
            Seq<CvParamModel>,
            DecodeError,
        >(normal_params(flat(items, items.len() as int).subrange(lo, hi), table)),
    decreases hi - lo,
{
    let ps = flat(items, items.len() as int);
    if lo < hi {
        lemma_records_round_trip(items, table, lo, hi - 1);
        lemma_param_round_trip(items, table, hi - 1);
        assert(normal_params(ps.subrange(lo, hi - 1), table).push(normal(ps[hi - 1], table))
            =~= normal_params(ps.subrange(lo, hi), table));
    } else {
        assert(normal_params(ps.subrange(lo, hi), table) =~= Seq::<CvParamModel>::empty());
    }
}

/// Decoding an encoded block gives the parameters of the items as
/// parameters come back from a block.
pub proof fn lemma_meta_round_trip(items: Seq<Seq<CvParamModel>>, table: Map<Seq<u8>, Seq<char>>)
    requires
        !meta_too_large(items),
    ensures
        meta_block_spec(columns_of(items).layout(), columns_of(items).shape(), table) == Ok::<
            Seq<Seq<CvParamModel>>,
            DecodeError,
        >(normal_items(items, table)),
{
    let c = columns_of(items);
    let ps = flat(items, items.len() as int);
    lemma_tables(ps, ps.len() as int);
    lemma_layout_offsets(c);
    lemma_tables_read_back(c);
    lemma_items_round_trip(items, table, items.len() as int);
    assert(normal_items(items, table).take(items.len() as int) =~= normal_items(items, table));
    assert(c.item_indices[items.len() as int] == ps.len());
}

/// The first `n` items of an encoded block come back as they went in.
pub proof fn lemma_items_round_trip(
    its: Seq<Seq<CvParamModel>>,
    table: Map<Seq<u8>, Seq<char>>,
    n: int,
)
    requires
        !meta_too_large(its),
        0 <= n <= its.len(),
    ensures
        items(columns_of(its).layout(), columns_of(its).shape(), table, n) == Ok::<
            Seq<Seq<CvParamModel>>,
            DecodeError,
        >(normal_items(its, table).take(n)),
    decreases n,
{
    let c = columns_of(its);
    let ps = flat(its, its.len() as int);
    if n > 0 {
        lemma_items_round_trip(its, table, n - 1);
        lemma_tables(ps, ps.len() as int);
        lemma_tables_read_back(c);
        lemma_flat_grows(its, n - 1, n);
        lemma_flat_grows(its, n, its.len() as int);
        let lo = flat(its, n - 1).len() as int;
        let hi = flat(its, n).len() as int;
        assert(c.item_indices[n - 1] == lo);
        assert(c.item_indices[n] == hi);
        lemma_records_round_trip(its, table, lo, hi);
        assert(ps.subrange(lo, hi) =~= its[n - 1]) by {
            assert(ps.subrange(0, hi) == flat(its, n));
            assert(flat(its, n) == flat(its, n - 1) + its[n - 1]);
            assert(ps.subrange(lo, hi) =~= ps.subrange(0, hi).subrange(lo, hi));
        }
        assert(normal_items(its, table).take(n - 1).push(normal_params(its[n - 1], table))
            =~= normal_items(its, table).take(n));
    } else {
        assert(normal_items(its, table).take(0) =~= Seq::<Seq<CvParamModel>>::empty());
    }
}

} // verus!
