//! Rebuilding the list of numeric arrays of an item from its metadata
//! records.

use vstd::prelude::*;
use vstd::string::StringSliceAdditionalSpecFns;
use vstd::utf8::{decode_utf8, encode_utf8, encode_utf8_decode_utf8};
use crate::accession::{
    attr_tail, b000_tail, COLON, is_attr_prefix, is_cv_prefix_bytes, is_cv_prefix_slice,
    prefix_attr, prefix_ms, split_prefix, unit_cv_ref,
};
use crate::child_index::{lemma_records_view_take, records_view};
use crate::cv_table::CvTable;
use crate::metadatum::{
    ACC_ATTR_ARRAY_LENGTH, ACC_ATTR_COUNT, ACC_ATTR_DATA_PROCESSING_REF,
    ACC_ATTR_DEFAULT_ARRAY_LENGTH, ACC_ATTR_ENCODED_LENGTH, as_string, as_u32, clone_text,
    Metadatum, MetadatumModel, opt_str, TagId, text_bytes, value_param, value_text, value_to_param,
    value_u32,
};
use crate::params::{CvParam, CvParamModel, lemma_deep_view_push, UserParam, UserParamModel};
use crate::run::{
    BinaryDataArray, BinaryDataArrayList, BinaryDataArrayListModel, BinaryDataArrayModel,
    NumericType,
};
use crate::text::{bytes_eq, first_index_of, lemma_first_index_of, parse_u32, parse_u32_spec};

verus! {

/// Makes an array with nothing filled in.
pub fn new_binary_data_array() -> (a: BinaryDataArray)
    ensures
        a.deep_view() == BinaryDataArrayModel::empty(),
{
    BinaryDataArray::empty()
}

/// The element type that the `MS` term with the given tail names.
pub open spec fn numeric_type_of(tail: u32) -> Option<NumericType> {
    if tail == 1000519 {
        Some(NumericType::Int32)
    } else if tail == 1000521 {
        Some(NumericType::Float32)
    } else if tail == 1000522 {
        Some(NumericType::Int64)
    } else if tail == 1000523 {
        Some(NumericType::Float64)
    } else {
        None
    }
}

/// The element type after one more term has named `named`: the first
/// name stands, the same name again changes nothing, and another name
/// leaves the type open.
pub open spec fn merged_type(cur: Option<NumericType>, named: Option<NumericType>) -> Option<
    NumericType,
> {
    match named {
        None => cur,
        Some(nt) => match cur {
            None => Some(nt),
            Some(c) => if c == nt {
                Some(c)
            } else {
                None
            },
        },
    }
}

/// The display name filed under the bytes of an accession.
pub open spec fn name_under(table: Map<Seq<u8>, Seq<char>>, key: Seq<u8>) -> Option<Seq<char>> {
    if table.contains_key(key) {
        Some(table[key])
    } else {
        None
    }
}

/// The vocabulary prefix of an optional accession: the text before its
/// first colon.
pub open spec fn unit_prefix(unit: Option<Seq<char>>) -> Option<Seq<char>> {
    match unit {
        None => None,
        Some(u) => {
            let b = encode_utf8(u);
            let i = first_index_of(b, COLON);
            if i < 0 {
                None
            } else {
                Some(decode_utf8(b.subrange(0, i)))
            }
        },
    }
}

/// The term that a record under a vocabulary prefix stands for.  `c` is
/// the accession of the record and `prefix` the bytes before its colon.
/// The term is named as the table names its accession, else by the
/// accession itself.
pub open spec fn term_of(
    c: Seq<char>,
    prefix: Seq<u8>,
    m: MetadatumModel,
    table: Map<Seq<u8>, Seq<char>>,
) -> CvParamModel {
    CvParamModel {
        cv_ref: Some(decode_utf8(prefix)),
        accession: Some(c),
        name: match name_under(table, encode_utf8(c)) {
            Some(n) => n,
            None => c,
        },
        value: value_param(m.value),
        unit_cv_ref: unit_prefix(m.unit_accession),
        unit_name: match m.unit_accession {
            Some(u) => name_under(table, encode_utf8(u)),
            None => None,
        },
        unit_accession: m.unit_accession,
    }
}

/// The free-form entry that a record under any other prefix stands for.
pub open spec fn entry_of(c: Seq<char>, m: MetadatumModel) -> UserParamModel {
    UserParamModel {
        name: c,
        kind: None,
        unit_accession: m.unit_accession,
        unit_cv_ref: unit_prefix(m.unit_accession),
        unit_name: None,
        value: value_param(m.value),
    }
}

/// Makes the term that a record under a vocabulary prefix stands for.
pub fn make_term(acc: &String, prefix: &str, m: &Metadatum, table: &CvTable) -> (p: CvParam)
    ensures
        p.deep_view() == term_of(acc@, prefix.spec_bytes(), m.deep_view(), table@),
{
    let unit_accession = clone_text(&m.unit_accession);
    let unit_name = match &unit_accession {
        Some(u) => lookup_name(table, u.as_str()),
        None => None,
    };
    let name = match lookup_name(table, acc.as_str()) {
        Some(n) => n,
        None => acc.clone(),
    };
    proof {
        encode_utf8_decode_utf8(prefix@);
    }
    let p = CvParam {
        cv_ref: Some(prefix.to_owned()),
        accession: Some(acc.clone()),
        name,
        value: value_to_param(&m.value),
        unit_cv_ref: unit_prefix_of(&unit_accession),
        unit_name,
        unit_accession,
    };
    assert(p.deep_view() =~~= term_of(acc@, prefix.spec_bytes(), m.deep_view(), table@));
    p
}

/// Makes the free-form entry that a record stands for.
pub fn make_entry(acc: &String, m: &Metadatum) -> (p: UserParam)
    ensures
        p.deep_view() == entry_of(acc@, m.deep_view()),
{
    let unit_accession = clone_text(&m.unit_accession);
    let p = UserParam {
        name: acc.clone(),
        kind: None,
        unit_cv_ref: unit_prefix_of(&unit_accession),
        unit_accession,
        unit_name: None,
        value: value_to_param(&m.value),
    };
    assert(p.deep_view() =~~= entry_of(acc@, m.deep_view()));
    p
}

/// The array after one record has been applied to it.
///
/// A record without an accession, or with one that has no colon, changes
/// nothing.  Under the prefix `B000` the record sets the attribute that
/// its tail names.  Under the prefix of a controlled vocabulary it adds a
/// term, and an `MS` term that names an element type is merged into the
/// type of the array.  Under any other prefix it adds a free-form entry.
pub open spec fn applied(
    a: BinaryDataArrayModel,
    m: MetadatumModel,
    table: Map<Seq<u8>, Seq<char>>,
) -> BinaryDataArrayModel {
    match m.accession {
        None => a,
        Some(c) => {
            let b = encode_utf8(c);
            let i = first_index_of(b, COLON);
            if i < 0 {
                a
            } else {
                let prefix = b.subrange(0, i);
                let tail = parse_u32_spec(b.subrange(i + 1, b.len() as int));
                if prefix == prefix_attr() {
                    if tail == Some(ACC_ATTR_ARRAY_LENGTH) {
                        BinaryDataArrayModel { array_length: as_len(value_u32(m.value)), ..a }
                    } else if tail == Some(ACC_ATTR_ENCODED_LENGTH) {
                        BinaryDataArrayModel { encoded_length: as_len(value_u32(m.value)), ..a }
                    } else if tail == Some(ACC_ATTR_DATA_PROCESSING_REF) {
                        BinaryDataArrayModel { data_processing_ref: value_text(m.value), ..a }
                    } else {
                        a
                    }
                } else if is_cv_prefix_bytes(prefix) {
                    BinaryDataArrayModel {
                        numeric_type: if prefix == prefix_ms() && tail is Some {
                            merged_type(a.numeric_type, numeric_type_of(tail->Some_0))
                        } else {
                            a.numeric_type
                        },
                        cv_params: a.cv_params.push(term_of(c, prefix, m, table)),
                        ..a
                    }
                } else {
                    BinaryDataArrayModel {
                        user_params: a.user_params.push(entry_of(c, m)),
                        ..a
                    }
                }
            }
        },
    }
}

/// A 32-bit count as a length.
pub open spec fn as_len(v: Option<u32>) -> Option<usize> {
    match v {
        Some(n) => Some(n as usize),
        None => None,
    }
}

/// Returns a 32-bit count as a length.
fn to_len(v: Option<u32>) -> (r: Option<usize>)
    ensures
        r == as_len(v),
{
    match v {
        Some(n) => Some(n as usize),
        None => None,
    }
}

/// Returns the vocabulary prefix of an optional accession.
fn unit_prefix_of(unit: &Option<String>) -> (r: Option<String>)
    ensures
        r.deep_view() == unit_prefix(unit.deep_view()),
{
    let r = unit_cv_ref(unit);
    proof {
        if r is Some {
            encode_utf8_decode_utf8(r->Some_0@);
        }
    }
    r
}

/// Looks up the display name filed under an accession.
fn lookup_name(table: &CvTable, key: &str) -> (r: Option<String>)
    ensures
        r.deep_view() == name_under(table@, key.spec_bytes()),
{
    match table.lookup(key.as_bytes()) {
        Some(n) => Some(n.clone()),
        None => None,
    }
}

/// Applies one record to an array.
pub fn apply_binary_data_array_metadatum(out: &mut BinaryDataArray, m: &Metadatum, table: &CvTable)
    ensures
        final(out).deep_view() == applied(old(out).deep_view(), m.deep_view(), table@),
{
    let acc_string = match &m.accession {
        Some(s) => s,
        None => {
            return ;
        },
    };
    let acc = acc_string.as_str();
    let ghost b = acc.spec_bytes();
    proof {
        lemma_first_index_of(b, COLON);
    }
    let (prefix, tail) = match split_prefix(acc) {
        Some(v) => v,
        None => {
            return ;
        },
    };
    let tail_u32 = parse_u32(tail.as_bytes());
    if is_attr_prefix(prefix.as_bytes()) {
        match tail_u32 {
            Some(t) => {
                if t == ACC_ATTR_ARRAY_LENGTH {
                    out.array_length = to_len(as_u32(&m.value));
                } else if t == ACC_ATTR_ENCODED_LENGTH {
                    out.encoded_length = to_len(as_u32(&m.value));
                } else if t == ACC_ATTR_DATA_PROCESSING_REF {
                    out.data_processing_ref = as_string(&m.value);
                }
            },
            None => {},
        }
        assert(out.deep_view() =~~= applied(old(out).deep_view(), m.deep_view(), table@));
        return ;
    }
    if is_cv_prefix_slice(prefix.as_bytes()) {
        let ms: [u8; 2] = [77, 83];
        assert(ms@ =~= prefix_ms());
        if bytes_eq(prefix.as_bytes(), ms.as_slice()) {
            match tail_u32 {
                Some(t) => {
                    let named = if t == 1000519 {
                        Some(NumericType::Int32)
                    } else if t == 1000521 {
                        Some(NumericType::Float32)
                    } else if t == 1000522 {
                        Some(NumericType::Int64)
                    } else if t == 1000523 {
                        Some(NumericType::Float64)
                    } else {
                        None
                    };
                    match named {
                        Some(nt) => {
                            out.numeric_type = match out.numeric_type {
                                None => Some(nt),
                                Some(cur) => if cur == nt {
                                    Some(cur)
                                } else {
                                    None
                                },
                            };
                        },
                        None => {},
                    }
                },
                None => {},
            }
        }
        let p = make_term(acc_string, prefix, m, table);
        let ghost before = out.cv_params;
        out.cv_params.push(p);
        proof {
            lemma_deep_view_push(before, out.cv_params, p);
            assert(out.deep_view() =~~= applied(old(out).deep_view(), m.deep_view(), table@));
        }
    } else {
        let p = make_entry(acc_string, m);
        let ghost before = out.user_params;
        out.user_params.push(p);
        proof {
            lemma_deep_view_push(before, out.user_params, p);
            assert(out.deep_view() =~~= applied(old(out).deep_view(), m.deep_view(), table@));
        }
    }
}

/// The array that a run of records describes.
pub open spec fn array_from(ms: Seq<MetadatumModel>, table: Map<Seq<u8>, Seq<char>>)
    -> BinaryDataArrayModel
    decreases ms.len(),
{
    if ms.len() == 0 {
        BinaryDataArrayModel::empty()
    } else {
        applied(array_from(ms.drop_last(), table), ms.last(), table)
    }
}

/// Builds the array that a run of records describes.
pub fn parse_binary_data_array(metadata: &[&Metadatum], table: &CvTable) -> (a: BinaryDataArray)
    ensures
        a.deep_view() == array_from(crate::metadatum::rows_view(metadata@), table@),
{
    let mut out = new_binary_data_array();
    let ghost all = crate::metadatum::rows_view(metadata@);
    let mut i: usize = 0;
    assert(all.take(0) =~= Seq::<MetadatumModel>::empty());
    while i < metadata.len()
        invariant
            i <= metadata@.len(),
            all == crate::metadatum::rows_view(metadata@),
            out.deep_view() == array_from(all.take(i as int), table@),
        decreases metadata@.len() - i,
    {
        proof {
            assert(all.take(i + 1).drop_last() =~= all.take(i as int));
            assert(all.take(i + 1).last() == metadata@[i as int].deep_view());
        }
        apply_binary_data_array_metadatum(&mut out, metadata[i], table);
        i = i + 1;
    }
    assert(all.take(i as int) =~= all);
    out
}

/// The index of the first record of the given kind, or -1.
pub open spec fn first_of_tag(ms: Seq<MetadatumModel>, tag: TagId) -> int
    decreases ms.len(),
{
    if ms.len() == 0 {
        -1
    } else {
        let before = first_of_tag(ms.drop_last(), tag);
        if before >= 0 {
            before
        } else if ms.last().tag_id == tag {
            ms.len() - 1
        } else {
            -1
        }
    }
}

/// `first_of_tag` is -1 or the index of a record of the kind.
pub proof fn lemma_first_of_tag(ms: Seq<MetadatumModel>, tag: TagId)
    ensures
        -1 <= first_of_tag(ms, tag) < ms.len(),
        first_of_tag(ms, tag) >= 0 ==> ms[first_of_tag(ms, tag)].tag_id == tag,
    decreases ms.len(),
{
    if ms.len() > 0 {
        lemma_first_of_tag(ms.drop_last(), tag);
    }
}

/// Once a prefix of the records holds the kind, the first record of the
/// kind in the whole is the first in that prefix.
pub proof fn lemma_tag_in_prefix(ms: Seq<MetadatumModel>, tag: TagId, n: int)
    requires
        0 <= n <= ms.len(),
        first_of_tag(ms.take(n), tag) >= 0,
    ensures
        first_of_tag(ms, tag) == first_of_tag(ms.take(n), tag),
    decreases ms.len() - n,
{
    if n < ms.len() {
        assert(ms.take(n + 1).drop_last() =~= ms.take(n));
        lemma_tag_in_prefix(ms, tag, n + 1);
    } else {
        assert(ms.take(n) =~= ms);
    }
}

/// Finds the first record of the given kind.
pub fn find_tag(metadata: &[Metadatum], tag: TagId) -> (r: Option<usize>)
    ensures
        match r {
            Some(i) => first_of_tag(records_view(metadata@), tag) == i && i < metadata@.len(),
            None => first_of_tag(records_view(metadata@), tag) == -1,
        },
{
    let ghost all = records_view(metadata@);
    let mut i: usize = 0;
    while i < metadata.len()
        invariant
            i <= metadata@.len(),
            all == records_view(metadata@),
            first_of_tag(all.take(i as int), tag) == -1,
        decreases metadata@.len() - i,
    {
        proof {
            lemma_records_view_take(metadata@, i as int);
        }
        if metadata[i].tag_id == tag {
            proof {
                lemma_tag_in_prefix(all, tag, i + 1);
            }
            return Some(i);
        }
        i = i + 1;
    }
    assert(all.take(i as int) =~= all);
    None
}

/// The element that stands for the list of arrays: the owner of the
/// first record of the list itself, else the parent of the first record
/// of an array.
pub open spec fn list_id_of(ms: Seq<MetadatumModel>) -> Option<u32> {
    if first_of_tag(ms, TagId::BinaryDataArrayList) >= 0 {
        Some(ms[first_of_tag(ms, TagId::BinaryDataArrayList)].owner_id)
    } else if first_of_tag(ms, TagId::BinaryDataArray) >= 0 {
        Some(ms[first_of_tag(ms, TagId::BinaryDataArray)].parent_index)
    } else {
        None
    }
}

/// Whether a record carries the count of the list `list_id`.
pub open spec fn carries_count(m: MetadatumModel, list_id: u32) -> bool {
    m.tag_id == TagId::BinaryDataArrayList && m.owner_id == list_id && attr_tail(
        text_bytes(m.accession),
    ) == Some(ACC_ATTR_COUNT)
}

/// The count that the records declare for the list: the value of the
/// first record that carries the count and whose value is a count.
pub open spec fn declared_count(ms: Seq<MetadatumModel>, list_id: u32) -> Option<usize>
    decreases ms.len(),
{
    if ms.len() == 0 {
        None
    } else if carries_count(ms[0], list_id) && value_u32(ms[0].value) is Some {
        as_len(value_u32(ms[0].value))
    } else {
        declared_count(ms.drop_first(), list_id)
    }
}

/// Where the array of element `id` stands among arrays in ascending order
/// of their elements: the first place whose element is not below `id`.
pub open spec fn slot(arrays: Seq<(u32, BinaryDataArrayModel)>, id: u32) -> int
    decreases arrays.len(),
{
    if arrays.len() == 0 || arrays[0].0 >= id {
        0
    } else {
        1 + slot(arrays.drop_first(), id)
    }
}

/// `slot` is a place in the arrays or just behind them.
pub proof fn lemma_slot(arrays: Seq<(u32, BinaryDataArrayModel)>, id: u32)
    ensures
        0 <= slot(arrays, id) <= arrays.len(),
    decreases arrays.len(),
{
    if arrays.len() > 0 && arrays[0].0 < id {
        lemma_slot(arrays.drop_first(), id);
    }
}

/// The arrays after one more record: a record of an array under the list
/// is applied to the array of its owner, which is put in its place in
/// ascending order where it was not there yet.
pub open spec fn grouped_step(
    arrays: Seq<(u32, BinaryDataArrayModel)>,
    m: MetadatumModel,
    list_id: u32,
    table: Map<Seq<u8>, Seq<char>>,
) -> Seq<(u32, BinaryDataArrayModel)> {
    if m.tag_id != TagId::BinaryDataArray || m.parent_index != list_id {
        arrays
    } else {
        let at = slot(arrays, m.owner_id);
        if at < arrays.len() && arrays[at].0 == m.owner_id {
            arrays.update(at, (m.owner_id, applied(arrays[at].1, m, table)))
        } else {
            arrays.insert(at, (m.owner_id, applied(BinaryDataArrayModel::empty(), m, table)))
        }
    }
}

/// The arrays that the records describe, each with the element that owns
/// it, in ascending order of those elements.
pub open spec fn grouped(ms: Seq<MetadatumModel>, list_id: u32, table: Map<Seq<u8>, Seq<char>>)
    -> Seq<(u32, BinaryDataArrayModel)>
    decreases ms.len(),
{
    if ms.len() == 0 {
        Seq::empty()
    } else {
        grouped_step(grouped(ms.drop_last(), list_id, table), ms.last(), list_id, table)
    }
}

/// Whether the elements of the arrays ascend strictly.
pub open spec fn ascending(arrays: Seq<(u32, BinaryDataArrayModel)>) -> bool {
    forall|i: int, j: int| 0 <= i < j < arrays.len() ==> arrays[i].0 < arrays[j].0
}

/// In ascending arrays, everything before the slot of `id` is below `id`
/// and everything from the slot on is not.
pub proof fn lemma_slot_splits(arrays: Seq<(u32, BinaryDataArrayModel)>, id: u32)
    requires
        ascending(arrays),
    ensures
        forall|i: int| 0 <= i < slot(arrays, id) ==> (#[trigger] arrays[i]).0 < id,
        forall|i: int| slot(arrays, id) <= i < arrays.len() ==> (#[trigger] arrays[i]).0 >= id,
    decreases arrays.len(),
{
    if arrays.len() > 0 && arrays[0].0 < id {
        let rest = arrays.drop_first();
        assert forall|i: int, j: int| 0 <= i < j < rest.len() implies rest[i].0 < rest[j].0 by {
            assert(rest[i] == arrays[i + 1]);
            assert(rest[j] == arrays[j + 1]);
        }
        lemma_slot_splits(rest, id);
        lemma_slot(rest, id);
        assert forall|i: int| 0 <= i < slot(arrays, id) implies (#[trigger] arrays[i]).0 < id by {
            if i > 0 {
                assert(arrays[i] == rest[i - 1]);
            }
        }
        assert forall|i: int| slot(arrays, id) <= i < arrays.len() implies (
        #[trigger] arrays[i]).0 >= id by {
            assert(arrays[i] == rest[i - 1]);
        }
    } else if arrays.len() > 0 {
        assert forall|i: int| 0 <= i < arrays.len() implies (#[trigger] arrays[i]).0 >= id by {
            if i > 0 {
                assert(arrays[0].0 < arrays[i].0);
            }
        }
    }
}

/// The arrays that records describe stand in strictly ascending order of
/// the elements that own them, so that no element owns two arrays.
pub proof fn lemma_grouped_ascending(
    ms: Seq<MetadatumModel>,
    list_id: u32,
    table: Map<Seq<u8>, Seq<char>>,
)
    ensures
        ascending(grouped(ms, list_id, table)),
    decreases ms.len(),
{
    if ms.len() > 0 {
        let before = grouped(ms.drop_last(), list_id, table);
        let m = ms.last();
        lemma_grouped_ascending(ms.drop_last(), list_id, table);
        lemma_slot(before, m.owner_id);
        lemma_slot_splits(before, m.owner_id);
        let after = grouped_step(before, m, list_id, table);
        let at = slot(before, m.owner_id);
        assert forall|i: int, j: int| 0 <= i < j < after.len() implies after[i].0
            < after[j].0 by {
            if m.tag_id != TagId::BinaryDataArray || m.parent_index != list_id {
            } else if at < before.len() && before[at].0 == m.owner_id {
                assert(after[i].0 == before[i].0);
                assert(after[j].0 == before[j].0);
            } else {
                let bi = if i < at {
                    i
                } else {
                    i - 1
                };
                let bj = if j < at {
                    j
                } else {
                    j - 1
                };
                if i != at {
                    assert(after[i] == before[bi]);
                }
                if j != at {
                    assert(after[j] == before[bj]);
                }
            }
        }
    }
}

/// The length that arrays inherit where they declare none: the value of
/// the first record that carries the default array length and whose value
/// is a count.
pub open spec fn inherited_length(ms: Seq<MetadatumModel>) -> Option<usize>
    decreases ms.len(),
{
    if ms.len() == 0 {
        None
    } else if attr_tail(text_bytes(ms[0].accession)) == Some(ACC_ATTR_DEFAULT_ARRAY_LENGTH)
        && value_u32(ms[0].value) is Some {
        as_len(value_u32(ms[0].value))
    } else {
        inherited_length(ms.drop_first())
    }
}

/// An array with the inherited length where it declares none.
pub open spec fn with_inherited(a: BinaryDataArrayModel, len: Option<usize>)
    -> BinaryDataArrayModel {
    if len is Some && a.array_length is None {
        BinaryDataArrayModel { array_length: len, ..a }
    } else {
        a
    }
}

/// The list of arrays that the records of an item describe.
///
/// There is none unless a record of the list or of an array occurs.  The
/// arrays stand in ascending order of the elements that own them.  The
/// count is the declared one, else the number of arrays.
pub open spec fn array_list_of(ms: Seq<MetadatumModel>, table: Map<Seq<u8>, Seq<char>>) -> Option<
    BinaryDataArrayListModel,
> {
    match list_id_of(ms) {
        None => None,
        Some(list_id) => {
            let g = grouped(ms, list_id, table);
            let len = inherited_length(ms);
            Some(
                BinaryDataArrayListModel {
                    count: match declared_count(ms, list_id) {
                        Some(c) => Some(c),
                        None => Some(g.len() as usize),
                    },
                    binary_data_arrays: Seq::new(g.len(), |i: int| with_inherited(g[i].1, len)),
                },
            )
        },
    }
}

/// One array under construction, with the element that owns it.
pub struct OwnedArray {
    pub owner: u32,
    pub array: BinaryDataArray,
}

/// The arrays under construction as mathematical values.
pub open spec fn owned_view(v: Seq<OwnedArray>) -> Seq<(u32, BinaryDataArrayModel)> {
    Seq::new(v.len(), |i: int| (v[i].owner, v[i].array.deep_view()))
}

/// Finds the slot of `id` among the arrays under construction.
fn find_slot(arrays: &Vec<OwnedArray>, id: u32) -> (at: usize)
    ensures
        at == slot(owned_view(arrays@), id),
        at <= arrays@.len(),
{
    let ghost all = owned_view(arrays@);
    let mut j: usize = 0;
    assert(all.skip(0) =~= all);
    while j < arrays.len() && arrays[j].owner < id
        invariant
            j <= arrays@.len(),
            all == owned_view(arrays@),
            slot(all, id) == j + slot(all.skip(j as int), id),
        decreases arrays@.len() - j,
    {
        proof {
            assert(all.skip(j as int)[0] == all[j as int]);
            assert(all.skip(j as int).drop_first() =~= all.skip(j + 1));
        }
        j = j + 1;
    }
    proof {
        if j < arrays@.len() {
            assert(all.skip(j as int)[0] == all[j as int]);
        }
    }
    j
}

/// Applies one record to the arrays under construction.
fn group_record(
    arrays: &mut Vec<OwnedArray>,
    m: &Metadatum,
    list_id: u32,
    table: &CvTable,
)
    ensures
        owned_view(final(arrays)@) == grouped_step(
            owned_view(old(arrays)@),
            m.deep_view(),
            list_id,
            table@,
        ),
{
    if m.tag_id != TagId::BinaryDataArray || m.parent_index != list_id {
        return ;
    }
    let ghost before = owned_view(arrays@);
    let at = find_slot(arrays, m.owner_id);
    if at < arrays.len() && arrays[at].owner == m.owner_id {
        apply_binary_data_array_metadatum(&mut arrays[at].array, m, table);
        assert(owned_view(arrays@) =~= before.update(
            at as int,
            (m.owner_id, applied(before[at as int].1, m.deep_view(), table@)),
        ));
    } else {
        let mut a = new_binary_data_array();
        apply_binary_data_array_metadatum(&mut a, m, table);
        arrays.insert(at, OwnedArray { owner: m.owner_id, array: a });
        assert(owned_view(arrays@) =~= before.insert(
            at as int,
            (m.owner_id, applied(BinaryDataArrayModel::empty(), m.deep_view(), table@)),
        ));
    }
}

/// Finds the count that the records declare for the list.
fn find_declared_count(metadata: &[Metadatum], list_id: u32) -> (r: Option<usize>)
    ensures
        r == declared_count(records_view(metadata@), list_id),
{
    let ghost all = records_view(metadata@);
    let mut i: usize = 0;
    assert(all.skip(0) =~= all);
    while i < metadata.len()
        invariant
            i <= metadata@.len(),
            all == records_view(metadata@),
            declared_count(all, list_id) == declared_count(all.skip(i as int), list_id),
        decreases metadata@.len() - i,
    {
        let m = &metadata[i];
        proof {
            assert(all.skip(i as int)[0] == m.deep_view());
            assert(all.skip(i as int).drop_first() =~= all.skip(i + 1));
        }
        if m.tag_id == TagId::BinaryDataArrayList && m.owner_id == list_id {
            let tail = b000_tail(opt_str(&m.accession));
            if tail == Some(ACC_ATTR_COUNT) {
                match as_u32(&m.value) {
                    Some(c) => {
                        return Some(c as usize);
                    },
                    None => {},
                }
            }
        }
        i = i + 1;
    }
    None
}

/// Finds the length that arrays inherit where they declare none.
fn find_inherited_length(metadata: &[Metadatum]) -> (r: Option<usize>)
    ensures
        r == inherited_length(records_view(metadata@)),
{
    let ghost all = records_view(metadata@);
    let mut i: usize = 0;
    assert(all.skip(0) =~= all);
    while i < metadata.len()
        invariant
            i <= metadata@.len(),
            all == records_view(metadata@),
            inherited_length(all) == inherited_length(all.skip(i as int)),
        decreases metadata@.len() - i,
    {
        let m = &metadata[i];
        proof {
            assert(all.skip(i as int)[0] == m.deep_view());
            assert(all.skip(i as int).drop_first() =~= all.skip(i + 1));
        }
        let tail = b000_tail(opt_str(&m.accession));
        if tail == Some(ACC_ATTR_DEFAULT_ARRAY_LENGTH) {
            match as_u32(&m.value) {
                Some(c) => {
                    return Some(c as usize);
                },
                None => {},
            }
        }
        i = i + 1;
    }
    None
}

/// Gives every array that declares no length the default length that the
/// records carry, where they carry one.
pub fn inherit_array_length_from_parent(metadata: &[Metadatum], bdas: &mut [BinaryDataArray])
    ensures
        final(bdas).deep_view() == Seq::new(
            old(bdas)@.len(),
            |i: int|
                with_inherited(
                    old(bdas).deep_view()[i],
                    inherited_length(records_view(metadata@)),
                ),
        ),
{
    let len = find_inherited_length(metadata);
    let ghost start = bdas.deep_view();
    let n = bdas.len();
    let mut i: usize = 0;
    while i < n
        invariant
            n == bdas@.len(),
            start.len() == n,
            i <= n,
            forall|j: int|
                0 <= j < i ==> #[trigger] bdas.deep_view()[j] == with_inherited(start[j], len),
            forall|j: int| i <= j < n ==> #[trigger] bdas.deep_view()[j] == start[j],
        decreases n - i,
    {
        let ghost before = bdas.deep_view();
        let ghost was = bdas@;
        let mut a = BinaryDataArray::empty();
        core::mem::swap(&mut a, &mut bdas[i]);
        assert(before[i as int] == start[i as int]);
        assert(before[i as int] == was[i as int].deep_view());
        assert(a == was[i as int]);
        if len.is_some() && a.array_length.is_none() {
            a.array_length = len;
        }
        assert(a.deep_view() =~~= with_inherited(start[i as int], len));
        bdas[i] = a;
        proof {
            assert(bdas.deep_view()[i as int] =~~= with_inherited(start[i as int], len));
            assert forall|j: int| 0 <= j < n && j != i implies #[trigger] bdas.deep_view()[j]
                == before[j] by {
                assert(bdas@[j] == was[j]);
                assert(before[j] == was[j].deep_view());
            }
        }
        i = i + 1;
    }
    assert(bdas.deep_view() =~= Seq::new(n as nat, |i: int| with_inherited(start[i], len)));
}

/// Rebuilds the list of arrays from the records of an item.
pub fn parse_binary_data_array_list(metadata: &[Metadatum], table: &CvTable) -> (r: Option<
    BinaryDataArrayList,
>)
    ensures
        r.deep_view() == array_list_of(records_view(metadata@), table@),
{
    let ghost all = records_view(metadata@);
    proof {
        lemma_first_of_tag(all, TagId::BinaryDataArrayList);
        lemma_first_of_tag(all, TagId::BinaryDataArray);
    }
    let list_id: u32 = match find_tag(metadata, TagId::BinaryDataArrayList) {
        Some(i) => metadata[i].owner_id,
        None => match find_tag(metadata, TagId::BinaryDataArray) {
            Some(i) => metadata[i].parent_index,
            None => {
                return None;
            },
        },
    };
    let count = find_declared_count(metadata, list_id);
    let mut tmp: Vec<OwnedArray> = Vec::new();
    let mut i: usize = 0;
    assert(owned_view(tmp@) =~= grouped(all.take(0), list_id, table@));
    while i < metadata.len()
        invariant
            i <= metadata@.len(),
            all == records_view(metadata@),
            owned_view(tmp@) == grouped(all.take(i as int), list_id, table@),
        decreases metadata@.len() - i,
    {
        proof {
            lemma_records_view_take(metadata@, i as int);
        }
        group_record(&mut tmp, &metadata[i], list_id, table);
        i = i + 1;
    }
    assert(all.take(i as int) =~= all);
    let ghost g = grouped(all, list_id, table@);
    let mut arrays: Vec<BinaryDataArray> = Vec::with_capacity(tmp.len());
    let ghost owned = owned_view(tmp@);
    assert(arrays.deep_view() =~= Seq::new(0nat, |k: int| g[k].1));
    for e in it: tmp
        invariant
            it.seq().len() == g.len(),
            forall|k: int| 0 <= k < g.len() ==> it.seq()[k].array.deep_view() == g[k].1,
            arrays.deep_view() == Seq::new(it.index() as nat, |k: int| g[k].1),
    {
        let ghost before = arrays;
        arrays.push(e.array);
        proof {
            lemma_deep_view_push(before, arrays, e.array);
            assert(arrays.deep_view() =~= Seq::new((it.index() + 1) as nat, |k: int| g[k].1));
        }
    }
    let ghost pre = arrays.deep_view();
    assert(pre.len() == g.len());
    assert(arrays@.len() == pre.len());
    inherit_array_length_from_parent(metadata, arrays.as_mut_slice());
    let n = arrays.len();
    assert(arrays.deep_view().len() == arrays@.len());
    proof {
        let len = inherited_length(all);
        assert(list_id_of(all) == Some(list_id));
        assert(n == g.len());
        assert(arrays.deep_view() =~= Seq::new(g.len(), |i: int| with_inherited(g[i].1, len)));
    }
    let r = Some(
        BinaryDataArrayList {
            count: match count {
                Some(c) => Some(c),
                None => Some(n),
            },
            binary_data_arrays: arrays,
        },
    );
    assert(r.deep_view() =~~= array_list_of(all, table@));
    r
}

} // verus!
