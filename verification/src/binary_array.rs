//! The numeric arrays of an item: telling the axes apart, attaching
//! decoded elements, and rebuilding the list from metadata records.

use vstd::prelude::*;
use vstd::string::StringSliceAdditionalSpecFns;
use vstd::utf8::{decode_utf8, encode_utf8};
use crate::accession::{
    accession_bytes, CODE_MS, cv_ref_from_code, make_accession, parse_accession_tail_str,
    prefix_ms, tail_bytes, text_of,
};
use crate::params::{CvParam, CvParamModel, lemma_deep_view_push};
use crate::precursor::{ACC_32BIT_FLOAT, ACC_64BIT_FLOAT};
use crate::run::{
    BinaryDataArray, BinaryDataArrayList, BinaryDataArrayListModel, BinaryDataArrayModel,
};
use crate::text::{bytes_eq, scattered_u32};

verus! {

/// The bytes of `MS:1000515`, the term "intensity array".
pub open spec fn acc_y_intensity() -> Seq<u8> {
    seq![77u8, 83u8, 58u8, 49u8, 48u8, 48u8, 48u8, 53u8, 49u8, 53u8]
}

/// The bytes of `MS:1000786`, the term "signal to noise array".
pub open spec fn acc_y_snr() -> Seq<u8> {
    seq![77u8, 83u8, 58u8, 49u8, 48u8, 48u8, 48u8, 55u8, 56u8, 54u8]
}

/// The bytes of `MS:1000521`, the term "32-bit float".
pub open spec fn acc_f32() -> Seq<u8> {
    seq![77u8, 83u8, 58u8, 49u8, 48u8, 48u8, 48u8, 53u8, 50u8, 49u8]
}

/// The bytes of `MS:1000523`, the term "64-bit float".
pub open spec fn acc_f64() -> Seq<u8> {
    seq![77u8, 83u8, 58u8, 49u8, 48u8, 48u8, 48u8, 53u8, 50u8, 51u8]
}

/// Whether the accession of a parameter is the given bytes.
pub open spec fn has_accession(p: CvParamModel, acc: Seq<u8>) -> bool {
    p.accession matches Some(c) && encode_utf8(c) == acc
}

/// Returns whether the accession of a parameter is the given bytes.
fn accession_is(p: &CvParam, acc: &[u8]) -> (r: bool)
    ensures
        r == has_accession(p.deep_view(), acc@),
{
    match &p.accession {
        Some(s) => bytes_eq(s.as_str().as_bytes(), acc),
        None => false,
    }
}

/// The number of elements an array holds: those of the 64-bit vector
/// where it is filled, else those of the 32-bit vector.
pub open spec fn model_len(a: BinaryDataArrayModel) -> nat {
    if a.decoded_binary_f64.len() != 0 {
        a.decoded_binary_f64.len()
    } else {
        a.decoded_binary_f32.len()
    }
}

/// Returns the number of elements an array holds.
pub fn decoded_len(bda: &BinaryDataArray) -> (n: usize)
    ensures
        n == model_len(bda.deep_view()),
{
    if !bda.decoded_binary_f64.is_empty() {
        bda.decoded_binary_f64.len()
    } else {
        bda.decoded_binary_f32.len()
    }
}

/// Whether an array is a Y array: one of its terms is "intensity array"
/// or "signal to noise array".
pub open spec fn model_is_y(a: BinaryDataArrayModel) -> bool {
    exists|i: int|
        0 <= i < a.cv_params.len() && (has_accession(#[trigger] a.cv_params[i], acc_y_intensity())
            || has_accession(a.cv_params[i], acc_y_snr()))
}

/// Returns whether an array is a Y array.
pub fn is_y_array(bda: &BinaryDataArray) -> (r: bool)
    ensures
        r == model_is_y(bda.deep_view()),
{
    let inten: [u8; 10] = [77, 83, 58, 49, 48, 48, 48, 53, 49, 53];
    let snr: [u8; 10] = [77, 83, 58, 49, 48, 48, 48, 55, 56, 54];
    assert(inten@ =~= acc_y_intensity());
    assert(snr@ =~= acc_y_snr());
    let ghost ps = bda.deep_view().cv_params;
    let mut i: usize = 0;
    while i < bda.cv_params.len()
        invariant
            i <= bda.cv_params@.len(),
            inten@ == acc_y_intensity(),
            snr@ == acc_y_snr(),
            ps == bda.deep_view().cv_params,
            forall|j: int|
                0 <= j < i ==> !has_accession(#[trigger] ps[j], acc_y_intensity())
                    && !has_accession(ps[j], acc_y_snr()),
        decreases bda.cv_params@.len() - i,
    {
        let p = &bda.cv_params[i];
        assert(ps[i as int] == p.deep_view());
        if accession_is(p, inten.as_slice()) || accession_is(p, snr.as_slice()) {
            return true;
        }
        i = i + 1;
    }
    false
}

/// The length of the first array that holds elements and is, or is not,
/// a Y array.
pub open spec fn first_len(arrays: Seq<BinaryDataArrayModel>, y: bool) -> Option<usize>
    decreases arrays.len(),
{
    if arrays.len() == 0 {
        None
    } else if model_len(arrays[0]) != 0 && model_is_y(arrays[0]) == y {
        Some(model_len(arrays[0]) as usize)
    } else {
        first_len(arrays.drop_first(), y)
    }
}

/// The lengths of the X array and the Y array of a list.
pub open spec fn xy_lengths(list: Option<BinaryDataArrayListModel>) -> (
    Option<usize>,
    Option<usize>,
) {
    match list {
        None => (None, None),
        Some(l) => (first_len(l.binary_data_arrays, false), first_len(l.binary_data_arrays, true)),
    }
}

/// Returns the lengths of the X array and the Y array of a list: for each
/// axis, the length of the first array of that axis that holds elements.
pub fn xy_lengths_from_bdal(list: Option<&BinaryDataArrayList>) -> (r: (
    Option<usize>,
    Option<usize>,
))
    ensures
        r == xy_lengths(list.deep_view()),
{
    let list = match list {
        Some(l) => l,
        None => {
            return (None, None);
        },
    };
    let ghost arrays = list.deep_view().binary_data_arrays;
    let mut x_len: Option<usize> = None;
    let mut y_len: Option<usize> = None;
    let mut i: usize = 0;
    assert(arrays.skip(0) =~= arrays);
    while i < list.binary_data_arrays.len()
        invariant
            i <= list.binary_data_arrays@.len(),
            arrays == list.deep_view().binary_data_arrays,
            first_len(arrays, false) == (if x_len is Some {
                x_len
            } else {
                first_len(arrays.skip(i as int), false)
            }),
            first_len(arrays, true) == (if y_len is Some {
                y_len
            } else {
                first_len(arrays.skip(i as int), true)
            }),
        decreases list.binary_data_arrays@.len() - i,
    {
        let bda = &list.binary_data_arrays[i];
        proof {
            assert(arrays.skip(i as int)[0] == bda.deep_view());
            assert(arrays.skip(i as int).drop_first() =~= arrays.skip(i + 1));
        }
        let len = decoded_len(bda);
        if len != 0 {
            if is_y_array(bda) {
                if y_len.is_none() {
                    y_len = Some(len);
                }
            } else if x_len.is_none() {
                x_len = Some(len);
            }
        }
        i = i + 1;
    }
    (x_len, y_len)
}

/// Whether the array has a term whose tail, read leniently, is `tail`.
pub open spec fn model_has_kind(a: BinaryDataArrayModel, tail: u32) -> bool {
    exists|i: int| 0 <= i < a.cv_params.len() && param_has_kind(#[trigger] a.cv_params[i], tail)
}

/// Whether the tail of the accession of a parameter, read leniently, is
/// `tail`.
pub open spec fn param_has_kind(p: CvParamModel, tail: u32) -> bool {
    p.accession matches Some(c) && scattered_u32(tail_bytes(encode_utf8(c))) == tail
}

/// Returns whether the array has a term whose tail is `tail`.
pub fn bda_has_array_kind(bda: &BinaryDataArray, tail: u32) -> (r: bool)
    ensures
        r == model_has_kind(bda.deep_view(), tail),
{
    let ghost ps = bda.deep_view().cv_params;
    let mut i: usize = 0;
    while i < bda.cv_params.len()
        invariant
            i <= bda.cv_params@.len(),
            ps == bda.deep_view().cv_params,
            forall|j: int| 0 <= j < i ==> !param_has_kind(#[trigger] ps[j], tail),
        decreases bda.cv_params@.len() - i,
    {
        let p = &bda.cv_params[i];
        assert(ps[i as int] == p.deep_view());
        let hit = match &p.accession {
            Some(a) => parse_accession_tail_str(a.as_str()) == tail,
            None => false,
        };
        if hit {
            return true;
        }
        i = i + 1;
    }
    false
}

/// The bytes of `32-bit float`.
pub open spec fn name_f32() -> Seq<u8> {
    seq![51u8, 50u8, 45u8, 98u8, 105u8, 116u8, 32u8, 102u8, 108u8, 111u8, 97u8, 116u8]
}

/// The bytes of `64-bit float`.
pub open spec fn name_f64() -> Seq<u8> {
    seq![54u8, 52u8, 45u8, 98u8, 105u8, 116u8, 32u8, 102u8, 108u8, 111u8, 97u8, 116u8]
}

/// The term that names an element format: "32-bit float" for the tail of
/// that term, and "64-bit float" for any other tail.
pub open spec fn float_term(tail: u32) -> CvParamModel {
    CvParamModel {
        cv_ref: Some(decode_utf8(prefix_ms())),
        accession: text_of(accession_bytes(Some(prefix_ms()), tail)),
        name: decode_utf8(
            if tail == ACC_32BIT_FLOAT {
                name_f32()
            } else {
                name_f64()
            },
        ),
        ..CvParamModel::empty()
    }
}

/// Makes the term that names an element format.
pub fn ms_float_param(accession_tail: u32) -> (p: CvParam)
    ensures
        p.deep_view() == float_term(accession_tail),
{
    let ms = cv_ref_from_code(CODE_MS);
    let n32: [u8; 12] = [51, 50, 45, 98, 105, 116, 32, 102, 108, 111, 97, 116];
    let n64: [u8; 12] = [54, 52, 45, 98, 105, 116, 32, 102, 108, 111, 97, 116];
    assert(n32@ =~= name_f32());
    assert(n64@ =~= name_f64());
    let mut name: Vec<u8> = Vec::new();
    if accession_tail == ACC_32BIT_FLOAT {
        name.extend_from_slice(n32.as_slice());
        assert(name@ =~= name_f32());
    } else {
        name.extend_from_slice(n64.as_slice());
        assert(name@ =~= name_f64());
    }
    let mut p = CvParam::empty();
    p.cv_ref = match ms {
        Some(t) => Some(t.to_owned()),
        None => None,
    };
    p.accession = make_accession(ms, accession_tail);
    p.name = crate::text::ascii_text(name);
    assert(p.deep_view() =~~= float_term(accession_tail));
    p
}

/// Whether the array has the term of the given accession.
pub open spec fn model_has_accession(a: BinaryDataArrayModel, acc: Seq<u8>) -> bool {
    exists|i: int| 0 <= i < a.cv_params.len() && has_accession(#[trigger] a.cv_params[i], acc)
}

/// Returns whether the array has the term of the given accession.
fn has_term(bda: &BinaryDataArray, acc: &[u8]) -> (r: bool)
    ensures
        r == model_has_accession(bda.deep_view(), acc@),
{
    let ghost ps = bda.deep_view().cv_params;
    let mut i: usize = 0;
    while i < bda.cv_params.len()
        invariant
            i <= bda.cv_params@.len(),
            ps == bda.deep_view().cv_params,
            forall|j: int| 0 <= j < i ==> !has_accession(#[trigger] ps[j], acc@),
        decreases bda.cv_params@.len() - i,
    {
        let p = &bda.cv_params[i];
        assert(ps[i as int] == p.deep_view());
        if accession_is(p, acc) {
            return true;
        }
        i = i + 1;
    }
    false
}

/// The parameters that do not carry the given accession.
pub open spec fn other_than(acc: Seq<u8>) -> spec_fn(CvParamModel) -> bool {
    |p: CvParamModel| !has_accession(p, acc)
}

/// The array with its element format flagged: the terms of the other
/// format are taken out, the term of the format is added unless it is
/// there, and the two flags are set to match.  All other terms stay, in
/// their order.
pub open spec fn flagged(a: BinaryDataArrayModel, is_f32: bool) -> BinaryDataArrayModel {
    if is_f32 {
        BinaryDataArrayModel {
            cv_params: if model_has_accession(a, acc_f32()) {
                a.cv_params.filter(other_than(acc_f64()))
            } else {
                a.cv_params.filter(other_than(acc_f64())).push(float_term(ACC_32BIT_FLOAT))
            },
            is_f32: Some(true),
            is_f64: None,
            ..a
        }
    } else {
        BinaryDataArrayModel {
            cv_params: if model_has_accession(a, acc_f64()) {
                a.cv_params.filter(other_than(acc_f32()))
            } else {
                a.cv_params.filter(other_than(acc_f32())).push(float_term(ACC_64BIT_FLOAT))
            },
            is_f64: Some(true),
            is_f32: None,
            ..a
        }
    }
}

/// Takes the terms of the given accession out of a list; the others
/// keep their order.
fn drop_terms(params: &mut Vec<CvParam>, acc: &[u8])
    ensures
        final(params).deep_view() == old(params).deep_view().filter(other_than(acc@)),
{
    let mut taken: Vec<CvParam> = Vec::new();
    core::mem::swap(params, &mut taken);
    let ghost all = taken.deep_view();
    assert(all == old(params).deep_view());
    assert(params.deep_view() =~= Seq::<CvParamModel>::empty());
    proof {
        reveal(Seq::filter);
        assert(all.take(0) =~= Seq::<CvParamModel>::empty());
    }
    for p in it: taken
        invariant
            it.seq().len() == all.len(),
            forall|j: int| 0 <= j < all.len() ==> it.seq()[j].deep_view() == all[j],
            params.deep_view() == all.take(it.index() as int).filter(other_than(acc@)),
    {
        let ghost k = it.index() as int;
        proof {
            assert(all.take(k + 1) =~= all.take(k).push(all[k]));
            all.take(k).lemma_filter_push(all[k], other_than(acc@));
        }
        if !accession_is(&p, acc) {
            let ghost before = *params;
            params.push(p);
            proof {
                lemma_deep_view_push(before, *params, p);
            }
        }
    }
    assert(all.take(all.len() as int) =~= all);
}

/// Flags the element format of an array.
pub fn ensure_float_flag(bda: &mut BinaryDataArray, is_f32: bool)
    ensures
        final(bda).deep_view() == flagged(old(bda).deep_view(), is_f32),
{
    let a32: [u8; 10] = [77, 83, 58, 49, 48, 48, 48, 53, 50, 49];
    let a64: [u8; 10] = [77, 83, 58, 49, 48, 48, 48, 53, 50, 51];
    assert(a32@ =~= acc_f32());
    assert(a64@ =~= acc_f64());
    if is_f32 {
        let present = has_term(bda, a32.as_slice());
        drop_terms(&mut bda.cv_params, a64.as_slice());
        if !present {
            let p = ms_float_param(ACC_32BIT_FLOAT);
            let ghost before = bda.cv_params;
            bda.cv_params.push(p);
            proof {
                lemma_deep_view_push(before, bda.cv_params, p);
            }
        }
        bda.is_f32 = Some(true);
        bda.is_f64 = None;
    } else {
        let present = has_term(bda, a64.as_slice());
        drop_terms(&mut bda.cv_params, a32.as_slice());
        if !present {
            let p = ms_float_param(ACC_64BIT_FLOAT);
            let ghost before = bda.cv_params;
            bda.cv_params.push(p);
            proof {
                lemma_deep_view_push(before, bda.cv_params, p);
            }
        }
        bda.is_f64 = Some(true);
        bda.is_f32 = None;
    }
    assert(bda.deep_view() =~~= flagged(old(bda).deep_view(), is_f32));
}

/// The decoded elements of one array, as bit patterns.
#[derive(Clone, Debug, PartialEq, Eq)]
pub enum ArrayData {
    /// Elements of 32 bits.
    F32(Vec<u32>),
    /// Elements of 64 bits.
    F64(Vec<u64>),
}

/// The content of an [`ArrayData`] as mathematical values.
pub enum ArrayDataModel {
    F32(Seq<u32>),
    F64(Seq<u64>),
}

impl DeepView for ArrayData {
    type V = ArrayDataModel;

    open spec fn deep_view(&self) -> ArrayDataModel {
        match self {
            ArrayData::F32(v) => ArrayDataModel::F32(v@),
            ArrayData::F64(v) => ArrayDataModel::F64(v@),
        }
    }
}

/// The array with the given elements in place of its own, and its element
/// format flagged to match.
pub open spec fn with_data(a: BinaryDataArrayModel, d: ArrayDataModel) -> BinaryDataArrayModel {
    match d {
        ArrayDataModel::F32(v) => flagged(
            BinaryDataArrayModel { decoded_binary_f32: v, decoded_binary_f64: Seq::empty(), ..a },
            true,
        ),
        ArrayDataModel::F64(v) => flagged(
            BinaryDataArrayModel { decoded_binary_f64: v, decoded_binary_f32: Seq::empty(), ..a },
            false,
        ),
    }
}

/// Puts elements into an array in place of its own.
fn put_data(bda: &mut BinaryDataArray, d: &ArrayData)
    ensures
        final(bda).deep_view() == with_data(old(bda).deep_view(), d.deep_view()),
{
    match d {
        ArrayData::F32(v) => {
            bda.decoded_binary_f32 = v.clone();
            bda.decoded_binary_f64 = Vec::new();
            assert(bda.deep_view() =~~= (BinaryDataArrayModel {
                decoded_binary_f32: v@,
                decoded_binary_f64: Seq::empty(),
                ..old(bda).deep_view()
            }));
            ensure_float_flag(bda, true);
        },
        ArrayData::F64(v) => {
            bda.decoded_binary_f64 = v.clone();
            bda.decoded_binary_f32 = Vec::new();
            assert(bda.deep_view() =~~= (BinaryDataArrayModel {
                decoded_binary_f64: v@,
                decoded_binary_f32: Seq::empty(),
                ..old(bda).deep_view()
            }));
            ensure_float_flag(bda, false);
        },
    }
}

/// The index of the first array with a term of the given kind, or -1.
pub open spec fn first_of_kind(arrays: Seq<BinaryDataArrayModel>, kind: u32) -> int
    decreases arrays.len(),
{
    if arrays.len() == 0 {
        -1
    } else {
        let before = first_of_kind(arrays.drop_last(), kind);
        if before >= 0 {
            before
        } else if model_has_kind(arrays.last(), kind) {
            arrays.len() - 1
        } else {
            -1
        }
    }
}

/// The list with the X and Y elements attached.
///
/// The X elements go to the first array with a term of kind `x_kind`, or
/// to the first array where there is none.  The Y elements go to the
/// first array with a term of kind `y_kind`, or to the second array where
/// there is none, or to the only array.  The count becomes the number of
/// arrays.  An empty list stays as it is.
pub open spec fn attached(
    list: BinaryDataArrayListModel,
    x: ArrayDataModel,
    y: ArrayDataModel,
    x_kind: u32,
    y_kind: u32,
) -> BinaryDataArrayListModel {
    let arrays = list.binary_data_arrays;
    if arrays.len() == 0 {
        list
    } else {
        let xi = if first_of_kind(arrays, x_kind) >= 0 {
            first_of_kind(arrays, x_kind)
        } else {
            0
        };
        let yi = if first_of_kind(arrays, y_kind) >= 0 {
            first_of_kind(arrays, y_kind)
        } else if arrays.len() > 1 {
            1
        } else {
            0
        };
        let with_x = arrays.update(xi, with_data(arrays[xi], x));
        let with_y = with_x.update(yi, with_data(with_x[yi], y));
        BinaryDataArrayListModel { count: Some(arrays.len() as usize), binary_data_arrays: with_y }
    }
}

/// `first_of_kind` is -1 or the index of an array.
pub proof fn lemma_first_of_kind(arrays: Seq<BinaryDataArrayModel>, kind: u32)
    ensures
        -1 <= first_of_kind(arrays, kind) < arrays.len(),
    decreases arrays.len(),
{
    if arrays.len() > 0 {
        lemma_first_of_kind(arrays.drop_last(), kind);
    }
}

/// Finds the first array with a term of the given kind.
pub fn find_kind(list: &BinaryDataArrayList, kind: u32) -> (r: Option<usize>)
    ensures
        match r {
            Some(i) => first_of_kind(list.deep_view().binary_data_arrays, kind) == i,
            None => first_of_kind(list.deep_view().binary_data_arrays, kind) == -1,
        },
{
    let ghost arrays = list.deep_view().binary_data_arrays;
    let mut i: usize = 0;
    while i < list.binary_data_arrays.len()
        invariant
            i <= list.binary_data_arrays@.len(),
            arrays == list.deep_view().binary_data_arrays,
            first_of_kind(arrays.take(i as int), kind) == -1,
        decreases list.binary_data_arrays@.len() - i,
    {
        proof {
            assert(arrays.take(i + 1).drop_last() =~= arrays.take(i as int));
            assert(arrays.take(i + 1).last() == list.binary_data_arrays@[i as int].deep_view());
        }
        if bda_has_array_kind(&list.binary_data_arrays[i], kind) {
            proof {
                lemma_kind_in_prefix(arrays, kind, i + 1);
            }
            return Some(i);
        }
        i = i + 1;
    }
    assert(arrays.take(i as int) =~= arrays);
    None
}

/// Once a prefix of the arrays holds the kind, the first array of the
/// kind in the whole is the first in that prefix.
proof fn lemma_kind_in_prefix(arrays: Seq<BinaryDataArrayModel>, kind: u32, n: int)
    requires
        0 <= n <= arrays.len(),
        first_of_kind(arrays.take(n), kind) >= 0,
    ensures
        first_of_kind(arrays, kind) == first_of_kind(arrays.take(n), kind),
    decreases arrays.len() - n,
{
    if n < arrays.len() {
        assert(arrays.take(n + 1).drop_last() =~= arrays.take(n));
        lemma_kind_in_prefix(arrays, kind, n + 1);
    } else {
        assert(arrays.take(n) =~= arrays);
    }
}

/// Attaches the decoded X and Y elements to the arrays of a list.
pub fn attach_xy_arrays_to_bdal(
    list: &mut BinaryDataArrayList,
    x: &ArrayData,
    y: &ArrayData,
    x_kind: u32,
    y_kind: u32,
)
    ensures
        final(list).deep_view() == attached(
            old(list).deep_view(),
            x.deep_view(),
            y.deep_view(),
            x_kind,
            y_kind,
        ),
{
    let n = list.binary_data_arrays.len();
    if n == 0 {
        return ;
    }
    let ghost arrays = list.deep_view().binary_data_arrays;
    proof {
        lemma_first_of_kind(arrays, x_kind);
        lemma_first_of_kind(arrays, y_kind);
    }
    let x_idx: usize = match find_kind(list, x_kind) {
        Some(i) => i,
        None => 0,
    };
    let y_idx: usize = match find_kind(list, y_kind) {
        Some(i) => i,
        None => if n > 1 {
            1
        } else {
            0
        },
    };
    put_data(&mut list.binary_data_arrays[x_idx], x);
    let ghost with_x = list.deep_view().binary_data_arrays;
    assert(with_x =~= arrays.update(x_idx as int, with_data(arrays[x_idx as int], x.deep_view())));
    put_data(&mut list.binary_data_arrays[y_idx], y);
    list.count = Some(n);
    assert(list.deep_view().binary_data_arrays =~= with_x.update(
        y_idx as int,
        with_data(with_x[y_idx as int], y.deep_view()),
    ));
}

} // verus!
