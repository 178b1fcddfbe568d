//! From a document to what a file holds of it: the parameters and the
//! two arrays of every item, and the parameters of the global sections.

use vstd::prelude::*;
use vstd::utf8::decode_utf8;
use crate::attributes::{front_params, front_records, ItemAttrs, ItemAttrsModel};
use crate::binary_array::{find_kind, first_of_kind, lemma_first_of_kind};
use crate::bytes::{u32s_le_bytes, u32s_to_le, u64s_le_bytes, u64s_to_le};
use crate::document::{
    Cv, CvModel, DataProcessing, DataProcessingModel, Instrument, InstrumentModel, MzML, MzMLModel,
    ReferenceableParamGroup, ReferenceableParamGroupModel, Sample, SampleModel, ScanSettings,
    ScanSettingsModel, Software, SoftwareModel,
};
use crate::error::EncodeError;
use crate::file_writer::{encode_error, encode_flat, file_bytes, FlatFile, FlatModel};
use crate::global::GlobalCounts;
use crate::header::{FMT_F32, FMT_F64};
use crate::metadatum::{ACC_ATTR_FULL_NAME, ACC_ATTR_ID, ACC_ATTR_URI, ACC_ATTR_VERSION, clone_text};
use crate::packing::vecs_view;
use crate::params::{CvParam, CvParamModel, lemma_deep_view_push, ParamValue, ParamValueModel};
use crate::precursor::{ACC_INTENSITY_ARRAY, ACC_MZ_ARRAY, ACC_TIME_ARRAY};
use crate::run::{
    BinaryDataArray, BinaryDataArrayList, BinaryDataArrayListModel, BinaryDataArrayModel,
    Chromatogram, ChromatogramModel, Precursor, PrecursorListModel, PrecursorModel,
    SelectedIonModel, Spectrum, SpectrumModel,
};
use crate::text::{ascii_text, decimal, lemma_decimal_ascii, push_decimal};
use crate::tree_records::{carried, make_carried};

verus! {

/// Copies a value.
pub fn clone_param_value(v: &ParamValue) -> (r: ParamValue)
    ensures
        r.deep_view() == v.deep_view(),
{
    match v {
        ParamValue::Empty => ParamValue::Empty,
        ParamValue::Text(s) => ParamValue::Text(s.clone()),
        ParamValue::Number(b) => ParamValue::Number(*b),
    }
}

/// Copies a parameter.
pub fn clone_cv_param(p: &CvParam) -> (r: CvParam)
    ensures
        r.deep_view() == p.deep_view(),
{
    CvParam {
        cv_ref: clone_text(&p.cv_ref),
        accession: clone_text(&p.accession),
        name: p.name.clone(),
        value: clone_param_value(&p.value),
        unit_cv_ref: clone_text(&p.unit_cv_ref),
        unit_name: clone_text(&p.unit_name),
        unit_accession: clone_text(&p.unit_accession),
    }
}

/// Appends copies of parameters to a list.
pub fn push_params(out: &mut Vec<CvParam>, ps: &Vec<CvParam>)
    ensures
        final(out).deep_view() == old(out).deep_view() + ps.deep_view(),
{
    let ghost start = out.deep_view();
    let ghost all = ps.deep_view();
    let mut i: usize = 0;
    assert(out.deep_view() =~= start + all.take(0));
    while i < ps.len()
        invariant
            i <= ps@.len(),
            all == ps.deep_view(),
            out.deep_view() == start + all.take(i as int),
        decreases ps@.len() - i,
    {
        let p = clone_cv_param(&ps[i]);
        let ghost before = *out;
        out.push(p);
        proof {
            lemma_deep_view_push(before, *out, p);
            assert(start + all.take(i + 1) =~= (start + all.take(i as int)).push(all[i as int]));
        }
        i = i + 1;
    }
    assert(all.take(i as int) =~= all);
}

/// The parameters of the selected ions from place `i` on, one ion after
/// the other.
pub open spec fn ion_params(ions: Seq<SelectedIonModel>, n: int) -> Seq<CvParamModel>
    decreases n,
{
    if n <= 0 {
        Seq::empty()
    } else {
        ion_params(ions, n - 1) + ions[n - 1].cv_params
    }
}

/// The parameters that describe one precursor: those of its isolation
/// window, then those of its selected ions, then those of its
/// activation.
pub open spec fn one_precursor_params(p: PrecursorModel) -> Seq<CvParamModel> {
    (match p.isolation_window {
        Some(w) => w.cv_params,
        None => Seq::empty(),
    }) + (match p.selected_ion_list {
        Some(l) => ion_params(l.selected_ions, l.selected_ions.len() as int),
        None => Seq::empty(),
    }) + (match p.activation {
        Some(a) => a.cv_params,
        None => Seq::empty(),
    })
}

/// The parameters that describe the first `n` precursors.
pub open spec fn precursors_params(ps: Seq<PrecursorModel>, n: int) -> Seq<CvParamModel>
    decreases n,
{
    if n <= 0 {
        Seq::empty()
    } else {
        precursors_params(ps, n - 1) + one_precursor_params(ps[n - 1])
    }
}

/// The spectrum that the first precursor of a list refers to.
pub open spec fn first_spectrum_ref(pl: Option<PrecursorListModel>) -> Option<Seq<char>> {
    match pl {
        Some(l) => if l.precursors.len() > 0 {
            l.precursors[0].spectrum_ref
        } else {
            None
        },
        None => None,
    }
}

/// The attributes that a spectrum is written with.
pub open spec fn spectrum_attrs(s: SpectrumModel) -> ItemAttrsModel {
    ItemAttrsModel {
        id: s.id,
        index: s.index,
        scan_number: s.scan_number,
        native_id: s.native_id,
        data_processing_ref: s.data_processing_ref,
        source_file_ref: s.source_file_ref,
        spot_id: s.spot_id,
        ms_level: s.ms_level,
        spectrum_ref: first_spectrum_ref(s.precursor_list),
    }
}

/// The terms that a spectrum is written with: its own, then those that
/// describe its precursors.
pub open spec fn spectrum_terms(s: SpectrumModel) -> Seq<CvParamModel> {
    s.cv_params + (match s.precursor_list {
        Some(l) => precursors_params(l.precursors, l.precursors.len() as int),
        None => Seq::empty(),
    })
}

/// The parameters that a spectrum is written with: the records of its
/// attributes and of its free-form entries, then its terms.
pub open spec fn spectrum_params(s: SpectrumModel) -> Seq<CvParamModel> {
    front_params(spectrum_attrs(s), s.user_params) + spectrum_terms(s)
}

/// The attributes that a chromatogram is written with.
pub open spec fn chromatogram_attrs(c: ChromatogramModel) -> ItemAttrsModel {
    ItemAttrsModel {
        id: c.id,
        index: c.index,
        scan_number: None,
        native_id: c.native_id,
        data_processing_ref: c.data_processing_ref,
        source_file_ref: None,
        spot_id: None,
        ms_level: None,
        spectrum_ref: None,
    }
}

/// The parameters that a chromatogram is written with: the records of
/// its attributes and of its free-form entries, then its terms.
pub open spec fn chromatogram_params(c: ChromatogramModel) -> Seq<CvParamModel> {
    front_params(chromatogram_attrs(c), c.user_params) + c.cv_params
}

/// Appends the parameters that describe a precursor to a list.
fn push_precursor_params(out: &mut Vec<CvParam>, p: &Precursor)
    ensures
        final(out).deep_view() == old(out).deep_view() + one_precursor_params(p.deep_view()),
{
    let ghost start = out.deep_view();
    let ghost iso = match p.deep_view().isolation_window {
        Some(w) => w.cv_params,
        None => Seq::empty(),
    };
    match &p.isolation_window {
        Some(w) => {
            push_params(out, &w.cv_params);
        },
        None => {
            assert(start + iso =~= start);
        },
    }
    let ghost with_iso = out.deep_view();
    let ghost ions = match p.deep_view().selected_ion_list {
        Some(l) => ion_params(l.selected_ions, l.selected_ions.len() as int),
        None => Seq::empty(),
    };
    match &p.selected_ion_list {
        Some(l) => {
            let ghost lm = l.deep_view().selected_ions;
            let mut i: usize = 0;
            assert(with_iso + ion_params(lm, 0) =~= with_iso);
            while i < l.selected_ions.len()
                invariant
                    i <= l.selected_ions@.len(),
                    lm == l.deep_view().selected_ions,
                    out.deep_view() == with_iso + ion_params(lm, i as int),
                decreases l.selected_ions@.len() - i,
            {
                let ghost before = out.deep_view();
                push_params(out, &l.selected_ions[i].cv_params);
                proof {
                    assert(lm[i as int] == l.selected_ions@[i as int].deep_view());
                    assert(with_iso + ion_params(lm, i + 1) =~= before + lm[i as int].cv_params);
                }
                i = i + 1;
            }
        },
        None => {
            assert(with_iso + ions =~= with_iso);
        },
    }
    let ghost with_ions = out.deep_view();
    match &p.activation {
        Some(a) => {
            push_params(out, &a.cv_params);
        },
        None => {
            assert(with_ions + Seq::<CvParamModel>::empty() =~= with_ions);
        },
    }
    assert(out.deep_view() =~= start + one_precursor_params(p.deep_view()));
}

/// Collects the parameters that a spectrum is written with.
pub fn collect_spectrum_params(s: &Spectrum) -> (out: Vec<CvParam>)
    ensures
        out.deep_view() == spectrum_params(s.deep_view()),
{
    let spectrum_ref = match &s.precursor_list {
        Some(l) => if l.precursors.len() > 0 {
            assert(l.deep_view().precursors[0] == l.precursors@[0].deep_view());
            clone_text(&l.precursors[0].spectrum_ref)
        } else {
            None
        },
        None => None,
    };
    let attrs = ItemAttrs {
        id: s.id.clone(),
        index: s.index,
        scan_number: s.scan_number,
        native_id: clone_text(&s.native_id),
        data_processing_ref: clone_text(&s.data_processing_ref),
        source_file_ref: clone_text(&s.source_file_ref),
        spot_id: clone_text(&s.spot_id),
        ms_level: s.ms_level,
        spectrum_ref,
    };
    assert(attrs.deep_view() =~~= spectrum_attrs(s.deep_view()));
    let mut out = front_records(&attrs, &s.user_params);
    let ghost front = out.deep_view();
    push_params(&mut out, &s.cv_params);
    let ghost own = out.deep_view();
    assert(own =~= front + s.deep_view().cv_params);
    match &s.precursor_list {
        Some(l) => {
            let ghost pm = l.deep_view().precursors;
            let mut i: usize = 0;
            assert(own + precursors_params(pm, 0) =~= own);
            while i < l.precursors.len()
                invariant
                    i <= l.precursors@.len(),
                    pm == l.deep_view().precursors,
                    out.deep_view() == own + precursors_params(pm, i as int),
                decreases l.precursors@.len() - i,
            {
                let ghost before = out.deep_view();
                push_precursor_params(&mut out, &l.precursors[i]);
                proof {
                    assert(pm[i as int] == l.precursors@[i as int].deep_view());
                    assert(own + precursors_params(pm, i + 1) =~= before + one_precursor_params(
                        pm[i as int],
                    ));
                }
                i = i + 1;
            }
        },
        None => {
            assert(own + Seq::<CvParamModel>::empty() =~= own);
        },
    }
    assert(out.deep_view() =~= spectrum_params(s.deep_view()));
    out
}

/// Collects the parameters that a chromatogram is written with.
pub fn collect_chromatogram_params(c: &Chromatogram) -> (out: Vec<CvParam>)
    ensures
        out.deep_view() == chromatogram_params(c.deep_view()),
{
    let attrs = ItemAttrs {
        id: c.id.clone(),
        index: c.index,
        scan_number: None,
        native_id: clone_text(&c.native_id),
        data_processing_ref: clone_text(&c.data_processing_ref),
        source_file_ref: None,
        spot_id: None,
        ms_level: None,
        spectrum_ref: None,
    };
    assert(attrs.deep_view() =~~= chromatogram_attrs(c.deep_view()));
    let mut out = front_records(&attrs, &c.user_params);
    push_params(&mut out, &c.cv_params);
    out
}

/// The bytes that the elements of an array are written as: those of its
/// 32-bit vector for the 32-bit format, else those of its 64-bit vector.
pub open spec fn array_bytes(a: BinaryDataArrayModel, fmt: u8) -> Seq<u8> {
    if fmt == FMT_F32 {
        u32s_le_bytes(a.decoded_binary_f32)
    } else {
        u64s_le_bytes(a.decoded_binary_f64)
    }
}

/// The place of the X array in a list that is not empty: the first array
/// with a term of the kind of the axis, else the first array.
pub open spec fn x_place(l: BinaryDataArrayListModel, axis: u32) -> int {
    if first_of_kind(l.binary_data_arrays, axis) >= 0 {
        first_of_kind(l.binary_data_arrays, axis)
    } else {
        0
    }
}

/// The place of the Y array in a list that is not empty: the first array
/// with the term "intensity array", else the second array, else the only
/// one.
pub open spec fn y_place(l: BinaryDataArrayListModel) -> int {
    if first_of_kind(l.binary_data_arrays, ACC_INTENSITY_ARRAY) >= 0 {
        first_of_kind(l.binary_data_arrays, ACC_INTENSITY_ARRAY)
    } else if l.binary_data_arrays.len() > 1 {
        1
    } else {
        0
    }
}

/// The bytes of the X array of an item; none where it has no array.
pub open spec fn x_bytes(l: Option<BinaryDataArrayListModel>, axis: u32, fmt: u8) -> Seq<u8> {
    match l {
        Some(l) => if l.binary_data_arrays.len() == 0 {
            Seq::empty()
        } else {
            array_bytes(l.binary_data_arrays[x_place(l, axis)], fmt)
        },
        None => Seq::empty(),
    }
}

/// The bytes of the Y array of an item; none where it has no array.
pub open spec fn y_bytes(l: Option<BinaryDataArrayListModel>, fmt: u8) -> Seq<u8> {
    match l {
        Some(l) => if l.binary_data_arrays.len() == 0 {
            Seq::empty()
        } else {
            array_bytes(l.binary_data_arrays[y_place(l)], fmt)
        },
        None => Seq::empty(),
    }
}

/// Writes the elements of an array as bytes.
fn write_array(a: &BinaryDataArray, fmt: u8) -> (out: Vec<u8>)
    ensures
        out@ == array_bytes(a.deep_view(), fmt),
{
    assert(a.decoded_binary_f32.deep_view() =~= a.decoded_binary_f32@);
    assert(a.decoded_binary_f64.deep_view() =~= a.decoded_binary_f64@);
    if fmt == FMT_F32 {
        u32s_to_le(a.decoded_binary_f32.as_slice())
    } else {
        u64s_to_le(a.decoded_binary_f64.as_slice())
    }
}

/// Writes the X array and the Y array of an item as bytes.
pub fn collect_arrays(l: &Option<BinaryDataArrayList>, axis: u32, fmt: u8) -> (r: (Vec<u8>, Vec<u8>))
    ensures
        r.0@ == x_bytes(l.deep_view(), axis, fmt),
        r.1@ == y_bytes(l.deep_view(), fmt),
{
    match l {
        None => (Vec::new(), Vec::new()),
        Some(list) => {
            let n = list.binary_data_arrays.len();
            if n == 0 {
                return (Vec::new(), Vec::new());
            }
            let ghost arrays = list.deep_view().binary_data_arrays;
            proof {
                lemma_first_of_kind(arrays, axis);
                lemma_first_of_kind(arrays, ACC_INTENSITY_ARRAY);
            }
            let xi: usize = match find_kind(list, axis) {
                Some(i) => i,
                None => 0,
            };
            let yi: usize = match find_kind(list, ACC_INTENSITY_ARRAY) {
                Some(i) => i,
                None => if n > 1 {
                    1
                } else {
                    0
                },
            };
            assert(arrays[xi as int] == list.binary_data_arrays@[xi as int].deep_view());
            assert(arrays[yi as int] == list.binary_data_arrays@[yi as int].deep_view());
            (
                write_array(&list.binary_data_arrays[xi], fmt),
                write_array(&list.binary_data_arrays[yi], fmt),
            )
        },
    }
}

/// The parameters of the first step of a data processing chain; none
/// where it has no step.
pub open spec fn first_step_params(dp: DataProcessingModel) -> Seq<CvParamModel> {
    if dp.processing_method.len() > 0 {
        dp.processing_method[0].cv_param
    } else {
        Seq::empty()
    }
}

/// The parameter that carries an attribute: its accession is the tail of
/// the attribute in decimal digits.
pub open spec fn attr_param(tail: u32, value: ParamValueModel) -> CvParamModel {
    CvParamModel {
        accession: Some(decode_utf8(decimal(tail as nat))),
        value,
        ..CvParamModel::empty()
    }
}

/// The four attributes of a vocabulary as parameters.
pub open spec fn cv_attr_params(c: CvModel) -> Seq<CvParamModel> {
    seq![
        attr_param(ACC_ATTR_ID, c.id),
        attr_param(ACC_ATTR_FULL_NAME, c.full_name),
        attr_param(ACC_ATTR_VERSION, c.version),
        attr_param(ACC_ATTR_URI, c.uri),
    ]
}

/// Makes the parameter that carries an attribute.
pub fn make_attr_param(tail: u32, value: &ParamValue) -> (p: CvParam)
    ensures
        p.deep_view() == attr_param(tail, value.deep_view()),
{
    let mut digits: Vec<u8> = Vec::new();
    push_decimal(&mut digits, tail, 1);
    proof {
        lemma_decimal_ascii(tail as nat);
        assert(digits@ =~= decimal(tail as nat));
    }
    let mut p = CvParam::empty();
    p.accession = Some(ascii_text(digits));
    p.value = clone_param_value(value);
    assert(p.deep_view() =~~= attr_param(tail, value.deep_view()));
    p
}

/// Makes the four attributes of a vocabulary as parameters.
fn cv_params_of(c: &Cv) -> (ps: Vec<CvParam>)
    ensures
        ps.deep_view() == cv_attr_params(c.deep_view()),
{
    let mut ps: Vec<CvParam> = Vec::new();
    ps.push(make_attr_param(ACC_ATTR_ID, &c.id));
    ps.push(make_attr_param(ACC_ATTR_FULL_NAME, &c.full_name));
    ps.push(make_attr_param(ACC_ATTR_VERSION, &c.version));
    ps.push(make_attr_param(ACC_ATTR_URI, &c.uri));
    assert(ps.deep_view() =~= cv_attr_params(c.deep_view()));
    ps
}

/// The parameters of each shared parameter group.
pub open spec fn group_items(list: Seq<ReferenceableParamGroupModel>) -> Seq<Seq<CvParamModel>> {
    Seq::new(list.len(), |i: int| list[i].cv_params)
}

/// Appends the parameters of each shared parameter group to the items.
fn push_group(out: &mut Vec<Vec<CvParam>>, list: &Vec<ReferenceableParamGroup>)
    ensures
        final(out).deep_view() == old(out).deep_view() + group_items(list.deep_view()),
{
    let ghost start = out.deep_view();
    let ghost lm = list.deep_view();
    let mut i: usize = 0;
    assert(start + group_items(lm).take(0) =~= start);
    while i < list.len()
        invariant
            i <= list@.len(),
            lm == list.deep_view(),
            out.deep_view() == start + group_items(lm).take(i as int),
        decreases list@.len() - i,
    {
        let e = &list[i];
        assert(lm[i as int] == e.deep_view());
        let mut ps: Vec<CvParam> = Vec::new();
        assert(ps.deep_view() =~= Seq::<CvParamModel>::empty());
        push_params(&mut ps, &e.cv_params);
        assert(ps.deep_view() =~= e.deep_view().cv_params);
        let ghost before = *out;
        out.push(ps);
        proof {
            lemma_deep_view_push(before, *out, ps);
            assert(start + group_items(lm).take(i + 1) =~= (start + group_items(lm).take(
                i as int,
            )).push(group_items(lm)[i as int]));
        }
        i = i + 1;
    }
    assert(group_items(lm).take(i as int) =~= group_items(lm));
}

/// The parameters of each sample.
pub open spec fn sample_items(list: Seq<SampleModel>) -> Seq<Seq<CvParamModel>> {
    Seq::new(list.len(), |i: int| list[i].cv_params)
}

/// Appends the parameters of each sample to the items.
fn push_sample(out: &mut Vec<Vec<CvParam>>, list: &Vec<Sample>)
    ensures
        final(out).deep_view() == old(out).deep_view() + sample_items(list.deep_view()),
{
    let ghost start = out.deep_view();
    let ghost lm = list.deep_view();
    let mut i: usize = 0;
    assert(start + sample_items(lm).take(0) =~= start);
    while i < list.len()
        invariant
            i <= list@.len(),
            lm == list.deep_view(),
            out.deep_view() == start + sample_items(lm).take(i as int),
        decreases list@.len() - i,
    {
        let e = &list[i];
        assert(lm[i as int] == e.deep_view());
        let mut ps: Vec<CvParam> = Vec::new();
        assert(ps.deep_view() =~= Seq::<CvParamModel>::empty());
        push_params(&mut ps, &e.cv_params);
        assert(ps.deep_view() =~= e.deep_view().cv_params);
        let ghost before = *out;
        out.push(ps);
        proof {
            lemma_deep_view_push(before, *out, ps);
            assert(start + sample_items(lm).take(i + 1) =~= (start + sample_items(lm).take(
                i as int,
            )).push(sample_items(lm)[i as int]));
        }
        i = i + 1;
    }
    assert(sample_items(lm).take(i as int) =~= sample_items(lm));
}

/// The parameters of each instrument configuration.
pub open spec fn instrument_items(list: Seq<InstrumentModel>) -> Seq<Seq<CvParamModel>> {
    Seq::new(list.len(), |i: int| list[i].cv_param)
}

/// Appends the parameters of each instrument configuration to the items.
fn push_instrument(out: &mut Vec<Vec<CvParam>>, list: &Vec<Instrument>)
    ensures
        final(out).deep_view() == old(out).deep_view() + instrument_items(list.deep_view()),
{
    let ghost start = out.deep_view();
    let ghost lm = list.deep_view();
    let mut i: usize = 0;
    assert(start + instrument_items(lm).take(0) =~= start);
    while i < list.len()
        invariant
            i <= list@.len(),
            lm == list.deep_view(),
            out.deep_view() == start + instrument_items(lm).take(i as int),
        decreases list@.len() - i,
    {
        let e = &list[i];
        assert(lm[i as int] == e.deep_view());
        let mut ps: Vec<CvParam> = Vec::new();
        assert(ps.deep_view() =~= Seq::<CvParamModel>::empty());
        push_params(&mut ps, &e.cv_param);
        assert(ps.deep_view() =~= e.deep_view().cv_param);
        let ghost before = *out;
        out.push(ps);
        proof {
            lemma_deep_view_push(before, *out, ps);
            assert(start + instrument_items(lm).take(i + 1) =~= (start + instrument_items(lm).take(
                i as int,
            )).push(instrument_items(lm)[i as int]));
        }
        i = i + 1;
    }
    assert(instrument_items(lm).take(i as int) =~= instrument_items(lm));
}

/// The parameters of each piece of software.
pub open spec fn software_items(list: Seq<SoftwareModel>) -> Seq<Seq<CvParamModel>> {
    Seq::new(list.len(), |i: int| list[i].cv_param)
}

/// Appends the parameters of each piece of software to the items.
fn push_software(out: &mut Vec<Vec<CvParam>>, list: &Vec<Software>)
    ensures
        final(out).deep_view() == old(out).deep_view() + software_items(list.deep_view()),
{
    let ghost start = out.deep_view();
    let ghost lm = list.deep_view();
    let mut i: usize = 0;
    assert(start + software_items(lm).take(0) =~= start);
    while i < list.len()
        invariant
            i <= list@.len(),
            lm == list.deep_view(),
            out.deep_view() == start + software_items(lm).take(i as int),
        decreases list@.len() - i,
    {
        let e = &list[i];
        assert(lm[i as int] == e.deep_view());
        let mut ps: Vec<CvParam> = Vec::new();
        assert(ps.deep_view() =~= Seq::<CvParamModel>::empty());
        push_params(&mut ps, &e.cv_param);
        assert(ps.deep_view() =~= e.deep_view().cv_param);
        let ghost before = *out;
        out.push(ps);
        proof {
            lemma_deep_view_push(before, *out, ps);
            assert(start + software_items(lm).take(i + 1) =~= (start + software_items(lm).take(
                i as int,
            )).push(software_items(lm)[i as int]));
        }
        i = i + 1;
    }
    assert(software_items(lm).take(i as int) =~= software_items(lm));
}

/// The parameters of each set of scan settings.
pub open spec fn settings_items(list: Seq<ScanSettingsModel>) -> Seq<Seq<CvParamModel>> {
    Seq::new(list.len(), |i: int| list[i].cv_params)
}

/// Appends the parameters of each set of scan settings to the items.
fn push_settings(out: &mut Vec<Vec<CvParam>>, list: &Vec<ScanSettings>)
    ensures
        final(out).deep_view() == old(out).deep_view() + settings_items(list.deep_view()),
{
    let ghost start = out.deep_view();
    let ghost lm = list.deep_view();
    let mut i: usize = 0;
    assert(start + settings_items(lm).take(0) =~= start);
    while i < list.len()
        invariant
            i <= list@.len(),
            lm == list.deep_view(),
            out.deep_view() == start + settings_items(lm).take(i as int),
        decreases list@.len() - i,
    {
        let e = &list[i];
        assert(lm[i as int] == e.deep_view());
        let mut ps: Vec<CvParam> = Vec::new();
        assert(ps.deep_view() =~= Seq::<CvParamModel>::empty());
        push_params(&mut ps, &e.cv_params);
        assert(ps.deep_view() =~= e.deep_view().cv_params);
        let ghost before = *out;
        out.push(ps);
        proof {
            lemma_deep_view_push(before, *out, ps);
            assert(start + settings_items(lm).take(i + 1) =~= (start + settings_items(lm).take(
                i as int,
            )).push(settings_items(lm)[i as int]));
        }
        i = i + 1;
    }
    assert(settings_items(lm).take(i as int) =~= settings_items(lm));
}

/// The parameters of each chromatogram, with its attributes and its
/// free-form entries in front.
pub open spec fn chromatogram_items(list: Seq<ChromatogramModel>) -> Seq<Seq<CvParamModel>> {
    Seq::new(list.len(), |i: int| chromatogram_params(list[i]))
}

/// Appends the parameters of each chromatogram to the items.
fn push_chromatogram(out: &mut Vec<Vec<CvParam>>, list: &Vec<Chromatogram>)
    ensures
        final(out).deep_view() == old(out).deep_view() + chromatogram_items(list.deep_view()),
{
    let ghost start = out.deep_view();
    let ghost lm = list.deep_view();
    let mut i: usize = 0;
    assert(start + chromatogram_items(lm).take(0) =~= start);
    while i < list.len()
        invariant
            i <= list@.len(),
            lm == list.deep_view(),
            out.deep_view() == start + chromatogram_items(lm).take(i as int),
        decreases list@.len() - i,
    {
        let e = &list[i];
        assert(lm[i as int] == e.deep_view());
        let ps = collect_chromatogram_params(e);
        let ghost before = *out;
        out.push(ps);
        proof {
            lemma_deep_view_push(before, *out, ps);
            assert(start + chromatogram_items(lm).take(i + 1) =~= (start + chromatogram_items(lm).take(
                i as int,
            )).push(chromatogram_items(lm)[i as int]));
        }
        i = i + 1;
    }
    assert(chromatogram_items(lm).take(i as int) =~= chromatogram_items(lm));
}

/// The parameters of each data processing chain: those of its first step.
pub open spec fn processing_items(list: Seq<DataProcessingModel>) -> Seq<Seq<CvParamModel>> {
    Seq::new(list.len(), |i: int| first_step_params(list[i]))
}

/// Appends the parameters of each data processing chain: those of its first step to the items.
fn push_processing(out: &mut Vec<Vec<CvParam>>, list: &Vec<DataProcessing>)
    ensures
        final(out).deep_view() == old(out).deep_view() + processing_items(list.deep_view()),
{
    let ghost start = out.deep_view();
    let ghost lm = list.deep_view();
    let mut i: usize = 0;
    assert(start + processing_items(lm).take(0) =~= start);
    while i < list.len()
        invariant
            i <= list@.len(),
            lm == list.deep_view(),
            out.deep_view() == start + processing_items(lm).take(i as int),
        decreases list@.len() - i,
    {
        let e = &list[i];
        assert(lm[i as int] == e.deep_view());
        let mut ps: Vec<CvParam> = Vec::new();
        assert(ps.deep_view() =~= Seq::<CvParamModel>::empty());
        if e.processing_method.len() > 0 {
            push_params(&mut ps, &e.processing_method[0].cv_param);
            assert(e.deep_view().processing_method[0] == e.processing_method@[0].deep_view());
            assert(ps.deep_view() =~= e.deep_view().processing_method[0].cv_param);
        }
        let ghost before = *out;
        out.push(ps);
        proof {
            lemma_deep_view_push(before, *out, ps);
            assert(start + processing_items(lm).take(i + 1) =~= (start + processing_items(lm).take(
                i as int,
            )).push(processing_items(lm)[i as int]));
        }
        i = i + 1;
    }
    assert(processing_items(lm).take(i as int) =~= processing_items(lm));
}

/// The parameters of each spectrum: its attributes and free-form
/// entries, its terms and those of its precursors.
pub open spec fn spectrum_items(list: Seq<SpectrumModel>) -> Seq<Seq<CvParamModel>> {
    Seq::new(list.len(), |i: int| spectrum_params(list[i]))
}

/// Appends the parameters of each spectrum, with those of its precursors to the items.
fn push_spectrum(out: &mut Vec<Vec<CvParam>>, list: &Vec<Spectrum>)
    ensures
        final(out).deep_view() == old(out).deep_view() + spectrum_items(list.deep_view()),
{
    let ghost start = out.deep_view();
    let ghost lm = list.deep_view();
    let mut i: usize = 0;
    assert(start + spectrum_items(lm).take(0) =~= start);
    while i < list.len()
        invariant
            i <= list@.len(),
            lm == list.deep_view(),
            out.deep_view() == start + spectrum_items(lm).take(i as int),
        decreases list@.len() - i,
    {
        let e = &list[i];
        assert(lm[i as int] == e.deep_view());
        let mut ps: Vec<CvParam> = Vec::new();
        assert(ps.deep_view() =~= Seq::<CvParamModel>::empty());
        ps = collect_spectrum_params(e);
        let ghost before = *out;
        out.push(ps);
        proof {
            lemma_deep_view_push(before, *out, ps);
            assert(start + spectrum_items(lm).take(i + 1) =~= (start + spectrum_items(lm).take(
                i as int,
            )).push(spectrum_items(lm)[i as int]));
        }
        i = i + 1;
    }
    assert(spectrum_items(lm).take(i as int) =~= spectrum_items(lm));
}

/// The parameters of each vocabulary: its four attributes.
pub open spec fn cv_items(list: Seq<CvModel>) -> Seq<Seq<CvParamModel>> {
    Seq::new(list.len(), |i: int| cv_attr_params(list[i]))
}

/// Appends the parameters of each vocabulary: its four attributes to the items.
fn push_cv(out: &mut Vec<Vec<CvParam>>, list: &Vec<Cv>)
    ensures
        final(out).deep_view() == old(out).deep_view() + cv_items(list.deep_view()),
{
    let ghost start = out.deep_view();
    let ghost lm = list.deep_view();
    let mut i: usize = 0;
    assert(start + cv_items(lm).take(0) =~= start);
    while i < list.len()
        invariant
            i <= list@.len(),
            lm == list.deep_view(),
            out.deep_view() == start + cv_items(lm).take(i as int),
        decreases list@.len() - i,
    {
        let e = &list[i];
        assert(lm[i as int] == e.deep_view());
        let mut ps: Vec<CvParam> = Vec::new();
        assert(ps.deep_view() =~= Seq::<CvParamModel>::empty());
        ps = cv_params_of(e);
        let ghost before = *out;
        out.push(ps);
        proof {
            lemma_deep_view_push(before, *out, ps);
            assert(start + cv_items(lm).take(i + 1) =~= (start + cv_items(lm).take(
                i as int,
            )).push(cv_items(lm)[i as int]));
        }
        i = i + 1;
    }
    assert(cv_items(lm).take(i as int) =~= cv_items(lm));
}

/// The spectra of a document; none where it has no list of them.
pub open spec fn doc_spectra(d: MzMLModel) -> Seq<SpectrumModel> {
    match d.run.spectrum_list {
        Some(l) => l.spectra,
        None => Seq::empty(),
    }
}

/// The chromatograms of a document; none where it has no list of them.
pub open spec fn doc_chromatograms(d: MzMLModel) -> Seq<ChromatogramModel> {
    match d.run.chromatogram_list {
        Some(l) => l.chromatograms,
        None => Seq::empty(),
    }
}

/// The elements of an optional list; none where there is no list.
pub open spec fn listed<T>(l: Option<Seq<T>>) -> Seq<T> {
    match l {
        Some(s) => s,
        None => Seq::empty(),
    }
}

/// The shared parameter groups of a document.
pub open spec fn doc_groups(d: MzMLModel) -> Seq<ReferenceableParamGroupModel> {
    match d.referenceable_param_group_list {
        Some(l) => l.referenceable_param_groups,
        None => Seq::empty(),
    }
}

/// The samples of a document.
pub open spec fn doc_samples(d: MzMLModel) -> Seq<SampleModel> {
    match d.sample_list {
        Some(l) => l.samples,
        None => Seq::empty(),
    }
}

/// The instrument configurations of a document.
pub open spec fn doc_instruments(d: MzMLModel) -> Seq<InstrumentModel> {
    match d.instrument_list {
        Some(l) => l.instrument,
        None => Seq::empty(),
    }
}

/// The software of a document.
pub open spec fn doc_software(d: MzMLModel) -> Seq<SoftwareModel> {
    match d.software_list {
        Some(l) => l.software,
        None => Seq::empty(),
    }
}

/// The data processing chains of a document.
pub open spec fn doc_processing(d: MzMLModel) -> Seq<DataProcessingModel> {
    match d.data_processing_list {
        Some(l) => l.data_processing,
        None => Seq::empty(),
    }
}

/// The scan settings of a document.
pub open spec fn doc_settings(d: MzMLModel) -> Seq<ScanSettingsModel> {
    match d.scan_settings_list {
        Some(l) => l.scan_settings,
        None => Seq::empty(),
    }
}

/// The vocabularies of a document.
pub open spec fn doc_cvs(d: MzMLModel) -> Seq<CvModel> {
    match d.cv_list {
        Some(l) => l.cv,
        None => Seq::empty(),
    }
}

/// How many elements each global section of the document holds.  The
/// file description always counts as one.
pub open spec fn doc_counts(d: MzMLModel) -> GlobalCounts {
    GlobalCounts {
        n_fd: 1,
        n_rpg: doc_groups(d).len() as u32,
        n_samp: doc_samples(d).len() as u32,
        n_inst: doc_instruments(d).len() as u32,
        n_soft: doc_software(d).len() as u32,
        n_dp: doc_processing(d).len() as u32,
        n_acq: doc_settings(d).len() as u32,
        n_cvs: doc_cvs(d).len() as u32,
    }
}

/// The parameters of the elements of the global sections, in the order
/// in which the sections stand in a file.  The first are those of the
/// file content, with the records that carry the whole document in
/// front of them.
pub open spec fn doc_global_items(d: MzMLModel) -> Seq<Seq<CvParamModel>> {
    seq![carried(d) + d.file_description.file_content.cv_params] + group_items(doc_groups(d))
        + sample_items(
        doc_samples(d),
    ) + instrument_items(doc_instruments(d)) + software_items(doc_software(d))
        + processing_items(doc_processing(d)) + settings_items(doc_settings(d)) + cv_items(
        doc_cvs(d),
    )
}

/// What a file holds of a document.
///
/// A spectrum is written with the records of its attributes and of its
/// free-form entries, then its terms and those of its precursors, with
/// the elements of its m/z array as X and those of its intensity array
/// as Y.  A chromatogram is written with the records of its attributes
/// and of its free-form entries, then its terms, with the elements of
/// its time array as X.  Of every element of a global section its terms
/// are written, and of every vocabulary its four attributes.  In front
/// of the terms of the file content stand the records that carry the
/// whole document as a tree, every element with all that it holds but
/// the elements of the arrays; those stand in the containers, for the X
/// array and the Y array of each item.
pub open spec fn flat_of(d: MzMLModel, fmt: u8) -> FlatModel {
    let spectra = doc_spectra(d);
    let chromatograms = doc_chromatograms(d);
    FlatModel {
        spec_params: spectrum_items(spectra),
        spec_x: Seq::new(
            spectra.len(),
            |i: int| x_bytes(spectra[i].binary_data_array_list, ACC_MZ_ARRAY, fmt),
        ),
        spec_y: Seq::new(spectra.len(), |i: int| y_bytes(spectra[i].binary_data_array_list, fmt)),
        chrom_params: chromatogram_items(chromatograms),
        chrom_x: Seq::new(
            chromatograms.len(),
            |i: int| x_bytes(chromatograms[i].binary_data_array_list, ACC_TIME_ARRAY, fmt),
        ),
        chrom_y: Seq::new(
            chromatograms.len(),
            |i: int| y_bytes(chromatograms[i].binary_data_array_list, fmt),
        ),
        counts: doc_counts(d),
        global_items: doc_global_items(d),
        fmt,
    }
}

/// Writes the arrays of the spectra as bytes.
fn spectrum_arrays(list: &Vec<Spectrum>, fmt: u8) -> (r: (Vec<Vec<u8>>, Vec<Vec<u8>>))
    ensures
        vecs_view(r.0@) == Seq::new(
            list@.len(),
            |i: int| x_bytes(list.deep_view()[i].binary_data_array_list, ACC_MZ_ARRAY, fmt),
        ),
        vecs_view(r.1@) == Seq::new(
            list@.len(),
            |i: int| y_bytes(list.deep_view()[i].binary_data_array_list, fmt),
        ),
{
    let ghost lm = list.deep_view();
    let mut xs: Vec<Vec<u8>> = Vec::with_capacity(list.len());
    let mut ys: Vec<Vec<u8>> = Vec::with_capacity(list.len());
    let mut i: usize = 0;
    while i < list.len()
        invariant
            i <= list@.len(),
            lm == list.deep_view(),
            xs@.len() == i,
            ys@.len() == i,
            vecs_view(xs@) == Seq::new(
                i as nat,
                |k: int| x_bytes(lm[k].binary_data_array_list, ACC_MZ_ARRAY, fmt),
            ),
            vecs_view(ys@) == Seq::new(i as nat, |k: int| y_bytes(lm[k].binary_data_array_list, fmt)),
        decreases list@.len() - i,
    {
        assert(lm[i as int] == list@[i as int].deep_view());
        let ghost xs0 = xs@;
        let ghost ys0 = ys@;
        let (x, y) = collect_arrays(&list[i].binary_data_array_list, ACC_MZ_ARRAY, fmt);
        xs.push(x);
        ys.push(y);
        proof {
            assert(lm[i as int].binary_data_array_list
                == list@[i as int].binary_data_array_list.deep_view());
            assert forall|k: int| 0 <= k < i implies #[trigger] vecs_view(xs@)[k] == vecs_view(
                xs0,
            )[k] by {
                assert(xs@[k] == xs0[k]);
            }
            assert forall|k: int| 0 <= k < i implies #[trigger] vecs_view(ys@)[k] == vecs_view(
                ys0,
            )[k] by {
                assert(ys@[k] == ys0[k]);
            }
            assert(vecs_view(xs@)[i as int] == x@);
            assert(vecs_view(ys@)[i as int] == y@);
            assert(vecs_view(xs@) =~= Seq::new(
                (i + 1) as nat,
                |k: int| x_bytes(lm[k].binary_data_array_list, ACC_MZ_ARRAY, fmt),
            ));
            assert(vecs_view(ys@) =~= Seq::new(
                (i + 1) as nat,
                |k: int| y_bytes(lm[k].binary_data_array_list, fmt),
            ));
        }
        i = i + 1;
    }
    (xs, ys)
}

/// Writes the arrays of the chromatograms as bytes.
fn chromatogram_arrays(list: &Vec<Chromatogram>, fmt: u8) -> (r: (Vec<Vec<u8>>, Vec<Vec<u8>>))
    ensures
        vecs_view(r.0@) == Seq::new(
            list@.len(),
            |i: int| x_bytes(list.deep_view()[i].binary_data_array_list, ACC_TIME_ARRAY, fmt),
        ),
        vecs_view(r.1@) == Seq::new(
            list@.len(),
            |i: int| y_bytes(list.deep_view()[i].binary_data_array_list, fmt),
        ),
{
    let ghost lm = list.deep_view();
    let mut xs: Vec<Vec<u8>> = Vec::with_capacity(list.len());
    let mut ys: Vec<Vec<u8>> = Vec::with_capacity(list.len());
    let mut i: usize = 0;
    while i < list.len()
        invariant
            i <= list@.len(),
            lm == list.deep_view(),
            xs@.len() == i,
            ys@.len() == i,
            vecs_view(xs@) == Seq::new(
                i as nat,
                |k: int| x_bytes(lm[k].binary_data_array_list, ACC_TIME_ARRAY, fmt),
            ),
            vecs_view(ys@) == Seq::new(i as nat, |k: int| y_bytes(lm[k].binary_data_array_list, fmt)),
        decreases list@.len() - i,
    {
        assert(lm[i as int] == list@[i as int].deep_view());
        let ghost xs0 = xs@;
        let ghost ys0 = ys@;
        let (x, y) = collect_arrays(&list[i].binary_data_array_list, ACC_TIME_ARRAY, fmt);
        xs.push(x);
        ys.push(y);
        proof {
            assert(lm[i as int].binary_data_array_list
                == list@[i as int].binary_data_array_list.deep_view());
            assert forall|k: int| 0 <= k < i implies #[trigger] vecs_view(xs@)[k] == vecs_view(
                xs0,
            )[k] by {
                assert(xs@[k] == xs0[k]);
            }
            assert forall|k: int| 0 <= k < i implies #[trigger] vecs_view(ys@)[k] == vecs_view(
                ys0,
            )[k] by {
                assert(ys@[k] == ys0[k]);
            }
            assert(vecs_view(xs@)[i as int] == x@);
            assert(vecs_view(ys@)[i as int] == y@);
            assert(vecs_view(xs@) =~= Seq::new(
                (i + 1) as nat,
                |k: int| x_bytes(lm[k].binary_data_array_list, ACC_TIME_ARRAY, fmt),
            ));
            assert(vecs_view(ys@) =~= Seq::new(
                (i + 1) as nat,
                |k: int| y_bytes(lm[k].binary_data_array_list, fmt),
            ));
        }
        i = i + 1;
    }
    (xs, ys)
}

/// The length of a list as a 32-bit count; `None` where it does not fit.
fn count32(n: usize) -> (r: Option<u32>)
    ensures
        match r {
            Some(c) => c == n,
            None => n > u32::MAX,
        },
{
    if n > u32::MAX as usize {
        None
    } else {
        Some(n as u32)
    }
}

/// Collects the counts and the parameters of the global sections.
fn collect_global(doc: &MzML) -> (r: Option<(GlobalCounts, Vec<Vec<CvParam>>)>)
    ensures
        match r {
            Some(v) => v.0 == doc_counts(doc.deep_view()) && v.1.deep_view() == doc_global_items(
                doc.deep_view(),
            ) && !globals_too_long(doc.deep_view()),
            None => globals_too_long(doc.deep_view()),
        },
{
    let ghost d = doc.deep_view();
    let mut items: Vec<Vec<CvParam>> = Vec::new();
    let mut fc: Vec<CvParam> = make_carried(doc);
    push_params(&mut fc, &doc.file_description.file_content.cv_params);
    assert(fc.deep_view() =~= carried(d) + d.file_description.file_content.cv_params);
    items.push(fc);
    assert(items.deep_view() =~= seq![carried(d) + d.file_description.file_content.cv_params]);
    let mut n_rpg: usize = 0;
    match &doc.referenceable_param_group_list {
        Some(l) => {
            push_group(&mut items, &l.referenceable_param_groups);
            n_rpg = l.referenceable_param_groups.len();
        },
        None => {
            assert(group_items(doc_groups(d)) =~= Seq::<Seq<CvParamModel>>::empty());
        },
    }
    let ghost after_rpg = items.deep_view();
    assert(after_rpg =~= seq![carried(d) + d.file_description.file_content.cv_params] + group_items(
        doc_groups(d),
    ));
    let mut n_samp: usize = 0;
    match &doc.sample_list {
        Some(l) => {
            push_sample(&mut items, &l.samples);
            n_samp = l.samples.len();
        },
        None => {
            assert(sample_items(doc_samples(d)) =~= Seq::<Seq<CvParamModel>>::empty());
        },
    }
    let ghost after_samp = items.deep_view();
    assert(after_samp =~= after_rpg + sample_items(doc_samples(d)));
    let mut n_inst: usize = 0;
    match &doc.instrument_list {
        Some(l) => {
            push_instrument(&mut items, &l.instrument);
            n_inst = l.instrument.len();
        },
        None => {
            assert(instrument_items(doc_instruments(d)) =~= Seq::<Seq<CvParamModel>>::empty());
        },
    }
    let ghost after_inst = items.deep_view();
    assert(after_inst =~= after_samp + instrument_items(doc_instruments(d)));
    let mut n_soft: usize = 0;
    match &doc.software_list {
        Some(l) => {
            push_software(&mut items, &l.software);
            n_soft = l.software.len();
        },
        None => {
            assert(software_items(doc_software(d)) =~= Seq::<Seq<CvParamModel>>::empty());
        },
    }
    let ghost after_soft = items.deep_view();
    assert(after_soft =~= after_inst + software_items(doc_software(d)));
    let mut n_dp: usize = 0;
    match &doc.data_processing_list {
        Some(l) => {
            push_processing(&mut items, &l.data_processing);
            n_dp = l.data_processing.len();
        },
        None => {
            assert(processing_items(doc_processing(d)) =~= Seq::<Seq<CvParamModel>>::empty());
        },
    }
    let ghost after_dp = items.deep_view();
    assert(after_dp =~= after_soft + processing_items(doc_processing(d)));
    let mut n_acq: usize = 0;
    match &doc.scan_settings_list {
        Some(l) => {
            push_settings(&mut items, &l.scan_settings);
            n_acq = l.scan_settings.len();
        },
        None => {
            assert(settings_items(doc_settings(d)) =~= Seq::<Seq<CvParamModel>>::empty());
        },
    }
    let ghost after_acq = items.deep_view();
    assert(after_acq =~= after_dp + settings_items(doc_settings(d)));
    let mut n_cvs: usize = 0;
    match &doc.cv_list {
        Some(l) => {
            push_cv(&mut items, &l.cv);
            n_cvs = l.cv.len();
        },
        None => {
            assert(cv_items(doc_cvs(d)) =~= Seq::<Seq<CvParamModel>>::empty());
        },
    }
    assert(items.deep_view() =~= after_acq + cv_items(doc_cvs(d)));
    let counts = match (
        count32(n_rpg),
        count32(n_samp),
        count32(n_inst),
        count32(n_soft),
        count32(n_dp),
        count32(n_acq),
        count32(n_cvs),
    ) {
        (Some(a), Some(b), Some(c), Some(e), Some(f), Some(g), Some(h)) => GlobalCounts {
            n_fd: 1,
            n_rpg: a,
            n_samp: b,
            n_inst: c,
            n_soft: e,
            n_dp: f,
            n_acq: g,
            n_cvs: h,
        },
        _ => {
            return None;
        },
    };
    Some((counts, items))
}

/// Whether a global section of the document is longer than 32 bits
/// count.
pub open spec fn globals_too_long(d: MzMLModel) -> bool {
    doc_groups(d).len() > u32::MAX || doc_samples(d).len() > u32::MAX || doc_instruments(d).len()
        > u32::MAX || doc_software(d).len() > u32::MAX || doc_processing(d).len() > u32::MAX
        || doc_settings(d).len() > u32::MAX || doc_cvs(d).len() > u32::MAX
}

/// Collects what a file holds of a document.  `fmt` is the element
/// format of the arrays: 1 for 32 bits and 2 for 64 bits.
pub fn flatten(doc: &MzML, fmt: u8) -> (r: Result<FlatFile, EncodeError>)
    ensures
        match r {
            Ok(f) => !globals_too_long(doc.deep_view()) && f@ == flat_of(doc.deep_view(), fmt),
            Err(e) => e == EncodeError::TooLarge && globals_too_long(doc.deep_view()),
        },
{
    let ghost d = doc.deep_view();
    let (counts, global_items) = match collect_global(doc) {
        Some(v) => v,
        None => {
            return Err(EncodeError::TooLarge);
        },
    };
    let mut spec_params: Vec<Vec<CvParam>> = Vec::new();
    let mut spec_x: Vec<Vec<u8>> = Vec::new();
    let mut spec_y: Vec<Vec<u8>> = Vec::new();
    assert(spec_params.deep_view() =~= Seq::<Seq<CvParamModel>>::empty());
    match &doc.run.spectrum_list {
        Some(l) => {
            push_spectrum(&mut spec_params, &l.spectra);
            let (x, y) = spectrum_arrays(&l.spectra, fmt);
            spec_x = x;
            spec_y = y;
            assert(spec_params.deep_view() =~= spectrum_items(doc_spectra(d)));
        },
        None => {
            assert(spec_params.deep_view() =~= spectrum_items(doc_spectra(d)));
            assert(vecs_view(spec_x@) =~= flat_of(d, fmt).spec_x);
            assert(vecs_view(spec_y@) =~= flat_of(d, fmt).spec_y);
        },
    }
    let mut chrom_params: Vec<Vec<CvParam>> = Vec::new();
    let mut chrom_x: Vec<Vec<u8>> = Vec::new();
    let mut chrom_y: Vec<Vec<u8>> = Vec::new();
    assert(chrom_params.deep_view() =~= Seq::<Seq<CvParamModel>>::empty());
    match &doc.run.chromatogram_list {
        Some(l) => {
            push_chromatogram(&mut chrom_params, &l.chromatograms);
            let (x, y) = chromatogram_arrays(&l.chromatograms, fmt);
            chrom_x = x;
            chrom_y = y;
            assert(chrom_params.deep_view() =~= chromatogram_items(doc_chromatograms(d)));
        },
        None => {
            assert(chrom_params.deep_view() =~= chromatogram_items(doc_chromatograms(d)));
            assert(vecs_view(chrom_x@) =~= flat_of(d, fmt).chrom_x);
            assert(vecs_view(chrom_y@) =~= flat_of(d, fmt).chrom_y);
        },
    }
    Ok(
        FlatFile {
            spec_params,
            spec_x,
            spec_y,
            chrom_params,
            chrom_x,
            chrom_y,
            counts,
            global_items,
            fmt,
        },
    )
}

/// The element format that a file is written with.
pub open spec fn format_of(f32_compress: bool) -> u8 {
    if f32_compress {
        FMT_F32
    } else {
        FMT_F64
    }
}

/// Whether an array holds elements, but none in the vector of the
/// format.
pub open spec fn array_lacks(a: BinaryDataArrayModel, fmt: u8) -> bool {
    if fmt == FMT_F32 {
        a.decoded_binary_f32.len() == 0 && a.decoded_binary_f64.len() > 0
    } else {
        a.decoded_binary_f64.len() == 0 && a.decoded_binary_f32.len() > 0
    }
}

/// Whether the X array or the Y array of an item holds elements, but
/// none in the vector of the format.
pub open spec fn item_lacks(l: Option<BinaryDataArrayListModel>, axis: u32, fmt: u8) -> bool {
    match l {
        Some(l) => l.binary_data_arrays.len() > 0 && (array_lacks(
            l.binary_data_arrays[x_place(l, axis)],
            fmt,
        ) || array_lacks(l.binary_data_arrays[y_place(l)], fmt)),
        None => false,
    }
}

/// Whether an array of some spectrum holds elements, but none in the
/// vector of the format.
pub open spec fn spectra_lack(list: Seq<SpectrumModel>, fmt: u8) -> bool {
    exists|i: int|
        0 <= i < list.len() && item_lacks(
            (#[trigger] list[i]).binary_data_array_list,
            ACC_MZ_ARRAY,
            fmt,
        )
}

/// Whether an array of some chromatogram holds elements, but none in the
/// vector of the format.
pub open spec fn chromatograms_lack(list: Seq<ChromatogramModel>, fmt: u8) -> bool {
    exists|i: int|
        0 <= i < list.len() && item_lacks(
            (#[trigger] list[i]).binary_data_array_list,
            ACC_TIME_ARRAY,
            fmt,
        )
}

/// Whether an array that the file would hold has elements, but none in
/// the vector of the format that the file is written in.
pub open spec fn lacks_elements(d: MzMLModel, fmt: u8) -> bool {
    spectra_lack(doc_spectra(d), fmt) || chromatograms_lack(doc_chromatograms(d), fmt)
}

/// Returns whether an array holds elements, but none in the vector of
/// the format.
fn array_is_lacking(a: &BinaryDataArray, fmt: u8) -> (r: bool)
    ensures
        r == array_lacks(a.deep_view(), fmt),
{
    assert(a.decoded_binary_f32.deep_view() =~= a.decoded_binary_f32@);
    assert(a.decoded_binary_f64.deep_view() =~= a.decoded_binary_f64@);
    if fmt == FMT_F32 {
        a.decoded_binary_f32.len() == 0 && a.decoded_binary_f64.len() > 0
    } else {
        a.decoded_binary_f64.len() == 0 && a.decoded_binary_f32.len() > 0
    }
}

/// Returns whether the X array or the Y array of an item holds elements,
/// but none in the vector of the format.
fn item_is_lacking(l: &Option<BinaryDataArrayList>, axis: u32, fmt: u8) -> (r: bool)
    ensures
        r == item_lacks(l.deep_view(), axis, fmt),
{
    match l {
        None => false,
        Some(list) => {
            let n = list.binary_data_arrays.len();
            if n == 0 {
                return false;
            }
            let ghost arrays = list.deep_view().binary_data_arrays;
            proof {
                lemma_first_of_kind(arrays, axis);
                lemma_first_of_kind(arrays, ACC_INTENSITY_ARRAY);
            }
            let xi: usize = match find_kind(list, axis) {
                Some(i) => i,
                None => 0,
            };
            let yi: usize = match find_kind(list, ACC_INTENSITY_ARRAY) {
                Some(i) => i,
                None => if n > 1 {
                    1
                } else {
                    0
                },
            };
            assert(arrays[xi as int] == list.binary_data_arrays@[xi as int].deep_view());
            assert(arrays[yi as int] == list.binary_data_arrays@[yi as int].deep_view());
            array_is_lacking(&list.binary_data_arrays[xi], fmt) || array_is_lacking(
                &list.binary_data_arrays[yi],
                fmt,
            )
        },
    }
}

/// Returns whether an array that the file would hold has elements, but
/// none in the vector of the format.
pub fn is_lacking_elements(doc: &MzML, fmt: u8) -> (r: bool)
    ensures
        r == lacks_elements(doc.deep_view(), fmt),
{
    let ghost d = doc.deep_view();
    match &doc.run.spectrum_list {
        Some(l) => {
            let ghost lm = l.spectra.deep_view();
            let mut i: usize = 0;
            while i < l.spectra.len()
                invariant
                    i <= l.spectra@.len(),
                    d == doc.deep_view(),
                    lm == l.spectra.deep_view(),
                    lm == doc_spectra(d),
                    forall|k: int|
                        0 <= k < i ==> !item_lacks(
                            (#[trigger] lm[k]).binary_data_array_list,
                            ACC_MZ_ARRAY,
                            fmt,
                        ),
                decreases l.spectra@.len() - i,
            {
                assert(lm[i as int] == l.spectra@[i as int].deep_view());
                if item_is_lacking(&l.spectra[i].binary_data_array_list, ACC_MZ_ARRAY, fmt) {
                    assert(item_lacks(lm[i as int].binary_data_array_list, ACC_MZ_ARRAY, fmt));
                    assert(spectra_lack(lm, fmt));
                    return true;
                }
                i = i + 1;
            }
        },
        None => {},
    }
    assert(!spectra_lack(doc_spectra(d), fmt));
    match &doc.run.chromatogram_list {
        Some(l) => {
            let ghost lm = l.chromatograms.deep_view();
            let mut i: usize = 0;
            while i < l.chromatograms.len()
                invariant
                    i <= l.chromatograms@.len(),
                    d == doc.deep_view(),
                    lm == l.chromatograms.deep_view(),
                    lm == doc_chromatograms(d),
                    !spectra_lack(doc_spectra(d), fmt),
                    forall|k: int|
                        0 <= k < i ==> !item_lacks(
                            (#[trigger] lm[k]).binary_data_array_list,
                            ACC_TIME_ARRAY,
                            fmt,
                        ),
                decreases l.chromatograms@.len() - i,
            {
                assert(lm[i as int] == l.chromatograms@[i as int].deep_view());
                if item_is_lacking(&l.chromatograms[i].binary_data_array_list, ACC_TIME_ARRAY, fmt) {
                    assert(item_lacks(lm[i as int].binary_data_array_list, ACC_TIME_ARRAY, fmt));
                    assert(chromatograms_lack(lm, fmt));
                    return true;
                }
                i = i + 1;
            }
        },
        None => {},
    }
    false
}

/// Why a document cannot be written, where it cannot: an array holds
/// elements only in the vector of the other width, a list is too long,
/// or the file cannot be laid out.
pub open spec fn encode_fails(d: MzMLModel, level: u8, f32_compress: bool) -> Option<EncodeError> {
    if lacks_elements(d, format_of(f32_compress)) {
        Some(EncodeError::MissingElements)
    } else if globals_too_long(d) {
        Some(EncodeError::TooLarge)
    } else {
        encode_error(flat_of(d, format_of(f32_compress)), level)
    }
}

/// The file that a document is written as.
pub open spec fn encode_spec(d: MzMLModel, level: u8, f32_compress: bool) -> Seq<u8> {
    file_bytes(flat_of(d, format_of(f32_compress)), level)
}

/// Writes a document as a file.
///
/// At compression level zero blocks and metadata are stored as they
/// are; at any other level they are compressed by zstd at that level,
/// the blocks after the byte shuffle.  With `f32_compress` the arrays
/// are written from their 32-bit vectors, else from their 64-bit ones;
/// an array that holds elements only in the other vector is an error.
pub fn encode(doc: &MzML, compression_level: u8, f32_compress: bool) -> (r: Result<
    Vec<u8>,
    EncodeError,
>)
    ensures
        match r {
            Ok(b) => encode_fails(doc.deep_view(), compression_level, f32_compress) is None && b@
                == encode_spec(doc.deep_view(), compression_level, f32_compress),
            Err(e) => encode_fails(doc.deep_view(), compression_level, f32_compress) == Some(e),
        },
{
    let fmt: u8 = if f32_compress {
        FMT_F32
    } else {
        FMT_F64
    };
    if is_lacking_elements(doc, fmt) {
        return Err(EncodeError::MissingElements);
    }
    match flatten(doc, fmt) {
        Ok(f) => encode_flat(&f, compression_level),
        Err(e) => Err(e),
    }
}

} // verus!
