//! The round trip of a whole document: what the decoder gives back for
//! the file that the encoder writes.

use vstd::prelude::*;
use crate::binary_array::{first_of_kind, flagged, lemma_first_of_kind};
use crate::decode::{
    array_model, array_pair, chromatogram_model, decode_spec, document_of, spectrum_model,
};
use crate::document::MzMLModel;
use crate::error::DecodeError;
use crate::file_laws::{
    bits_of, decoded_arrays, decoded_chromatograms, decoded_flat, decoded_spectra, held,
    lemma_file_round_trip, lemma_raw_needs_no_codec, written_parts,
};
use crate::file_writer::elem_of;
use crate::flatten::{
    doc_chromatograms, doc_counts, doc_global_items, doc_spectra, encode_fails, encode_spec,
    flat_of, format_of, globals_too_long, x_bytes, x_place, y_bytes, y_place,
};
use crate::header::{FMT_F32, FMT_F64};
use crate::meta_laws::{normal_items, normal_params};
use crate::params::CvParamModel;
use crate::precursor::{ACC_INTENSITY_ARRAY, ACC_MZ_ARRAY, ACC_TIME_ARRAY};
use crate::restore::{
    counts_match, refilled, refilled_list, restored, restored_chromatogram, restored_spectrum,
    with_elements,
};
use crate::round_trip::{lemma_elements_read_back, round_trips, x_elements, y_elements};
use crate::run::{BinaryDataArrayListModel, BinaryDataArrayModel};
use crate::tree_of::{
    bare_binary_data_array, bare_binary_data_array_list, bare_chromatogram,
    bare_each_binary_data_array, bare_mzml, bare_opt_binary_data_array_list, bare_spectrum,
    lemma_bare_each_cv_param, lemma_bare_each_referenceable_param_group_ref,
    lemma_bare_each_user_param, lemma_bare_file_description, lemma_bare_opt_cv_list,
    lemma_bare_opt_data_processing_list, lemma_bare_opt_instrument_list, lemma_bare_opt_precursor,
    lemma_bare_opt_precursor_list, lemma_bare_opt_product, lemma_bare_opt_product_list,
    lemma_bare_opt_referenceable_param_group_list, lemma_bare_opt_sample_list,
    lemma_bare_opt_scan_list, lemma_bare_opt_scan_settings_list, lemma_bare_opt_software_list,
    lemma_bare_opt_spectrum_description,
};
use crate::tree_records::{carried, carried_document, lemma_carried_reads_back};

verus! {

/// The document that is given back for `d`: `d` itself as its tree
/// spells it, with the elements that are decoded for each spectrum and
/// each chromatogram in its X array and its Y array.
pub open spec fn given_back(
    d: MzMLModel,
    level: u8,
    f32_compress: bool,
    table: Map<Seq<u8>, Seq<char>>,
) -> MzMLModel {
    let f = flat_of(d, format_of(f32_compress));
    restored(
        bare_mzml(d),
        decoded_spectra(f, table, f.spec_x.len() as int),
        decoded_chromatograms(f, table, f.chrom_x.len() as int),
    )
}

/// The document without the elements of its arrays has as many spectra
/// and chromatograms as the document.
pub proof fn lemma_bare_counts(d: MzMLModel)
    ensures
        doc_spectra(bare_mzml(d)).len() == doc_spectra(d).len(),
        doc_chromatograms(bare_mzml(d)).len() == doc_chromatograms(d).len(),
{
}

/// The parameters of the file content of a written file carry the
/// document.
pub proof fn lemma_file_carries_document(
    d: MzMLModel,
    level: u8,
    f32_compress: bool,
    table: Map<Seq<u8>, Seq<char>>,
)
    requires
        !globals_too_long(d),
    ensures
        carried_document(
            written_parts(
                flat_of(d, format_of(f32_compress)),
                level,
                table,
            ).global.file_description.file_content.cv_params,
        ) == Some(bare_mzml(d)),
{
    let f = flat_of(d, format_of(f32_compress));
    let fc = d.file_description.file_content.cv_params;
    assert(f.counts == doc_counts(d));
    assert(f.global_items == doc_global_items(d));
    assert(doc_global_items(d)[0] == carried(d) + fc);
    assert(normal_items(f.global_items, table)[0] == normal_params(carried(d) + fc, table));
    lemma_carried_reads_back(d, fc, table);
}

/// What the decoder makes of the parts of a written file is the
/// document that is given back.
pub proof fn lemma_written_document(
    d: MzMLModel,
    level: u8,
    f32_compress: bool,
    table: Map<Seq<u8>, Seq<char>>,
)
    requires
        !globals_too_long(d),
    ensures
        decoded_flat(flat_of(d, format_of(f32_compress)), level, table) == given_back(
            d,
            level,
            f32_compress,
            table,
        ),
{
    let f = flat_of(d, format_of(f32_compress));
    let spectra = decoded_spectra(f, table, f.spec_x.len() as int);
    let chromatograms = decoded_chromatograms(f, table, f.chrom_x.len() as int);
    lemma_file_carries_document(d, level, f32_compress, table);
    lemma_bare_counts(d);
    assert(counts_match(bare_mzml(d), spectra, chromatograms));
    assert(decoded_flat(f, level, table) == document_of(
        written_parts(f, level, table),
        spectra,
        chromatograms,
    ));
}

/// Decoding the file that the encoder writes for a document succeeds
/// and gives the document back: every element with all that it holds,
/// and in the X array and the Y array of every spectrum and chromatogram
/// the elements that were written for it.
///
/// This holds outright for files written at level zero.  For compressed
/// files it holds wherever the codec gives back what it compressed.
pub proof fn lemma_document_round_trip(
    d: MzMLModel,
    level: u8,
    f32_compress: bool,
    table: Map<Seq<u8>, Seq<char>>,
)
    requires
        round_trips(d, level, f32_compress),
    ensures
        decode_spec(encode_spec(d, level, f32_compress), table) == Ok::<MzMLModel, DecodeError>(
            given_back(d, level, f32_compress, table),
        ),
{
    lemma_file_round_trip(flat_of(d, format_of(f32_compress)), level, table);
    lemma_written_document(d, level, f32_compress, table);
}

/// A file written without compression needs nothing of the codec: it
/// decodes to the document that is given back wherever it can be
/// written and fits the memory of the machine.
pub proof fn lemma_raw_document_round_trip(
    d: MzMLModel,
    f32_compress: bool,
    table: Map<Seq<u8>, Seq<char>>,
)
    requires
        encode_fails(d, 0, f32_compress) is None,
        encode_spec(d, 0, f32_compress).len() <= usize::MAX,
        held(flat_of(d, format_of(f32_compress))),
    ensures
        decode_spec(encode_spec(d, 0, f32_compress), table) == Ok::<MzMLModel, DecodeError>(
            given_back(d, 0, f32_compress, table),
        ),
{
    lemma_raw_needs_no_codec(flat_of(d, format_of(f32_compress)));
    lemma_document_round_trip(d, 0, f32_compress, table);
}

/// Whether an array is as the decoder leaves the X array or the Y array
/// of a file of the format: its elements stand in the vector of the
/// format only, and its element format is flagged.
pub open spec fn is_settled_array(a: BinaryDataArrayModel, fmt: u8) -> bool {
    &&& flagged(a, fmt == FMT_F32) == a
    &&& if fmt == FMT_F32 {
        a.decoded_binary_f64.len() == 0
    } else {
        a.decoded_binary_f32.len() == 0
    }
}

/// Whether an array holds no elements.
pub open spec fn is_idle_array(a: BinaryDataArrayModel) -> bool {
    a.decoded_binary_f32.len() == 0 && a.decoded_binary_f64.len() == 0
}

/// Whether the arrays of an item are as the decoder leaves them: the X
/// array and the Y array are settled, and any other array holds no
/// elements.
pub open spec fn is_settled_list(l: Option<BinaryDataArrayListModel>, axis: u32, fmt: u8) -> bool {
    match l {
        Some(l) => forall|k: int|
            0 <= k < l.binary_data_arrays.len() ==> if k == x_place(l, axis) || k == y_place(l) {
                is_settled_array(#[trigger] l.binary_data_arrays[k], fmt)
            } else {
                is_idle_array(l.binary_data_arrays[k])
            },
        None => true,
    }
}

/// Whether the arrays of every spectrum and chromatogram of a document
/// are as the decoder leaves them in a file of the format.
pub open spec fn is_settled(d: MzMLModel, fmt: u8) -> bool {
    &&& forall|i: int|
        0 <= i < doc_spectra(d).len() ==> is_settled_list(
            (#[trigger] doc_spectra(d)[i]).binary_data_array_list,
            ACC_MZ_ARRAY,
            fmt,
        )
    &&& forall|i: int|
        0 <= i < doc_chromatograms(d).len() ==> is_settled_list(
            (#[trigger] doc_chromatograms(d)[i]).binary_data_array_list,
            ACC_TIME_ARRAY,
            fmt,
        )
}

/// An array without its elements is the array but for its two vectors.
pub proof fn lemma_bare_array(a: BinaryDataArrayModel)
    ensures
        bare_binary_data_array(a) == (BinaryDataArrayModel {
            decoded_binary_f32: Seq::empty(),
            decoded_binary_f64: Seq::empty(),
            ..a
        }),
{
    lemma_bare_each_referenceable_param_group_ref(a.referenceable_param_group_refs);
    lemma_bare_each_cv_param(a.cv_params);
    lemma_bare_each_user_param(a.user_params);
    assert(bare_binary_data_array(a) =~~= (BinaryDataArrayModel {
        decoded_binary_f32: Seq::empty(),
        decoded_binary_f64: Seq::empty(),
        ..a
    }));
}

/// The first array of a kind stands at the same place among the arrays
/// without their elements.
pub proof fn lemma_kind_of_bare(arrays: Seq<BinaryDataArrayModel>, kind: u32)
    ensures
        first_of_kind(bare_each_binary_data_array(arrays), kind) == first_of_kind(arrays, kind),
    decreases arrays.len(),
{
    if arrays.len() > 0 {
        lemma_kind_of_bare(arrays.drop_last(), kind);
        lemma_bare_array(arrays.last());
        assert(bare_each_binary_data_array(arrays).drop_last() =~= bare_each_binary_data_array(
            arrays.drop_last(),
        ));
        assert(bare_each_binary_data_array(arrays).last() == bare_binary_data_array(arrays.last()));
        assert(bare_binary_data_array(arrays.last()).cv_params == arrays.last().cv_params);
    }
}

/// A settled array comes back from its bare form when its own elements
/// are put into it.
pub proof fn lemma_array_refilled(a: BinaryDataArrayModel, from: BinaryDataArrayModel, fmt: u8)
    requires
        is_settled_array(a, fmt),
        from.decoded_binary_f32 == a.decoded_binary_f32,
        from.decoded_binary_f64 == a.decoded_binary_f64,
        from.is_f32 == Some(fmt == FMT_F32),
    ensures
        with_elements(bare_binary_data_array(a), from) == a,
        with_elements(a, from) == a,
{
    lemma_bare_array(a);
    assert((BinaryDataArrayModel {
        decoded_binary_f32: from.decoded_binary_f32,
        decoded_binary_f64: from.decoded_binary_f64,
        ..bare_binary_data_array(a)
    }) =~~= a);
    assert((BinaryDataArrayModel {
        decoded_binary_f32: from.decoded_binary_f32,
        decoded_binary_f64: from.decoded_binary_f64,
        ..a
    }) =~~= a);
}

/// The elements that the decoder reads for the X array and the Y array
/// of a settled list are the elements of those arrays.
pub proof fn lemma_settled_elements(l: BinaryDataArrayListModel, axis: u32, fmt: u8)
    requires
        fmt == FMT_F32 || fmt == FMT_F64,
        l.binary_data_arrays.len() > 0,
        is_settled_list(Some(l), axis, fmt),
    ensures
        ({
            let xa = l.binary_data_arrays[x_place(l, axis)];
            let ya = l.binary_data_arrays[y_place(l)];
            &&& 0 <= x_place(l, axis) < l.binary_data_arrays.len()
            &&& 0 <= y_place(l) < l.binary_data_arrays.len()
            &&& bits_of(x_bytes(Some(l), axis, fmt), fmt) == (
                xa.decoded_binary_f32,
                xa.decoded_binary_f64,
            )
            &&& bits_of(y_bytes(Some(l), fmt), fmt) == (ya.decoded_binary_f32, ya.decoded_binary_f64)
        }),
{
    lemma_first_of_kind(l.binary_data_arrays, axis);
    lemma_first_of_kind(l.binary_data_arrays, ACC_INTENSITY_ARRAY);
    lemma_elements_read_back(Some(l), axis, fmt);
    let xa = l.binary_data_arrays[x_place(l, axis)];
    let ya = l.binary_data_arrays[y_place(l)];
    assert(is_settled_array(xa, fmt));
    assert(is_settled_array(ya, fmt));
    assert(xa.decoded_binary_f32 =~= x_elements(Some(l), axis, fmt).0);
    assert(xa.decoded_binary_f64 =~= x_elements(Some(l), axis, fmt).1);
    assert(ya.decoded_binary_f32 =~= y_elements(Some(l), fmt).0);
    assert(ya.decoded_binary_f64 =~= y_elements(Some(l), fmt).1);
}

/// The arrays of an item, when they are settled, come back from their
/// bare form when the elements that the decoder reads for the item are
/// put into them.
pub proof fn lemma_list_refilled(
    l: Option<BinaryDataArrayListModel>,
    axis: u32,
    fmt: u8,
    x_len: u32,
    y_len: u32,
    table: Map<Seq<u8>, Seq<char>>,
)
    requires
        fmt == FMT_F32 || fmt == FMT_F64,
        is_settled_list(l, axis, fmt),
    ensures
        refilled_list(
            bare_opt_binary_data_array_list(l),
            Some(
                array_pair(
                    array_model(axis, fmt, x_len, bits_of(x_bytes(l, axis, fmt), fmt), table),
                    array_model(
                        ACC_INTENSITY_ARRAY,
                        fmt,
                        y_len,
                        bits_of(y_bytes(l, fmt), fmt),
                        table,
                    ),
                ),
            ),
            axis,
        ) == l,
{
    match l {
        None => {},
        Some(list) => {
            let arrays = list.binary_data_arrays;
            let bare = bare_binary_data_array_list(list);
            let x = array_model(axis, fmt, x_len, bits_of(x_bytes(l, axis, fmt), fmt), table);
            let y = array_model(
                ACC_INTENSITY_ARRAY,
                fmt,
                y_len,
                bits_of(y_bytes(l, fmt), fmt),
                table,
            );
            assert(array_pair(x, y).binary_data_arrays.len() == 2);
            assert(array_pair(x, y).binary_data_arrays[0] == x);
            assert(array_pair(x, y).binary_data_arrays[1] == y);
            if arrays.len() == 0 {
                assert(bare.binary_data_arrays =~= arrays);
                assert(bare =~~= list);
            } else {
                lemma_kind_of_bare(arrays, axis);
                lemma_kind_of_bare(arrays, ACC_INTENSITY_ARRAY);
                lemma_settled_elements(list, axis, fmt);
                let xi = x_place(list, axis);
                let yi = y_place(list);
                assert(x_place(bare, axis) == xi);
                assert(y_place(bare) == yi);
                let bs = bare.binary_data_arrays;
                lemma_array_refilled(arrays[xi], x, fmt);
                lemma_array_refilled(arrays[yi], y, fmt);
                let with_x = bs.update(xi, with_elements(bs[xi], x));
                let done = with_x.update(yi, with_elements(with_x[yi], y));
                assert forall|k: int| 0 <= k < arrays.len() implies #[trigger] done[k]
                    == arrays[k] by {
                    lemma_bare_array(arrays[k]);
                    if k != xi && k != yi {
                        assert(is_idle_array(arrays[k]));
                        assert(bs[k] =~~= arrays[k]);
                    }
                }
                assert(done =~= arrays);
                assert(refilled(bare, x, y, axis) =~~= list);
            }
        },
    }
}

/// The arrays that the decoder rebuilds for an item are those that the
/// item is given.
pub proof fn lemma_model_arrays(
    i: int,
    params: Seq<CvParamModel>,
    x_len: u32,
    arrays: BinaryDataArrayListModel,
)
    ensures
        spectrum_model(i, params, x_len, arrays).binary_data_array_list == Some(arrays),
        chromatogram_model(i, params, x_len, arrays).binary_data_array_list == Some(arrays),
{
    reveal(spectrum_model);
    reveal(chromatogram_model);
}

/// A spectrum whose arrays are settled is given back as it went in.
pub proof fn lemma_spectrum_given_back(
    d: MzMLModel,
    f32_compress: bool,
    table: Map<Seq<u8>, Seq<char>>,
    i: int,
)
    requires
        0 <= i < doc_spectra(d).len(),
        is_settled(d, format_of(f32_compress)),
    ensures
        ({
            let f = flat_of(d, format_of(f32_compress));
            restored_spectrum(
                bare_spectrum(doc_spectra(d)[i]),
                decoded_spectra(f, table, f.spec_x.len() as int)[i],
            ) == doc_spectra(d)[i]
        }),
{
    let fmt = format_of(f32_compress);
    let f = flat_of(d, fmt);
    let s = doc_spectra(d)[i];
    let a = decoded_arrays(f.spec_x, f.spec_y, f.fmt, ACC_MZ_ARRAY, table, i);
    lemma_model_arrays(i, normal_params(f.spec_params[i], table), a.0, a.1);
    lemma_list_refilled(
        s.binary_data_array_list,
        ACC_MZ_ARRAY,
        fmt,
        a.0,
        (f.spec_y[i].len() / (elem_of(fmt) as nat)) as u32,
        table,
    );
    lemma_bare_each_referenceable_param_group_ref(s.referenceable_param_group_refs);
    lemma_bare_each_cv_param(s.cv_params);
    lemma_bare_each_user_param(s.user_params);
    lemma_bare_opt_spectrum_description(s.spectrum_description);
    lemma_bare_opt_scan_list(s.scan_list);
    lemma_bare_opt_precursor_list(s.precursor_list);
    lemma_bare_opt_product_list(s.product_list);
    let back = restored_spectrum(
        bare_spectrum(s),
        decoded_spectra(f, table, f.spec_x.len() as int)[i],
    );
    assert(back =~~= s);
}

/// A chromatogram whose arrays are settled is given back as it went in.
pub proof fn lemma_chromatogram_given_back(
    d: MzMLModel,
    f32_compress: bool,
    table: Map<Seq<u8>, Seq<char>>,
    i: int,
)
    requires
        0 <= i < doc_chromatograms(d).len(),
        is_settled(d, format_of(f32_compress)),
    ensures
        ({
            let f = flat_of(d, format_of(f32_compress));
            restored_chromatogram(
                bare_chromatogram(doc_chromatograms(d)[i]),
                decoded_chromatograms(f, table, f.chrom_x.len() as int)[i],
            ) == doc_chromatograms(d)[i]
        }),
{
    let fmt = format_of(f32_compress);
    let f = flat_of(d, fmt);
    let c = doc_chromatograms(d)[i];
    let a = decoded_arrays(f.chrom_x, f.chrom_y, f.fmt, ACC_TIME_ARRAY, table, i);
    lemma_model_arrays(i, normal_params(f.chrom_params[i], table), a.0, a.1);
    lemma_list_refilled(
        c.binary_data_array_list,
        ACC_TIME_ARRAY,
        fmt,
        a.0,
        (f.chrom_y[i].len() / (elem_of(fmt) as nat)) as u32,
        table,
    );
    lemma_bare_each_referenceable_param_group_ref(c.referenceable_param_group_refs);
    lemma_bare_each_cv_param(c.cv_params);
    lemma_bare_each_user_param(c.user_params);
    lemma_bare_opt_precursor(c.precursor);
    lemma_bare_opt_product(c.product);
    let back = restored_chromatogram(
        bare_chromatogram(c),
        decoded_chromatograms(f, table, f.chrom_x.len() as int)[i],
    );
    assert(back =~~= c);
}

/// A document whose arrays are settled is given back as it went in.
pub proof fn lemma_settled_document_given_back(
    d: MzMLModel,
    level: u8,
    f32_compress: bool,
    table: Map<Seq<u8>, Seq<char>>,
)
    requires
        is_settled(d, format_of(f32_compress)),
    ensures
        given_back(d, level, f32_compress, table) == d,
{
    let f = flat_of(d, format_of(f32_compress));
    let spectra = decoded_spectra(f, table, f.spec_x.len() as int);
    let chromatograms = decoded_chromatograms(f, table, f.chrom_x.len() as int);
    let back = given_back(d, level, f32_compress, table);
    lemma_bare_opt_cv_list(d.cv_list);
    lemma_bare_file_description(d.file_description);
    lemma_bare_opt_referenceable_param_group_list(d.referenceable_param_group_list);
    lemma_bare_opt_sample_list(d.sample_list);
    lemma_bare_opt_instrument_list(d.instrument_list);
    lemma_bare_opt_software_list(d.software_list);
    lemma_bare_opt_data_processing_list(d.data_processing_list);
    lemma_bare_opt_scan_settings_list(d.scan_settings_list);
    lemma_bare_each_referenceable_param_group_ref(d.run.referenceable_param_group_refs);
    lemma_bare_each_cv_param(d.run.cv_params);
    lemma_bare_each_user_param(d.run.user_params);
    match d.run.spectrum_list {
        Some(l) => {
            let got = back.run.spectrum_list.unwrap().spectra;
            assert forall|i: int| 0 <= i < l.spectra.len() implies #[trigger] got[i]
                == l.spectra[i] by {
                lemma_spectrum_given_back(d, f32_compress, table, i);
            }
            assert(got =~= l.spectra);
            assert(back.run.spectrum_list.unwrap() =~~= l);
        },
        None => {},
    }
    match d.run.chromatogram_list {
        Some(l) => {
            let got = back.run.chromatogram_list.unwrap().chromatograms;
            assert forall|i: int| 0 <= i < l.chromatograms.len() implies #[trigger] got[i]
                == l.chromatograms[i] by {
                lemma_chromatogram_given_back(d, f32_compress, table, i);
            }
            assert(got =~= l.chromatograms);
            assert(back.run.chromatogram_list.unwrap() =~~= l);
        },
        None => {},
    }
    assert(back.run =~~= d.run);
    assert(back =~~= d);
}

/// Decoding the file that the encoder writes for a document gives the
/// document itself, wherever its arrays are as the decoder leaves them:
/// the same tree, every element with the same parameters in the same
/// order, and the same elements in every array, bit for bit.
///
/// This holds outright for files written at level zero.  For compressed
/// files it holds wherever the codec gives back what it compressed.
pub proof fn lemma_encode_then_decode_is_identity(
    d: MzMLModel,
    level: u8,
    f32_compress: bool,
    table: Map<Seq<u8>, Seq<char>>,
)
    requires
        round_trips(d, level, f32_compress),
        is_settled(d, format_of(f32_compress)),
    ensures
        decode_spec(encode_spec(d, level, f32_compress), table) == Ok::<MzMLModel, DecodeError>(d),
{
    lemma_document_round_trip(d, level, f32_compress, table);
    lemma_settled_document_given_back(d, level, f32_compress, table);
}

} // verus!
