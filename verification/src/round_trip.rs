//! What the records of the items and of the global sections give of a
//! document, taken by themselves: what a reader makes of a written file
//! when it passes over the tree of the document and reads the items and
//! the sections as a file without a tree is read.  What the decoder of
//! this library gives back for a written file is stated in `whole`.

use vstd::prelude::*;
use vstd::utf8::decode_utf8_encode_utf8;
use crate::accession::{COLON, tail_bytes};
use crate::accession_laws::{lemma_decimal_spells, lemma_no_separator, lemma_written_accession};
use crate::attributes::lemma_front_reads_back;
use crate::bytes::{lemma_u32s_round_trip, lemma_u64s_round_trip};
use crate::decode::{chromatogram_model, plain_document, spectrum_model, with_spectrum_ref};
use crate::document::{CvListModel, CvModel, MzMLModel};
use crate::file_laws::{
    bits_of, codec_inverts_all, decoded_arrays, decoded_chromatograms, decoded_spectra, held,
    written_parts,
};
use crate::flatten::{
    attr_param, chromatogram_attrs, chromatogram_params, cv_attr_params, cv_items,
    doc_chromatograms, doc_counts, doc_cvs, doc_global_items, doc_groups, doc_instruments,
    doc_processing, doc_samples, doc_settings, doc_software, doc_spectra, encode_fails,
    encode_spec, first_spectrum_ref, flat_of, format_of, globals_too_long, group_items,
    instrument_items, processing_items, sample_items, settings_items, software_items,
    spectrum_attrs, spectrum_params, spectrum_terms, x_bytes, x_place, y_bytes, y_place,
};
use crate::global::{
    cv_of, group_of, instrument_of, processing_of, sample_of, scan_settings_of, software_of,
};
use crate::header::{FMT_F32, FMT_F64};
use crate::meta_laws::{normal, normal_params};
use crate::metadatum::{ACC_ATTR_FULL_NAME, ACC_ATTR_ID, ACC_ATTR_URI, ACC_ATTR_VERSION};
use crate::params::{CvParamModel, ParamValueModel};
use crate::precursor::{
    ACC_MZ_ARRAY, ACC_TIME_ARRAY, act_pred, inferred_precursors, iso_pred, keep_pred, model_tail,
    rest_pred, sel_pred,
};
use crate::run::{BinaryDataArrayListModel, BinaryDataArrayModel, ChromatogramModel, SpectrumModel};
use crate::text::{decimal, has_digit, is_digit, lemma_ascii_is_utf8, lemma_decimal_ascii};
use crate::tree_records::carried;

verus! {

/// What a reader that passes over the document tree makes of the file
/// written for `d`: the global sections and the items as their own
/// records and the containers give them.
pub open spec fn plainly_decoded(
    d: MzMLModel,
    level: u8,
    f32_compress: bool,
    table: Map<Seq<u8>, Seq<char>>,
) -> MzMLModel {
    let f = flat_of(d, format_of(f32_compress));
    plain_document(
        written_parts(f, level, table),
        decoded_spectra(f, table, f.spec_x.len() as int),
        decoded_chromatograms(f, table, f.chrom_x.len() as int),
    )
}

/// Whether the file for `d` can be written, fits the memory of the
/// machine, and the codec gives back all that it compressed for it.
pub open spec fn round_trips(d: MzMLModel, level: u8, f32_compress: bool) -> bool {
    let f = flat_of(d, format_of(f32_compress));
    &&& encode_fails(d, level, f32_compress) is None
    &&& encode_spec(d, level, f32_compress).len() <= usize::MAX
    &&& held(f)
    &&& codec_inverts_all(f, level)
}

/// The elements of an array in the vector of the format, as bit
/// patterns; the vector of the other format is empty.
pub open spec fn elements_of(a: BinaryDataArrayModel, fmt: u8) -> (Seq<u32>, Seq<u64>) {
    if fmt == FMT_F32 {
        (a.decoded_binary_f32, Seq::empty())
    } else {
        (Seq::empty(), a.decoded_binary_f64)
    }
}

/// The elements of the X array of an item; none where it has no array.
pub open spec fn x_elements(l: Option<BinaryDataArrayListModel>, axis: u32, fmt: u8) -> (
    Seq<u32>,
    Seq<u64>,
) {
    match l {
        Some(l) => if l.binary_data_arrays.len() == 0 {
            (Seq::empty(), Seq::empty())
        } else {
            elements_of(l.binary_data_arrays[x_place(l, axis)], fmt)
        },
        None => (Seq::empty(), Seq::empty()),
    }
}

/// The elements of the Y array of an item; none where it has no array.
pub open spec fn y_elements(l: Option<BinaryDataArrayListModel>, fmt: u8) -> (Seq<u32>, Seq<u64>) {
    match l {
        Some(l) => if l.binary_data_arrays.len() == 0 {
            (Seq::empty(), Seq::empty())
        } else {
            elements_of(l.binary_data_arrays[y_place(l)], fmt)
        },
        None => (Seq::empty(), Seq::empty()),
    }
}

/// The bytes that the elements of an array are written as are read back
/// as the same elements, bit for bit, and they are as many.
pub proof fn lemma_elements_read_back(l: Option<BinaryDataArrayListModel>, axis: u32, fmt: u8)
    requires
        fmt == FMT_F32 || fmt == FMT_F64,
    ensures
        bits_of(x_bytes(l, axis, fmt), fmt) == x_elements(l, axis, fmt),
        bits_of(y_bytes(l, fmt), fmt) == y_elements(l, fmt),
        fmt == FMT_F32 ==> x_bytes(l, axis, fmt).len() == 4 * x_elements(l, axis, fmt).0.len(),
        fmt == FMT_F64 ==> x_bytes(l, axis, fmt).len() == 8 * x_elements(l, axis, fmt).1.len(),
        fmt == FMT_F32 ==> y_bytes(l, fmt).len() == 4 * y_elements(l, fmt).0.len(),
        fmt == FMT_F64 ==> y_bytes(l, fmt).len() == 8 * y_elements(l, fmt).1.len(),
{
    lemma_u32s_round_trip(x_elements(l, axis, fmt).0);
    lemma_u64s_round_trip(x_elements(l, axis, fmt).1);
    lemma_u32s_round_trip(y_elements(l, fmt).0);
    lemma_u64s_round_trip(y_elements(l, fmt).1);
    lemma_u32s_round_trip(Seq::empty());
    lemma_u64s_round_trip(Seq::empty());
    assert(bits_of(x_bytes(l, axis, fmt), fmt).0 =~= x_elements(l, axis, fmt).0);
    assert(bits_of(x_bytes(l, axis, fmt), fmt).1 =~= x_elements(l, axis, fmt).1);
    assert(bits_of(y_bytes(l, fmt), fmt).0 =~= y_elements(l, fmt).0);
    assert(bits_of(y_bytes(l, fmt), fmt).1 =~= y_elements(l, fmt).1);
}

/// The terms of a spectrum as the decoder keeps them: as they come back
/// from a block, without those that describe an array.
pub open spec fn kept_terms(s: SpectrumModel, table: Map<Seq<u8>, Seq<char>>) -> Seq<CvParamModel> {
    normal_params(spectrum_terms(s), table).filter(keep_pred())
}

/// What the decoder makes of the parameters that a spectrum is written
/// with: the attributes and the free-form entries of the spectrum as
/// they went in, its terms as they come back from a block, and its
/// precursor with the reference that went in.
pub proof fn lemma_written_spectrum(
    s: SpectrumModel,
    i: int,
    x_len: u32,
    arrays: BinaryDataArrayListModel,
    table: Map<Seq<u8>, Seq<char>>,
)
    requires
        s.user_params.len() <= usize::MAX,
    ensures
        ({
            let back = spectrum_model(i, normal_params(spectrum_params(s), table), x_len, arrays);
            &&& back.id == s.id
            &&& back.index == s.index
            &&& back.scan_number == s.scan_number
            &&& back.native_id == s.native_id
            &&& back.data_processing_ref == s.data_processing_ref
            &&& back.source_file_ref == s.source_file_ref
            &&& back.spot_id == s.spot_id
            &&& back.ms_level == s.ms_level
            &&& back.user_params == s.user_params
            &&& back.cv_params == kept_terms(s, table).filter(rest_pred())
            &&& back.precursor_list == with_spectrum_ref(
                inferred_precursors(kept_terms(s, table)),
                first_spectrum_ref(s.precursor_list),
            )
            &&& back.default_array_length == Some(x_len as usize)
            &&& back.binary_data_array_list == Some(arrays)
        }),
{
    reveal(spectrum_model);
    lemma_front_reads_back(spectrum_attrs(s), s.user_params, spectrum_terms(s), table);
}

/// What the decoder makes of the parameters that a chromatogram is
/// written with: the attributes and the free-form entries of the
/// chromatogram as they went in, and its terms as they come back from a
/// block.
pub proof fn lemma_written_chromatogram(
    c: ChromatogramModel,
    i: int,
    x_len: u32,
    arrays: BinaryDataArrayListModel,
    table: Map<Seq<u8>, Seq<char>>,
)
    requires
        c.user_params.len() <= usize::MAX,
    ensures
        ({
            let back = chromatogram_model(
                i,
                normal_params(chromatogram_params(c), table),
                x_len,
                arrays,
            );
            &&& back.id == c.id
            &&& back.index == c.index
            &&& back.native_id == c.native_id
            &&& back.data_processing_ref == c.data_processing_ref
            &&& back.user_params == c.user_params
            &&& back.cv_params == normal_params(c.cv_params, table).filter(keep_pred())
            &&& back.default_array_length == Some(x_len as usize)
            &&& back.binary_data_array_list == Some(arrays)
        }),
{
    reveal(chromatogram_model);
    lemma_front_reads_back(chromatogram_attrs(c), c.user_params, c.cv_params, table);
}

/// Spectrum `i` of the document that comes back is what the decoder
/// makes of the parameters and the arrays that spectrum `i` was written
/// with.
proof fn lemma_spectrum_is_decoded(
    d: MzMLModel,
    level: u8,
    f32_compress: bool,
    table: Map<Seq<u8>, Seq<char>>,
    i: int,
)
    requires
        0 <= i < doc_spectra(d).len(),
    ensures
        ({
            let f = flat_of(d, format_of(f32_compress));
            let back = plainly_decoded(d, level, f32_compress, table).run.spectrum_list;
            let a = decoded_arrays(f.spec_x, f.spec_y, f.fmt, ACC_MZ_ARRAY, table, i);
            &&& back is Some
            &&& back.unwrap().spectra.len() == doc_spectra(d).len()
            &&& back.unwrap().spectra[i] == spectrum_model(
                i,
                normal_params(spectrum_params(doc_spectra(d)[i]), table),
                a.0,
                a.1,
            )
        }),
{
}

/// Chromatogram `i` of the document that comes back is what the decoder
/// makes of the parameters and the arrays that chromatogram `i` was
/// written with.
proof fn lemma_chromatogram_is_decoded(
    d: MzMLModel,
    level: u8,
    f32_compress: bool,
    table: Map<Seq<u8>, Seq<char>>,
    i: int,
)
    requires
        0 <= i < doc_chromatograms(d).len(),
    ensures
        ({
            let f = flat_of(d, format_of(f32_compress));
            let back = plainly_decoded(d, level, f32_compress, table).run.chromatogram_list;
            let a = decoded_arrays(f.chrom_x, f.chrom_y, f.fmt, ACC_TIME_ARRAY, table, i);
            &&& back is Some
            &&& back.unwrap().chromatograms.len() == doc_chromatograms(d).len()
            &&& back.unwrap().chromatograms[i] == chromatogram_model(
                i,
                normal_params(chromatogram_params(doc_chromatograms(d)[i]), table),
                a.0,
                a.1,
            )
        }),
{
}

/// Every spectrum of a document comes back from its file in its place:
/// with its id, its index, its scan number, its native id, its
/// references, its spot id and its MS level; with its free-form entries;
/// with the two arrays that hold the elements of its X array and of its
/// Y array, bit for bit; with those of its terms, as parameters come
/// back from a block, that describe neither an array nor a precursor;
/// and with the precursor that the others describe, which refers to the
/// spectrum that the first precursor referred to.
pub proof fn lemma_spectrum_comes_back(
    d: MzMLModel,
    level: u8,
    f32_compress: bool,
    table: Map<Seq<u8>, Seq<char>>,
    i: int,
)
    requires
        0 <= i < doc_spectra(d).len(),
        doc_spectra(d)[i].user_params.len() <= usize::MAX,
    ensures
        ({
            let fmt = format_of(f32_compress);
            let back = plainly_decoded(d, level, f32_compress, table).run.spectrum_list;
            let s = doc_spectra(d)[i];
            &&& back is Some
            &&& back.unwrap().spectra.len() == doc_spectra(d).len()
            &&& back.unwrap().spectra[i].id == s.id
            &&& back.unwrap().spectra[i].index == s.index
            &&& back.unwrap().spectra[i].scan_number == s.scan_number
            &&& back.unwrap().spectra[i].native_id == s.native_id
            &&& back.unwrap().spectra[i].data_processing_ref == s.data_processing_ref
            &&& back.unwrap().spectra[i].source_file_ref == s.source_file_ref
            &&& back.unwrap().spectra[i].spot_id == s.spot_id
            &&& back.unwrap().spectra[i].ms_level == s.ms_level
            &&& back.unwrap().spectra[i].user_params == s.user_params
            &&& back.unwrap().spectra[i].cv_params == kept_terms(s, table).filter(rest_pred())
            &&& back.unwrap().spectra[i].precursor_list == with_spectrum_ref(
                inferred_precursors(kept_terms(s, table)),
                first_spectrum_ref(s.precursor_list),
            )
            &&& back.unwrap().spectra[i].binary_data_array_list is Some
            &&& back.unwrap().spectra[i].binary_data_array_list.unwrap().binary_data_arrays.len()
                == 2
            &&& elements_of(
                back.unwrap().spectra[i].binary_data_array_list.unwrap().binary_data_arrays[0],
                fmt,
            ) == x_elements(s.binary_data_array_list, ACC_MZ_ARRAY, fmt)
            &&& elements_of(
                back.unwrap().spectra[i].binary_data_array_list.unwrap().binary_data_arrays[1],
                fmt,
            ) == y_elements(s.binary_data_array_list, fmt)
        }),
{
    let fmt = format_of(f32_compress);
    let f = flat_of(d, fmt);
    let a = decoded_arrays(f.spec_x, f.spec_y, f.fmt, ACC_MZ_ARRAY, table, i);
    lemma_spectrum_is_decoded(d, level, f32_compress, table, i);
    lemma_written_spectrum(doc_spectra(d)[i], i, a.0, a.1, table);
    lemma_elements_read_back(doc_spectra(d)[i].binary_data_array_list, ACC_MZ_ARRAY, fmt);
}

/// Every chromatogram of a document comes back from its file in its
/// place: with its id, its index, its native id and its data processing
/// reference; with its free-form entries; with the two arrays that hold
/// the elements of its X array and of its Y array, bit for bit; and with
/// those of its terms, as parameters come back from a block, that do not
/// describe an array.
pub proof fn lemma_chromatogram_comes_back(
    d: MzMLModel,
    level: u8,
    f32_compress: bool,
    table: Map<Seq<u8>, Seq<char>>,
    i: int,
)
    requires
        0 <= i < doc_chromatograms(d).len(),
        doc_chromatograms(d)[i].user_params.len() <= usize::MAX,
    ensures
        ({
            let fmt = format_of(f32_compress);
            let back = plainly_decoded(d, level, f32_compress, table).run.chromatogram_list;
            let c = doc_chromatograms(d)[i];
            &&& back is Some
            &&& back.unwrap().chromatograms.len() == doc_chromatograms(d).len()
            &&& back.unwrap().chromatograms[i].id == c.id
            &&& back.unwrap().chromatograms[i].index == c.index
            &&& back.unwrap().chromatograms[i].native_id == c.native_id
            &&& back.unwrap().chromatograms[i].data_processing_ref == c.data_processing_ref
            &&& back.unwrap().chromatograms[i].user_params == c.user_params
            &&& back.unwrap().chromatograms[i].cv_params == normal_params(c.cv_params, table).filter(
                keep_pred(),
            )
            &&& back.unwrap().chromatograms[i].binary_data_array_list is Some
            &&& back.unwrap().chromatograms[i].binary_data_array_list.unwrap().binary_data_arrays.len()
                == 2
            &&& elements_of(
                back.unwrap().chromatograms[i].binary_data_array_list.unwrap().binary_data_arrays[0],
                fmt,
            ) == x_elements(c.binary_data_array_list, ACC_TIME_ARRAY, fmt)
            &&& elements_of(
                back.unwrap().chromatograms[i].binary_data_array_list.unwrap().binary_data_arrays[1],
                fmt,
            ) == y_elements(c.binary_data_array_list, fmt)
        }),
{
    let fmt = format_of(f32_compress);
    let f = flat_of(d, fmt);
    let a = decoded_arrays(f.chrom_x, f.chrom_y, f.fmt, ACC_TIME_ARRAY, table, i);
    lemma_chromatogram_is_decoded(d, level, f32_compress, table, i);
    lemma_written_chromatogram(doc_chromatograms(d)[i], i, a.0, a.1, table);
    lemma_elements_read_back(doc_chromatograms(d)[i].binary_data_array_list, ACC_TIME_ARRAY, fmt);
}

/// Where the items of each global section start among all global items
/// of a document.
proof fn lemma_section_starts(d: MzMLModel)
    requires
        !globals_too_long(d),
    ensures
        ({
            let c = doc_counts(d);
            let g = doc_global_items(d);
            &&& g.len() == c.total()
            &&& g[0] == carried(d) + d.file_description.file_content.cv_params
            &&& forall|k: int|
                0 <= k < c.n_rpg ==> g[c.first_rpg() + k] == #[trigger] group_items(doc_groups(d))[k]
            &&& forall|k: int|
                0 <= k < c.n_samp ==> g[c.first_samp() + k] == #[trigger] sample_items(
                    doc_samples(d),
                )[k]
            &&& forall|k: int|
                0 <= k < c.n_inst ==> g[c.first_inst() + k] == #[trigger] instrument_items(
                    doc_instruments(d),
                )[k]
            &&& forall|k: int|
                0 <= k < c.n_soft ==> g[c.first_soft() + k] == #[trigger] software_items(
                    doc_software(d),
                )[k]
            &&& forall|k: int|
                0 <= k < c.n_dp ==> g[c.first_dp() + k] == #[trigger] processing_items(
                    doc_processing(d),
                )[k]
            &&& forall|k: int|
                0 <= k < c.n_acq ==> g[c.first_acq() + k] == #[trigger] settings_items(
                    doc_settings(d),
                )[k]
            &&& forall|k: int|
                0 <= k < c.n_cvs ==> g[c.first_cv() + k] == #[trigger] cv_items(doc_cvs(d))[k]
        }),
{
}

/// The parameters of the file content come back from the file, as
/// parameters come back from a block, behind the records that carry the
/// document.
pub proof fn lemma_file_content_comes_back(
    d: MzMLModel,
    level: u8,
    f32_compress: bool,
    table: Map<Seq<u8>, Seq<char>>,
)
    requires
        !globals_too_long(d),
    ensures
        plainly_decoded(d, level, f32_compress, table).file_description.file_content.cv_params
            == normal_params(carried(d) + d.file_description.file_content.cv_params, table),
{
    lemma_section_starts(d);
}

/// Every shared parameter group of a document comes back from its file in its
/// place, built from the parameters that were written for it, as
/// parameters come back from a block.  A document without any has no
/// list of them afterwards.
pub proof fn lemma_group_comes_back(
    d: MzMLModel,
    level: u8,
    f32_compress: bool,
    table: Map<Seq<u8>, Seq<char>>,
)
    requires
        !globals_too_long(d),
    ensures
        ({
            let back = plainly_decoded(d, level, f32_compress, table).referenceable_param_group_list;
            let n = doc_groups(d).len();
            &&& back is Some <==> n > 0
            &&& n > 0 ==> back.unwrap().referenceable_param_groups.len() == n
            &&& forall|k: int|
                0 <= k < n ==> #[trigger] back.unwrap().referenceable_param_groups[k] == group_of(
                    normal_params(group_items(doc_groups(d))[k], table),
                )
        }),
{
    lemma_section_starts(d);
}

/// Every sample of a document comes back from its file in its
/// place, built from the parameters that were written for it, as
/// parameters come back from a block.  A document without any has no
/// list of them afterwards.
pub proof fn lemma_sample_comes_back(
    d: MzMLModel,
    level: u8,
    f32_compress: bool,
    table: Map<Seq<u8>, Seq<char>>,
)
    requires
        !globals_too_long(d),
    ensures
        ({
            let back = plainly_decoded(d, level, f32_compress, table).sample_list;
            let n = doc_samples(d).len();
            &&& back is Some <==> n > 0
            &&& n > 0 ==> back.unwrap().samples.len() == n
            &&& forall|k: int|
                0 <= k < n ==> #[trigger] back.unwrap().samples[k] == sample_of(
                    normal_params(sample_items(doc_samples(d))[k], table),
                )
        }),
{
    lemma_section_starts(d);
}

/// Every instrument configuration of a document comes back from its file in its
/// place, built from the parameters that were written for it, as
/// parameters come back from a block.  A document without any has no
/// list of them afterwards.
pub proof fn lemma_instrument_comes_back(
    d: MzMLModel,
    level: u8,
    f32_compress: bool,
    table: Map<Seq<u8>, Seq<char>>,
)
    requires
        !globals_too_long(d),
    ensures
        ({
            let back = plainly_decoded(d, level, f32_compress, table).instrument_list;
            let n = doc_instruments(d).len();
            &&& back is Some <==> n > 0
            &&& n > 0 ==> back.unwrap().instrument.len() == n
            &&& forall|k: int|
                0 <= k < n ==> #[trigger] back.unwrap().instrument[k] == instrument_of(
                    normal_params(instrument_items(doc_instruments(d))[k], table),
                )
        }),
{
    lemma_section_starts(d);
}

/// Every piece of software of a document comes back from its file in its
/// place, built from the parameters that were written for it, as
/// parameters come back from a block.  A document without any has no
/// list of them afterwards.
pub proof fn lemma_software_comes_back(
    d: MzMLModel,
    level: u8,
    f32_compress: bool,
    table: Map<Seq<u8>, Seq<char>>,
)
    requires
        !globals_too_long(d),
    ensures
        ({
            let back = plainly_decoded(d, level, f32_compress, table).software_list;
            let n = doc_software(d).len();
            &&& back is Some <==> n > 0
            &&& n > 0 ==> back.unwrap().software.len() == n
            &&& forall|k: int|
                0 <= k < n ==> #[trigger] back.unwrap().software[k] == software_of(
                    normal_params(software_items(doc_software(d))[k], table),
                )
        }),
{
    lemma_section_starts(d);
}

/// Every data processing chain of a document comes back from its file in its
/// place, built from the parameters that were written for it, as
/// parameters come back from a block.  A document without any has no
/// list of them afterwards.
pub proof fn lemma_processing_comes_back(
    d: MzMLModel,
    level: u8,
    f32_compress: bool,
    table: Map<Seq<u8>, Seq<char>>,
)
    requires
        !globals_too_long(d),
    ensures
        ({
            let back = plainly_decoded(d, level, f32_compress, table).data_processing_list;
            let n = doc_processing(d).len();
            &&& back is Some <==> n > 0
            &&& n > 0 ==> back.unwrap().data_processing.len() == n
            &&& forall|k: int|
                0 <= k < n ==> #[trigger] back.unwrap().data_processing[k] == processing_of(
                    normal_params(processing_items(doc_processing(d))[k], table),
                )
        }),
{
    lemma_section_starts(d);
}

/// Every set of scan settings of a document comes back from its file in its
/// place, built from the parameters that were written for it, as
/// parameters come back from a block.  A document without any has no
/// list of them afterwards.
pub proof fn lemma_settings_comes_back(
    d: MzMLModel,
    level: u8,
    f32_compress: bool,
    table: Map<Seq<u8>, Seq<char>>,
)
    requires
        !globals_too_long(d),
    ensures
        ({
            let back = plainly_decoded(d, level, f32_compress, table).scan_settings_list;
            let n = doc_settings(d).len();
            &&& back is Some <==> n > 0
            &&& n > 0 ==> back.unwrap().scan_settings.len() == n
            &&& forall|k: int|
                0 <= k < n ==> #[trigger] back.unwrap().scan_settings[k] == scan_settings_of(
                    normal_params(settings_items(doc_settings(d))[k], table),
                )
        }),
{
    lemma_section_starts(d);
}

/// Every vocabulary of a document comes back from its file in its
/// place, built from the parameters that were written for it, as
/// parameters come back from a block.  A document without any has no
/// list of them afterwards.
pub proof fn lemma_cv_comes_back(
    d: MzMLModel,
    level: u8,
    f32_compress: bool,
    table: Map<Seq<u8>, Seq<char>>,
)
    requires
        !globals_too_long(d),
    ensures
        ({
            let back = plainly_decoded(d, level, f32_compress, table).cv_list;
            let n = doc_cvs(d).len();
            &&& back is Some <==> n > 0
            &&& n > 0 ==> back.unwrap().cv.len() == n
            &&& forall|k: int|
                0 <= k < n ==> #[trigger] back.unwrap().cv[k] == cv_of(
                    normal_params(cv_items(doc_cvs(d))[k], table),
                )
        }),
{
    lemma_section_starts(d);
}

/// The parameter that carries an attribute comes back from a block with
/// the tail of the attribute and with its value.
pub proof fn lemma_attribute_reads_back(
    tail: u32,
    value: ParamValueModel,
    table: Map<Seq<u8>, Seq<char>>,
)
    requires
        tail != 0,
    ensures
        model_tail(normal(attr_param(tail, value), table)) == tail,
        normal(attr_param(tail, value), table).value == value,
        normal(attr_param(tail, value), table).cv_ref is None,
{
    let d = decimal(tail as nat);
    lemma_decimal_spells(tail as nat);
    lemma_decimal_ascii(tail as nat);
    lemma_ascii_is_utf8(d);
    decode_utf8_encode_utf8(d);
    lemma_written_accession(None, tail);
    assert forall|i: int| 0 <= i < d.len() implies #[trigger] d[i] != COLON by {
        assert(is_digit(d[i]));
    }
    lemma_no_separator(d, COLON);
    assert(tail_bytes(d) =~= d);
    assert(is_digit(d[0]));
    assert(has_digit(d));
}

/// The four attributes of a vocabulary, written as parameters and read
/// back from a block, describe the vocabulary that they were taken
/// from.
pub proof fn lemma_cv_reads_back(c: CvModel, table: Map<Seq<u8>, Seq<char>>)
    ensures
        cv_of(normal_params(cv_attr_params(c), table)) == c,
{
    let ps = normal_params(cv_attr_params(c), table);
    lemma_attribute_reads_back(ACC_ATTR_ID, c.id, table);
    lemma_attribute_reads_back(ACC_ATTR_FULL_NAME, c.full_name, table);
    lemma_attribute_reads_back(ACC_ATTR_VERSION, c.version, table);
    lemma_attribute_reads_back(ACC_ATTR_URI, c.uri, table);
    let with_version = ps.drop_last();
    let with_name = with_version.drop_last();
    let with_id = with_name.drop_last();
    let nothing = with_id.drop_last();
    assert(nothing =~= Seq::<CvParamModel>::empty());
    assert(cv_of(nothing) == CvModel::empty());
    assert(with_id.last() == normal(attr_param(ACC_ATTR_ID, c.id), table));
    assert(with_name.last() == normal(attr_param(ACC_ATTR_FULL_NAME, c.full_name), table));
    assert(with_version.last() == normal(attr_param(ACC_ATTR_VERSION, c.version), table));
    assert(ps.last() == normal(attr_param(ACC_ATTR_URI, c.uri), table));
    assert(cv_of(with_id) == (CvModel { id: c.id, ..CvModel::empty() }));
    assert(cv_of(with_name) == (CvModel { full_name: c.full_name, ..cv_of(with_id) }));
    assert(cv_of(with_version) == (CvModel { version: c.version, ..cv_of(with_name) }));
    assert(cv_of(ps) == (CvModel { uri: c.uri, ..cv_of(with_version) }));
}

/// The vocabularies of a document come back from its file as they went
/// in, each in its place.
pub proof fn lemma_cv_list_comes_back(
    d: MzMLModel,
    level: u8,
    f32_compress: bool,
    table: Map<Seq<u8>, Seq<char>>,
)
    requires
        !globals_too_long(d),
        doc_cvs(d).len() > 0,
    ensures
        plainly_decoded(d, level, f32_compress, table).cv_list == Some(
            CvListModel { count: Some(doc_cvs(d).len() as usize), cv: doc_cvs(d) },
        ),
{
    lemma_cv_comes_back(d, level, f32_compress, table);
    let back = plainly_decoded(d, level, f32_compress, table).cv_list.unwrap();
    assert forall|k: int| 0 <= k < doc_cvs(d).len() implies #[trigger] back.cv[k] == doc_cvs(d)[k] by {
        lemma_cv_reads_back(doc_cvs(d)[k], table);
    }
    assert(back.cv =~= doc_cvs(d));
}

/// A list all of whose elements pass a filter stays as it is.
pub proof fn lemma_filter_keeps_all<A>(s: Seq<A>, pred: spec_fn(A) -> bool)
    requires
        forall|i: int| 0 <= i < s.len() ==> pred(#[trigger] s[i]),
    ensures
        s.filter(pred) == s,
    decreases s.len(),
{
    reveal(Seq::filter);
    if s.len() > 0 {
        lemma_filter_keeps_all(s.drop_last(), pred);
        assert(s.drop_last().push(s.last()) =~= s);
    }
}

/// Of a list none of whose elements passes a filter nothing is left.
pub proof fn lemma_filter_drops_all<A>(s: Seq<A>, pred: spec_fn(A) -> bool)
    requires
        forall|i: int| 0 <= i < s.len() ==> !pred(#[trigger] s[i]),
    ensures
        s.filter(pred) == Seq::<A>::empty(),
    decreases s.len(),
{
    reveal(Seq::filter);
    if s.len() > 0 {
        lemma_filter_drops_all(s.drop_last(), pred);
    }
}

/// Whether a parameter, as it comes back from a block, describes neither
/// an array nor a precursor.
pub open spec fn is_plain(p: CvParamModel, table: Map<Seq<u8>, Seq<char>>) -> bool {
    keep_pred()(normal(p, table)) && rest_pred()(normal(p, table))
}

/// A spectrum without precursors whose terms describe neither an array
/// nor a precursor comes back from its file with all its terms, each in
/// its place and as parameters come back from a block, and without
/// precursors.
pub proof fn lemma_plain_spectrum_comes_back(
    d: MzMLModel,
    level: u8,
    f32_compress: bool,
    table: Map<Seq<u8>, Seq<char>>,
    i: int,
)
    requires
        0 <= i < doc_spectra(d).len(),
        doc_spectra(d)[i].user_params.len() <= usize::MAX,
        doc_spectra(d)[i].precursor_list is None,
        forall|k: int|
            0 <= k < doc_spectra(d)[i].cv_params.len() ==> is_plain(
                #[trigger] doc_spectra(d)[i].cv_params[k],
                table,
            ),
    ensures
        ({
            let back = plainly_decoded(d, level, f32_compress, table).run.spectrum_list;
            let s = doc_spectra(d)[i];
            &&& back is Some
            &&& back.unwrap().spectra[i].cv_params == normal_params(s.cv_params, table)
            &&& back.unwrap().spectra[i].precursor_list is None
        }),
{
    let s = doc_spectra(d)[i];
    lemma_spectrum_comes_back(d, level, f32_compress, table, i);
    assert(spectrum_terms(s) =~= s.cv_params);
    let all = normal_params(s.cv_params, table);
    assert forall|k: int| 0 <= k < all.len() implies keep_pred()(#[trigger] all[k]) && rest_pred()(
        all[k],
    ) by {
        assert(is_plain(s.cv_params[k], table));
    }
    lemma_filter_keeps_all(all, keep_pred());
    lemma_filter_keeps_all(all, rest_pred());
    assert forall|k: int| 0 <= k < all.len() implies !iso_pred()(#[trigger] all[k]) && !sel_pred()(
        all[k],
    ) && !act_pred()(all[k]) by {
        assert(rest_pred()(all[k]));
    }
    lemma_filter_drops_all(all, iso_pred());
    lemma_filter_drops_all(all, sel_pred());
    lemma_filter_drops_all(all, act_pred());
}

/// A chromatogram whose terms do not describe an array comes back from
/// its file with all its terms, each in its place and as parameters come
/// back from a block.
pub proof fn lemma_plain_chromatogram_comes_back(
    d: MzMLModel,
    level: u8,
    f32_compress: bool,
    table: Map<Seq<u8>, Seq<char>>,
    i: int,
)
    requires
        0 <= i < doc_chromatograms(d).len(),
        doc_chromatograms(d)[i].user_params.len() <= usize::MAX,
        forall|k: int|
            0 <= k < doc_chromatograms(d)[i].cv_params.len() ==> keep_pred()(
                normal(#[trigger] doc_chromatograms(d)[i].cv_params[k], table),
            ),
    ensures
        ({
            let back = plainly_decoded(d, level, f32_compress, table).run.chromatogram_list;
            let c = doc_chromatograms(d)[i];
            &&& back is Some
            &&& back.unwrap().chromatograms[i].cv_params == normal_params(c.cv_params, table)
        }),
{
    let c = doc_chromatograms(d)[i];
    lemma_chromatogram_comes_back(d, level, f32_compress, table, i);
    let all = normal_params(c.cv_params, table);
    assert forall|k: int| 0 <= k < all.len() implies keep_pred()(#[trigger] all[k]) by {
        assert(keep_pred()(normal(c.cv_params[k], table)));
    }
    lemma_filter_keeps_all(all, keep_pred());
}

} // verus!
