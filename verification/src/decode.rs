//! The decoder: from the bytes of a file to the document they hold.

use vstd::prelude::*;
use vstd::utf8::decode_utf8;
use crate::accession::{accession_bytes, make_accession, prefix_ms, text_of};
use crate::attributes::{attrs_of, behind_front, is_front, split_front, users_of};
use crate::binary_array::{float_term, ms_float_param};
use crate::bytes::{le_u32_seq, le_u32_vec_at, le_u64_seq, le_u64_vec_at, read_slice_spec, slice_at};
use crate::codec::{BytesMaybeOwned, decompress_meta_if_needed, meta_plain};
use crate::container::{Container, container_model, ContainerModel, slice_spec};
use crate::cv_table::CvTable;
use crate::document::{MzML, MzMLModel};
use crate::error::DecodeError;
use crate::global::{decode_global_meta_structs, global_spec, GlobalSectionsModel, take_params};
use crate::header::{
    elem_size_of, fmt_elem_size, FMT_F32, FMT_F64, HDR_FLAG_CHROM_META_COMP,
    HDR_FLAG_GLOBAL_META_COMP, HDR_FLAG_SPEC_META_COMP, Header, header_spec, index_entry_spec,
    min_nonzero, min_nonzero_usize, parse_header, read_index_entry_with_blocks,
};
use crate::metadata::{
    cv_name_from_code, decode_meta_block, meta_block_spec, MetaShape, name_of_code,
};
use crate::params::{CvParam, CvParamModel, lemma_deep_view_push};
use crate::precursor::{
    ACC_32BIT_FLOAT, ACC_64BIT_FLOAT, ACC_INTENSITY_ARRAY, ACC_MZ_ARRAY, ACC_TIME_ARRAY,
    infer_precursor_list_from_spectrum_cv, inferred_precursors, keep_pred, rest_pred,
    strip_binary_array_cv_params,
};
use crate::restore::{counts_match, restore, restored};
use crate::run::{
    BinaryDataArray, BinaryDataArrayList, BinaryDataArrayListModel, BinaryDataArrayModel,
    Chromatogram, ChromatogramList, ChromatogramListModel, ChromatogramModel, Precursor,
    PrecursorList, PrecursorListModel, PrecursorModel, Run, RunModel, Spectrum, SpectrumList,
    SpectrumListModel, SpectrumModel,
};
use crate::text::{all_ascii, ascii_text, decimal, lemma_decimal_ascii, push_decimal};
use crate::tree_records::{carried_document, read_carried};

verus! {

/// The bytes of `spectrum_`, with which the ids of spectra start.
pub open spec fn spectrum_word() -> Seq<u8> {
    seq![115u8, 112u8, 101u8, 99u8, 116u8, 114u8, 117u8, 109u8, 95u8]
}

/// The bytes of `chromatogram_`, with which the ids of chromatograms start.
pub open spec fn chromatogram_word() -> Seq<u8> {
    seq![99u8, 104u8, 114u8, 111u8, 109u8, 97u8, 116u8, 111u8, 103u8, 114u8, 97u8, 109u8, 95u8]
}

/// The bytes of `run`, the id of the run.
pub open spec fn run_word() -> Seq<u8> {
    seq![114u8, 117u8, 110u8]
}

/// The id of item `i`: a word followed by the decimal digits of `i`.
pub open spec fn item_id(word: Seq<u8>, i: nat) -> Seq<char> {
    decode_utf8(word + decimal(i))
}

/// Makes the id of item `i` from a word of ASCII bytes.
fn make_item_id(word: &[u8], i: u32) -> (id: String)
    requires
        all_ascii(word@),
    ensures
        id@ == item_id(word@, i as nat),
{
    let mut out: Vec<u8> = Vec::new();
    out.extend_from_slice(word);
    push_decimal(&mut out, i, 1);
    proof {
        lemma_decimal_ascii(i as nat);
        assert(out@ =~= word@ + decimal(i as nat));
    }
    ascii_text(out)
}

/// The element size that a container needs.  A format code that is
/// neither 1 nor 2 is accepted only where nothing is stored in that
/// format: no item refers to the container and it holds no block.
pub open spec fn elem_size_needed(fmt: u8, count: u32, size: u64, block_count: u32) -> Result<
    usize,
    DecodeError,
> {
    if fmt == FMT_F32 || fmt == FMT_F64 {
        elem_size_of(fmt)
    } else if count == 0 && (size == 0 || block_count == 0) {
        Ok(1usize)
    } else {
        Err(DecodeError::BadFloatFormat)
    }
}

/// Returns the element size that a container needs.
fn needed_elem_size(fmt: u8, count: u32, size: u64, block_count: u32) -> (r: Result<
    usize,
    DecodeError,
>)
    ensures
        r == elem_size_needed(fmt, count, size, block_count),
{
    if fmt == FMT_F32 || fmt == FMT_F64 {
        fmt_elem_size(fmt)
    } else if count == 0 && (size == 0 || block_count == 0) {
        Ok(1)
    } else {
        Err(DecodeError::BadFloatFormat)
    }
}

/// An offset as an index of this machine; offsets beyond every index
/// count as the largest index.
pub open spec fn as_index(off: u64) -> usize {
    if off > usize::MAX {
        usize::MAX
    } else {
        off as usize
    }
}

/// Returns an offset as an index of this machine.
fn to_index(off: u64) -> (i: usize)
    ensures
        i == as_index(off),
{
    if off > usize::MAX as u64 {
        usize::MAX
    } else {
        off as usize
    }
}

/// The regions of a file, cut out as the header says.
pub struct RegionsModel {
    pub spect_x_elem: usize,
    pub spect_y_elem: usize,
    pub chrom_x_elem: usize,
    pub chrom_y_elem: usize,
    pub spec_index: Seq<u8>,
    pub chrom_index: Seq<u8>,
    pub spec_meta: Seq<u8>,
    pub chrom_meta: Seq<u8>,
    pub global_meta: Seq<u8>,
}

/// Where the global metadata ends: at the first container that has a
/// non-zero offset, or at the end of the file.
pub open spec fn global_meta_end(b: Seq<u8>, h: Header) -> usize {
    match min_nonzero(
        seq![
            as_index(h.off_container_spect_x),
            as_index(h.off_container_spect_y),
            as_index(h.off_container_chrom_x),
            as_index(h.off_container_chrom_y),
        ],
    ) {
        Some(m) => m,
        None => b.len() as usize,
    }
}

/// The regions of the file `b` with header `h`.
///
/// The element formats are checked first, then the two indices are cut
/// out, then the metadata regions, which must follow each other in
/// ascending order and end before the first container.  A global metadata
/// offset of zero stands for a file without global metadata.
pub open spec fn regions_spec(b: Seq<u8>, h: Header) -> Result<RegionsModel, DecodeError> {
    let sx = elem_size_needed(
        h.spect_x_fmt,
        h.spectrum_count,
        h.size_container_spect_x,
        h.block_count_spect_x,
    );
    let sy = elem_size_needed(
        h.spect_y_fmt,
        h.spectrum_count,
        h.size_container_spect_y,
        h.block_count_spect_y,
    );
    let cx = elem_size_needed(
        h.chrom_x_fmt,
        h.chrom_count,
        h.size_container_chrom_x,
        h.block_count_chrom_x,
    );
    let cy = elem_size_needed(
        h.chrom_y_fmt,
        h.chrom_count,
        h.size_container_chrom_y,
        h.block_count_chrom_y,
    );
    let spec_index = read_slice_spec(b, h.off_spec_index as int, h.spectrum_count * 32);
    let chrom_index = read_slice_spec(b, h.off_chrom_index as int, h.chrom_count * 32);
    let spec_meta = read_slice_spec(b, h.off_spec_meta as int, h.off_chrom_meta - h.off_spec_meta);
    let chrom_meta = read_slice_spec(
        b,
        h.off_chrom_meta as int,
        h.off_global_meta - h.off_chrom_meta,
    );
    let end = global_meta_end(b, h);
    let global_meta = if h.off_global_meta == 0 {
        Ok(Seq::empty())
    } else {
        read_slice_spec(b, h.off_global_meta as int, end - h.off_global_meta)
    };
    if sx is Err {
        Err(sx->Err_0)
    } else if sy is Err {
        Err(sy->Err_0)
    } else if cx is Err {
        Err(cx->Err_0)
    } else if cy is Err {
        Err(cy->Err_0)
    } else if spec_index is Err {
        Err(spec_index->Err_0)
    } else if chrom_index is Err {
        Err(chrom_index->Err_0)
    } else if h.off_chrom_meta < h.off_spec_meta || h.off_global_meta < h.off_chrom_meta {
        Err(DecodeError::MetaOffsets)
    } else if spec_meta is Err {
        Err(spec_meta->Err_0)
    } else if chrom_meta is Err {
        Err(chrom_meta->Err_0)
    } else if end < h.off_global_meta {
        Err(DecodeError::ContainerOffsets)
    } else if global_meta is Err {
        Err(global_meta->Err_0)
    } else {
        Ok(
            RegionsModel {
                spect_x_elem: sx->Ok_0,
                spect_y_elem: sy->Ok_0,
                chrom_x_elem: cx->Ok_0,
                chrom_y_elem: cy->Ok_0,
                spec_index: spec_index->Ok_0,
                chrom_index: chrom_index->Ok_0,
                spec_meta: spec_meta->Ok_0,
                chrom_meta: chrom_meta->Ok_0,
                global_meta: global_meta->Ok_0,
            },
        )
    }
}

/// The regions of a file, borrowed from its bytes.
pub struct FileRegions<'a> {
    pub spect_x_elem: usize,
    pub spect_y_elem: usize,
    pub chrom_x_elem: usize,
    pub chrom_y_elem: usize,
    pub spec_index: &'a [u8],
    pub chrom_index: &'a [u8],
    pub spec_meta: &'a [u8],
    pub chrom_meta: &'a [u8],
    pub global_meta: &'a [u8],
}

impl<'a> FileRegions<'a> {
    /// The regions as mathematical values.
    pub open spec fn model(&self) -> RegionsModel {
        RegionsModel {
            spect_x_elem: self.spect_x_elem,
            spect_y_elem: self.spect_y_elem,
            chrom_x_elem: self.chrom_x_elem,
            chrom_y_elem: self.chrom_y_elem,
            spec_index: self.spec_index@,
            chrom_index: self.chrom_index@,
            spec_meta: self.spec_meta@,
            chrom_meta: self.chrom_meta@,
            global_meta: self.global_meta@,
        }
    }
}

/// Cuts the regions out of a file.
pub fn locate_regions<'a>(bytes: &'a [u8], h: &Header) -> (r: Result<FileRegions<'a>, DecodeError>)
    ensures
        match r {
            Ok(g) => regions_spec(bytes@, *h) == Ok::<RegionsModel, DecodeError>(g.model()),
            Err(e) => regions_spec(bytes@, *h) == Err::<RegionsModel, DecodeError>(e),
        },
{
    let spect_x_elem = match needed_elem_size(
        h.spect_x_fmt,
        h.spectrum_count,
        h.size_container_spect_x,
        h.block_count_spect_x,
    ) {
        Ok(v) => v,
        Err(e) => {
            return Err(e);
        },
    };
    let spect_y_elem = match needed_elem_size(
        h.spect_y_fmt,
        h.spectrum_count,
        h.size_container_spect_y,
        h.block_count_spect_y,
    ) {
        Ok(v) => v,
        Err(e) => {
            return Err(e);
        },
    };
    let chrom_x_elem = match needed_elem_size(
        h.chrom_x_fmt,
        h.chrom_count,
        h.size_container_chrom_x,
        h.block_count_chrom_x,
    ) {
        Ok(v) => v,
        Err(e) => {
            return Err(e);
        },
    };
    let chrom_y_elem = match needed_elem_size(
        h.chrom_y_fmt,
        h.chrom_count,
        h.size_container_chrom_y,
        h.block_count_chrom_y,
    ) {
        Ok(v) => v,
        Err(e) => {
            return Err(e);
        },
    };
    let spec_index = match slice_at(
        bytes,
        h.off_spec_index,
        h.spectrum_count as u64 * 32,
        "spectrum index",
    ) {
        Ok(v) => v,
        Err(e) => {
            return Err(e);
        },
    };
    let chrom_index = match slice_at(
        bytes,
        h.off_chrom_index,
        h.chrom_count as u64 * 32,
        "chromatogram index",
    ) {
        Ok(v) => v,
        Err(e) => {
            return Err(e);
        },
    };
    if h.off_chrom_meta < h.off_spec_meta || h.off_global_meta < h.off_chrom_meta {
        return Err(DecodeError::MetaOffsets);
    }
    let spec_meta = match slice_at(
        bytes,
        h.off_spec_meta,
        h.off_chrom_meta - h.off_spec_meta,
        "spectrum metadata",
    ) {
        Ok(v) => v,
        Err(e) => {
            return Err(e);
        },
    };
    let chrom_meta = match slice_at(
        bytes,
        h.off_chrom_meta,
        h.off_global_meta - h.off_chrom_meta,
        "chromatogram metadata",
    ) {
        Ok(v) => v,
        Err(e) => {
            return Err(e);
        },
    };
    let offs: [usize; 4] = [
        to_index(h.off_container_spect_x),
        to_index(h.off_container_spect_y),
        to_index(h.off_container_chrom_x),
        to_index(h.off_container_chrom_y),
    ];
    assert(offs@ =~= seq![
        as_index(h.off_container_spect_x),
        as_index(h.off_container_spect_y),
        as_index(h.off_container_chrom_x),
        as_index(h.off_container_chrom_y),
    ]);
    let end: usize = match min_nonzero_usize(offs.as_slice()) {
        Some(m) => m,
        None => bytes.len(),
    };
    if (end as u64) < h.off_global_meta {
        return Err(DecodeError::ContainerOffsets);
    }
    let global_meta = if h.off_global_meta == 0 {
        let nothing: &'a [u8] = &[];
        assert(nothing@ =~= Seq::<u8>::empty());
        nothing
    } else {
        match slice_at(bytes, h.off_global_meta, end as u64 - h.off_global_meta, "global metadata") {
            Ok(v) => v,
            Err(e) => {
                return Err(e);
            },
        }
    };
    Ok(
        FileRegions {
            spect_x_elem,
            spect_y_elem,
            chrom_x_elem,
            chrom_y_elem,
            spec_index,
            chrom_index,
            spec_meta,
            chrom_meta,
            global_meta,
        },
    )
}

/// Opens the container at `[off, off + size)` of a file, with offset and
/// size given as 64-bit numbers.
pub fn open_container<'a>(
    file: &'a [u8],
    off: u64,
    size: u64,
    block_count: u32,
    codec: u8,
    compression_level: u8,
    elem_size: usize,
    array_filter: u8,
) -> (r: Result<Container<'a>, DecodeError>)
    ensures
        match r {
            Ok(c) => c.wf() && container_model(
                file@,
                off as int,
                size as int,
                block_count,
                codec,
                compression_level,
                elem_size,
                array_filter,
            ) == Ok::<ContainerModel, DecodeError>(c.model()),
            Err(e) => container_model(
                file@,
                off as int,
                size as int,
                block_count,
                codec,
                compression_level,
                elem_size,
                array_filter,
            ) == Err::<ContainerModel, DecodeError>(e),
        },
{
    if size == 0 || block_count == 0 {
        return Ok(Container::empty());
    }
    if elem_size == 0 {
        return Err(DecodeError::BadFloatFormat);
    }
    let n = file.len();
    if off > n as u64 || size > n as u64 - off {
        return Err(DecodeError::UnexpectedEnd);
    }
    Container::new(
        file,
        off as usize,
        size as usize,
        block_count,
        codec,
        compression_level,
        elem_size,
        array_filter,
    )
}

/// The elements that the bytes of an array hold, as bit patterns: 32-bit
/// elements for format 1 and 64-bit elements for format 2.
pub open spec fn array_of(b: Seq<u8>, fmt: u8) -> Result<(Seq<u32>, Seq<u64>), DecodeError> {
    if fmt == FMT_F32 {
        if b.len() % 4 != 0 {
            Err(DecodeError::RaggedElements)
        } else {
            Ok((le_u32_seq(b, 0, b.len() / 4), Seq::empty()))
        }
    } else if fmt == FMT_F64 {
        if b.len() % 8 != 0 {
            Err(DecodeError::RaggedElements)
        } else {
            Ok((Seq::empty(), le_u64_seq(b, 0, b.len() / 8)))
        }
    } else {
        Err(DecodeError::BadFloatFormat)
    }
}

/// Reads bytes as 32-bit elements; the length must be a multiple of four.
pub fn bytes_to_f32_exact(bytes: &[u8]) -> (r: Result<Vec<u32>, DecodeError>)
    ensures
        match r {
            Ok(v) => bytes@.len() % 4 == 0 && v@ == le_u32_seq(bytes@, 0, bytes@.len() / 4),
            Err(e) => bytes@.len() % 4 != 0 && e == DecodeError::RaggedElements,
        },
{
    let n = bytes.len();
    if n % 4 != 0 {
        return Err(DecodeError::RaggedElements);
    }
    Ok(le_u32_vec_at(bytes, 0, n / 4))
}

/// Reads bytes as 64-bit elements; the length must be a multiple of eight.
pub fn bytes_to_f64_exact(bytes: &[u8]) -> (r: Result<Vec<u64>, DecodeError>)
    ensures
        match r {
            Ok(v) => bytes@.len() % 8 == 0 && v@ == le_u64_seq(bytes@, 0, bytes@.len() / 8),
            Err(e) => bytes@.len() % 8 != 0 && e == DecodeError::RaggedElements,
        },
{
    let n = bytes.len();
    if n % 8 != 0 {
        return Err(DecodeError::RaggedElements);
    }
    Ok(le_u64_vec_at(bytes, 0, n / 8))
}

/// Reads the elements of an array in the given format.
pub fn decode_array_by_fmt_from_bytes(bytes: &[u8], fmt: u8) -> (r: Result<
    (Vec<u32>, Vec<u64>),
    DecodeError,
>)
    ensures
        match r {
            Ok(v) => array_of(bytes@, fmt) == Ok::<(Seq<u32>, Seq<u64>), DecodeError>(
                (v.0@, v.1@),
            ),
            Err(e) => array_of(bytes@, fmt) == Err::<(Seq<u32>, Seq<u64>), DecodeError>(e),
        },
{
    if fmt == FMT_F32 {
        match bytes_to_f32_exact(bytes) {
            Ok(v) => Ok((v, Vec::new())),
            Err(e) => Err(e),
        }
    } else if fmt == FMT_F64 {
        match bytes_to_f64_exact(bytes) {
            Ok(v) => Ok((Vec::new(), v)),
            Err(e) => Err(e),
        }
    } else {
        Err(DecodeError::BadFloatFormat)
    }
}

/// The `MS` term with the given tail, named as the table names it.
pub open spec fn ms_term(tail: u32, table: Map<Seq<u8>, Seq<char>>) -> CvParamModel {
    CvParamModel {
        cv_ref: Some(decode_utf8(prefix_ms())),
        accession: text_of(accession_bytes(Some(prefix_ms()), tail)),
        name: match name_of_code(table, Some(prefix_ms()), tail) {
            Some(n) => n,
            None => Seq::empty(),
        },
        ..CvParamModel::empty()
    }
}

/// Makes the `MS` term with the given tail.
pub fn ms_cv_param(accession_tail: u32, table: &CvTable) -> (p: CvParam)
    ensures
        p.deep_view() == ms_term(accession_tail, table@),
{
    let ms = crate::accession::cv_ref_from_code(crate::accession::CODE_MS);
    let mut p = CvParam::empty();
    p.cv_ref = match ms {
        Some(t) => Some(t.to_owned()),
        None => None,
    };
    p.accession = make_accession(ms, accession_tail);
    p.name = match cv_name_from_code(ms, accession_tail, table) {
        Some(n) => n,
        None => String::new(),
    };
    assert(p.deep_view() =~~= ms_term(accession_tail, table@));
    p
}

/// The tail of the term that names an element format: "32-bit float"
/// for the format of 32 bits, else "64-bit float".
pub open spec fn format_tail(fmt: u8) -> u32 {
    if fmt == FMT_F32 {
        ACC_32BIT_FLOAT
    } else {
        ACC_64BIT_FLOAT
    }
}

/// The array of `len` elements of one axis.  It carries the term of its
/// axis and the term of its element format.
pub open spec fn array_model(
    axis_tail: u32,
    fmt: u8,
    len: u32,
    bits: (Seq<u32>, Seq<u64>),
    table: Map<Seq<u8>, Seq<char>>,
) -> BinaryDataArrayModel {
    BinaryDataArrayModel {
        array_length: Some(len as usize),
        is_f32: Some(fmt == FMT_F32),
        is_f64: Some(fmt == FMT_F64),
        cv_params: seq![ms_term(axis_tail, table), float_term(format_tail(fmt))],
        decoded_binary_f32: bits.0,
        decoded_binary_f64: bits.1,
        ..BinaryDataArrayModel::empty()
    }
}

/// Makes the array of `len` elements of one axis.
fn make_array(axis_tail: u32, fmt: u8, len: u32, bits: (Vec<u32>, Vec<u64>), table: &CvTable) -> (a:
    BinaryDataArray)
    ensures
        a.deep_view() == array_model(axis_tail, fmt, len, (bits.0@, bits.1@), table@),
{
    let mut a = BinaryDataArray::empty();
    a.array_length = Some(len as usize);
    a.is_f32 = Some(fmt == FMT_F32);
    a.is_f64 = Some(fmt == FMT_F64);
    let mut terms: Vec<CvParam> = Vec::new();
    terms.push(ms_cv_param(axis_tail, table));
    terms.push(
        ms_float_param(
            if fmt == FMT_F32 {
                ACC_32BIT_FLOAT
            } else {
                ACC_64BIT_FLOAT
            },
        ),
    );
    proof {
        let models = terms.deep_view();
        assert(models[0] == terms@[0].deep_view());
        assert(models[1] == terms@[1].deep_view());
        assert(models =~= seq![ms_term(axis_tail, table@), float_term(format_tail(fmt))]);
    }
    a.cv_params = terms;
    a.decoded_binary_f32 = bits.0;
    a.decoded_binary_f64 = bits.1;
    assert(a.deep_view() =~~= array_model(axis_tail, fmt, len, (bits.0@, bits.1@), table@));
    a
}

/// The pair of arrays of one item.
pub open spec fn array_pair(x: BinaryDataArrayModel, y: BinaryDataArrayModel)
    -> BinaryDataArrayListModel {
    BinaryDataArrayListModel { count: Some(2usize), binary_data_arrays: seq![x, y] }
}

/// What an item of a per-item index and its two containers give: the X
/// array and the Y array, each with its axis term.
pub open spec fn item_arrays(
    index: Seq<u8>,
    x: ContainerModel,
    y: ContainerModel,
    x_fmt: u8,
    y_fmt: u8,
    x_axis: u32,
    table: Map<Seq<u8>, Seq<char>>,
    i: int,
) -> Result<(u32, BinaryDataArrayListModel), DecodeError> {
    match index_entry_spec(index, i) {
        Err(e) => Err(e),
        Ok(entry) => match slice_spec(x, entry.4, entry.0, entry.2) {
            Err(e) => Err(e),
            Ok(xb) => match slice_spec(y, entry.5, entry.1, entry.3) {
                Err(e) => Err(e),
                Ok(yb) => match array_of(xb, x_fmt) {
                    Err(e) => Err(e),
                    Ok(xa) => match array_of(yb, y_fmt) {
                        Err(e) => Err(e),
                        Ok(ya) => Ok(
                            (
                                entry.2,
                                array_pair(
                                    array_model(x_axis, x_fmt, entry.2, xa, table),
                                    array_model(ACC_INTENSITY_ARRAY, y_fmt, entry.3, ya, table),
                                ),
                            ),
                        ),
                    },
                },
            },
        },
    }
}

/// Decodes the two arrays of item `i`.
fn decode_item_arrays(
    index: &[u8],
    x: &mut Container<'_>,
    y: &mut Container<'_>,
    x_fmt: u8,
    y_fmt: u8,
    x_axis: u32,
    table: &CvTable,
    i: usize,
) -> (r: Result<(u32, BinaryDataArrayList), DecodeError>)
    requires
        old(x).wf(),
        old(y).wf(),
    ensures
        final(x).wf(),
        final(y).wf(),
        final(x).model() == old(x).model(),
        final(y).model() == old(y).model(),
        match r {
            Ok(v) => item_arrays(
                index@,
                old(x).model(),
                old(y).model(),
                x_fmt,
                y_fmt,
                x_axis,
                table@,
                i as int,
            ) == Ok::<(u32, BinaryDataArrayListModel), DecodeError>((v.0, v.1.deep_view())),
            Err(e) => item_arrays(
                index@,
                old(x).model(),
                old(y).model(),
                x_fmt,
                y_fmt,
                x_axis,
                table@,
                i as int,
            ) == Err::<(u32, BinaryDataArrayListModel), DecodeError>(e),
        },
{
    let entry = match read_index_entry_with_blocks(index, i) {
        Ok(v) => v,
        Err(e) => {
            return Err(e);
        },
    };
    let xb = match x.slice_elems(entry.4, entry.0, entry.2) {
        Ok(v) => v,
        Err(e) => {
            return Err(e);
        },
    };
    let yb = match y.slice_elems(entry.5, entry.1, entry.3) {
        Ok(v) => v,
        Err(e) => {
            return Err(e);
        },
    };
    let xa = match decode_array_by_fmt_from_bytes(xb, x_fmt) {
        Ok(v) => v,
        Err(e) => {
            return Err(e);
        },
    };
    let ya = match decode_array_by_fmt_from_bytes(yb, y_fmt) {
        Ok(v) => v,
        Err(e) => {
            return Err(e);
        },
    };
    let xm = make_array(x_axis, x_fmt, entry.2, xa, table);
    let ym = make_array(ACC_INTENSITY_ARRAY, y_fmt, entry.3, ya, table);
    let mut arrays: Vec<BinaryDataArray> = Vec::new();
    arrays.push(xm);
    arrays.push(ym);
    let list = BinaryDataArrayList { count: Some(2), binary_data_arrays: arrays };
    assert(list.deep_view() =~~= array_pair(xm.deep_view(), ym.deep_view()));
    Ok((entry.2, list))
}

/// The spectrum number `i` of a file that holds no attributes: it is
/// named after its number.  The parameters that describe arrays are
/// dropped, and those that describe a precursor move into its precursor
/// list.
pub open spec fn plain_spectrum(
    i: int,
    params: Seq<CvParamModel>,
    x_len: u32,
    arrays: BinaryDataArrayListModel,
) -> SpectrumModel {
    let kept = params.filter(keep_pred());
    SpectrumModel {
        id: item_id(spectrum_word(), i as nat),
        index: Some(i as u32),
        default_array_length: Some(x_len as usize),
        cv_params: kept.filter(rest_pred()),
        precursor_list: inferred_precursors(kept),
        binary_data_array_list: Some(arrays),
        ..SpectrumModel::empty()
    }
}

/// The precursor list with the reference to the spectrum that its one
/// precursor was taken from.
pub open spec fn with_spectrum_ref(pl: Option<PrecursorListModel>, r: Option<Seq<char>>) -> Option<
    PrecursorListModel,
> {
    match pl {
        Some(l) => if l.precursors.len() == 1 {
            Some(
                PrecursorListModel {
                    precursors: seq![PrecursorModel { spectrum_ref: r, ..l.precursors[0] }],
                    ..l
                },
            )
        } else {
            Some(l)
        },
        None => None,
    }
}

/// The spectrum number `i` with the given parameters and arrays.
///
/// Where the parameters start with the records of attributes, the
/// spectrum has the id, the index, the scan number, the native id, the
/// references, the spot id and the MS level that they carry, and the
/// free-form entries that follow them; its precursor refers to the
/// spectrum that they name.  The parameters behind them are its terms:
/// those that describe arrays are dropped, and those that describe a
/// precursor move into its precursor list.  Parameters without such a
/// front are all terms, and the spectrum is named after its number.
#[verifier::opaque]
pub open spec fn spectrum_model(
    i: int,
    params: Seq<CvParamModel>,
    x_len: u32,
    arrays: BinaryDataArrayListModel,
) -> SpectrumModel {
    if is_front(params) {
        let a = attrs_of(params);
        let base = plain_spectrum(i, behind_front(params), x_len, arrays);
        SpectrumModel {
            id: a.id,
            index: a.index,
            scan_number: a.scan_number,
            native_id: a.native_id,
            data_processing_ref: a.data_processing_ref,
            source_file_ref: a.source_file_ref,
            spot_id: a.spot_id,
            ms_level: a.ms_level,
            user_params: users_of(params),
            precursor_list: with_spectrum_ref(base.precursor_list, a.spectrum_ref),
            ..base
        }
    } else {
        plain_spectrum(i, params, x_len, arrays)
    }
}

/// The chromatogram number `i` of a file that holds no attributes: it is
/// named after its number.  The parameters that describe arrays are
/// dropped.
pub open spec fn plain_chromatogram(
    i: int,
    params: Seq<CvParamModel>,
    x_len: u32,
    arrays: BinaryDataArrayListModel,
) -> ChromatogramModel {
    ChromatogramModel {
        id: item_id(chromatogram_word(), i as nat),
        index: Some(i as u32),
        default_array_length: Some(x_len as usize),
        cv_params: params.filter(keep_pred()),
        binary_data_array_list: Some(arrays),
        ..ChromatogramModel::empty()
    }
}

/// The chromatogram number `i` with the given parameters and arrays.
///
/// Where the parameters start with the records of attributes, the
/// chromatogram has the id, the index, the native id and the data
/// processing reference that they carry, and the free-form entries that
/// follow them.  The parameters behind them are its terms, of which
/// those that describe arrays are dropped.  Parameters without such a
/// front are all terms, and the chromatogram is named after its number.
#[verifier::opaque]
pub open spec fn chromatogram_model(
    i: int,
    params: Seq<CvParamModel>,
    x_len: u32,
    arrays: BinaryDataArrayListModel,
) -> ChromatogramModel {
    if is_front(params) {
        let a = attrs_of(params);
        let base = plain_chromatogram(i, behind_front(params), x_len, arrays);
        ChromatogramModel {
            id: a.id,
            index: a.index,
            native_id: a.native_id,
            data_processing_ref: a.data_processing_ref,
            user_params: users_of(params),
            ..base
        }
    } else {
        plain_chromatogram(i, params, x_len, arrays)
    }
}

/// All that the parts of a file hold, before the items are put together.
pub struct Parts {
    pub header: Header,
    pub spec_index: Seq<u8>,
    pub chrom_index: Seq<u8>,
    pub spect_x: ContainerModel,
    pub spect_y: ContainerModel,
    pub chrom_x: ContainerModel,
    pub chrom_y: ContainerModel,
    pub spec_params: Seq<Seq<CvParamModel>>,
    pub chrom_params: Seq<Seq<CvParamModel>>,
    pub global: GlobalSectionsModel,
}

/// The first `n` spectra; the first that cannot be read decides the error.
pub open spec fn spectra_spec(p: Parts, table: Map<Seq<u8>, Seq<char>>, n: int) -> Result<
    Seq<SpectrumModel>,
    DecodeError,
>
    decreases n,
{
    if n <= 0 {
        Ok(Seq::empty())
    } else {
        match spectra_spec(p, table, n - 1) {
            Err(e) => Err(e),
            Ok(done) => match item_arrays(
                p.spec_index,
                p.spect_x,
                p.spect_y,
                p.header.spect_x_fmt,
                p.header.spect_y_fmt,
                ACC_MZ_ARRAY,
                table,
                n - 1,
            ) {
                Err(e) => Err(e),
                Ok(a) => Ok(done.push(spectrum_model(n - 1, p.spec_params[n - 1], a.0, a.1))),
            },
        }
    }
}

/// The first `n` chromatograms; the first that cannot be read decides the
/// error.
pub open spec fn chromatograms_spec(p: Parts, table: Map<Seq<u8>, Seq<char>>, n: int) -> Result<
    Seq<ChromatogramModel>,
    DecodeError,
>
    decreases n,
{
    if n <= 0 {
        Ok(Seq::empty())
    } else {
        match chromatograms_spec(p, table, n - 1) {
            Err(e) => Err(e),
            Ok(done) => match item_arrays(
                p.chrom_index,
                p.chrom_x,
                p.chrom_y,
                p.header.chrom_x_fmt,
                p.header.chrom_y_fmt,
                ACC_TIME_ARRAY,
                table,
                n - 1,
            ) {
                Err(e) => Err(e),
                Ok(a) => Ok(
                    done.push(chromatogram_model(n - 1, p.chrom_params[n - 1], a.0, a.1)),
                ),
            },
        }
    }
}

/// Once the first `mid` spectra cannot be read, neither can the first `n`.
proof fn lemma_spectra_fail(p: Parts, table: Map<Seq<u8>, Seq<char>>, mid: int, n: int)
    requires
        0 <= mid <= n,
        spectra_spec(p, table, mid) is Err,
    ensures
        spectra_spec(p, table, n) == spectra_spec(p, table, mid),
    decreases n - mid,
{
    if mid < n {
        lemma_spectra_fail(p, table, mid, n - 1);
    }
}

/// Once the first `mid` chromatograms cannot be read, neither can the
/// first `n`.
proof fn lemma_chromatograms_fail(p: Parts, table: Map<Seq<u8>, Seq<char>>, mid: int, n: int)
    requires
        0 <= mid <= n,
        chromatograms_spec(p, table, mid) is Err,
    ensures
        chromatograms_spec(p, table, n) == chromatograms_spec(p, table, mid),
    decreases n - mid,
{
    if mid < n {
        lemma_chromatograms_fail(p, table, mid, n - 1);
    }
}

/// The document that the parts of a file make up where the file
/// carries no document tree: the global sections, and a run named `run`
/// with the items.
pub open spec fn plain_document(
    p: Parts,
    spectra: Seq<SpectrumModel>,
    chromatograms: Seq<ChromatogramModel>,
) -> MzMLModel {
    MzMLModel {
        cv_list: p.global.cv_list,
        file_description: p.global.file_description,
        referenceable_param_group_list: p.global.referenceable_param_group_list,
        sample_list: p.global.sample_list,
        instrument_list: p.global.instrument_list,
        software_list: p.global.software_list,
        data_processing_list: p.global.data_processing_list,
        scan_settings_list: p.global.scan_settings_list,
        run: RunModel {
            id: decode_utf8(run_word()),
            spectrum_list: Some(
                SpectrumListModel {
                    count: Some(p.header.spectrum_count as usize),
                    default_data_processing_ref: None,
                    spectra,
                },
            ),
            chromatogram_list: Some(
                ChromatogramListModel {
                    count: Some(p.header.chrom_count as usize),
                    default_data_processing_ref: None,
                    chromatograms,
                },
            ),
            ..RunModel::empty()
        },
    }
}

/// The document that the parts of a file make up.
///
/// Where the parameters of the file content start with a document tree
/// that has as many spectra and chromatograms as the file has items,
/// the document is the one that the tree spells, with the elements that
/// were decoded for each item in its X array and its Y array.  Any
/// other file gives the global sections and a run named `run` with the
/// items as they were decoded.
pub open spec fn document_of(
    p: Parts,
    spectra: Seq<SpectrumModel>,
    chromatograms: Seq<ChromatogramModel>,
) -> MzMLModel {
    match carried_document(p.global.file_description.file_content.cv_params) {
        Some(d) => if counts_match(d, spectra, chromatograms) {
            restored(d, spectra, chromatograms)
        } else {
            plain_document(p, spectra, chromatograms)
        },
        None => plain_document(p, spectra, chromatograms),
    }
}

/// The parts of the file `b`.
///
/// After the header and the regions, the three metadata regions are
/// decompressed where their flag is set, the four containers are opened,
/// and the three metadata blocks are decoded, in this order.
pub open spec fn parts_spec(b: Seq<u8>, table: Map<Seq<u8>, Seq<char>>) -> Result<
    Parts,
    DecodeError,
> {
    match header_spec(b) {
        Err(e) => Err(e),
        Ok(h) => match regions_spec(b, h) {
            Err(e) => Err(e),
            Ok(g) => parts_of(b, h, g, table),
        },
    }
}

/// The metadata regions in plain bytes and the four containers.
pub struct Opened {
    pub spec_meta: Seq<u8>,
    pub chrom_meta: Seq<u8>,
    pub global_meta: Seq<u8>,
    pub spect_x: ContainerModel,
    pub spect_y: ContainerModel,
    pub chrom_x: ContainerModel,
    pub chrom_y: ContainerModel,
}

/// What decompressing the metadata regions and opening the containers
/// of the file `b` gives.
pub open spec fn opened_spec(b: Seq<u8>, h: Header, g: RegionsModel) -> Result<
    Opened,
    DecodeError,
> {
    let codec = h.spec_codec();
    let sm = meta_plain(codec, h.spec_has_flag(HDR_FLAG_SPEC_META_COMP), g.spec_meta);
    let cm = meta_plain(codec, h.spec_has_flag(HDR_FLAG_CHROM_META_COMP), g.chrom_meta);
    let gm = meta_plain(codec, h.spec_has_flag(HDR_FLAG_GLOBAL_META_COMP), g.global_meta);
    let x = container_model(
        b,
        h.off_container_spect_x as int,
        h.size_container_spect_x as int,
        h.block_count_spect_x,
        codec,
        h.compression_level,
        g.spect_x_elem,
        h.array_filter,
    );
    let y = container_model(
        b,
        h.off_container_spect_y as int,
        h.size_container_spect_y as int,
        h.block_count_spect_y,
        codec,
        h.compression_level,
        g.spect_y_elem,
        h.array_filter,
    );
    let cx = container_model(
        b,
        h.off_container_chrom_x as int,
        h.size_container_chrom_x as int,
        h.block_count_chrom_x,
        codec,
        h.compression_level,
        g.chrom_x_elem,
        h.array_filter,
    );
    let cy = container_model(
        b,
        h.off_container_chrom_y as int,
        h.size_container_chrom_y as int,
        h.block_count_chrom_y,
        codec,
        h.compression_level,
        g.chrom_y_elem,
        h.array_filter,
    );
    if sm is Err {
        Err(sm->Err_0)
    } else if cm is Err {
        Err(cm->Err_0)
    } else if gm is Err {
        Err(gm->Err_0)
    } else if x is Err {
        Err(x->Err_0)
    } else if y is Err {
        Err(y->Err_0)
    } else if cx is Err {
        Err(cx->Err_0)
    } else if cy is Err {
        Err(cy->Err_0)
    } else {
        Ok(
            Opened {
                spec_meta: sm->Ok_0,
                chrom_meta: cm->Ok_0,
                global_meta: gm->Ok_0,
                spect_x: x->Ok_0,
                spect_y: y->Ok_0,
                chrom_x: cx->Ok_0,
                chrom_y: cy->Ok_0,
            },
        )
    }
}

/// What decoding the three metadata blocks gives.
pub open spec fn blocks_spec(
    h: Header,
    g: RegionsModel,
    o: Opened,
    table: Map<Seq<u8>, Seq<char>>,
) -> Result<Parts, DecodeError> {
    let sp = meta_block_spec(
        o.spec_meta,
        (MetaShape {
            item_count: h.spectrum_count,
            meta_count: h.spec_meta_count,
            num_count: h.spec_num_count,
            str_count: h.spec_str_count,
        }),
        table,
    );
    let cp = meta_block_spec(
        o.chrom_meta,
        (MetaShape {
            item_count: h.chrom_count,
            meta_count: h.chrom_meta_count,
            num_count: h.chrom_num_count,
            str_count: h.chrom_str_count,
        }),
        table,
    );
    let gl = global_spec(
        o.global_meta,
        h.global_meta_count,
        h.global_num_count,
        h.global_str_count,
        table,
    );
    if sp is Err {
        Err(sp->Err_0)
    } else if cp is Err {
        Err(cp->Err_0)
    } else if gl is Err {
        Err(gl->Err_0)
    } else {
        Ok(
            Parts {
                header: h,
                spec_index: g.spec_index,
                chrom_index: g.chrom_index,
                spect_x: o.spect_x,
                spect_y: o.spect_y,
                chrom_x: o.chrom_x,
                chrom_y: o.chrom_y,
                spec_params: sp->Ok_0,
                chrom_params: cp->Ok_0,
                global: gl->Ok_0,
            },
        )
    }
}

/// The parts of the file `b` with header `h` and regions `g`.
pub open spec fn parts_of(
    b: Seq<u8>,
    h: Header,
    g: RegionsModel,
    table: Map<Seq<u8>, Seq<char>>,
) -> Result<Parts, DecodeError> {
    match opened_spec(b, h, g) {
        Err(e) => Err(e),
        Ok(o) => blocks_spec(h, g, o, table),
    }
}

/// The document that the bytes of a file hold, or the reason why they
/// hold none.
pub open spec fn decode_spec(b: Seq<u8>, table: Map<Seq<u8>, Seq<char>>) -> Result<
    MzMLModel,
    DecodeError,
> {
    match parts_spec(b, table) {
        Err(e) => Err(e),
        Ok(p) => match spectra_spec(p, table, p.header.spectrum_count as int) {
            Err(e) => Err(e),
            Ok(spectra) => match chromatograms_spec(p, table, p.header.chrom_count as int) {
                Err(e) => Err(e),
                Ok(chromatograms) => Ok(document_of(p, spectra, chromatograms)),
            },
        },
    }
}

/// Makes spectrum number `i` from its terms and arrays.
fn make_plain_spectrum(i: u32, params: Vec<CvParam>, x_len: u32, arrays: BinaryDataArrayList) -> (s:
    Spectrum)
    ensures
        s.deep_view() == plain_spectrum(i as int, params.deep_view(), x_len, arrays.deep_view()),
{
    let word: [u8; 9] = [115, 112, 101, 99, 116, 114, 117, 109, 95];
    assert(word@ =~= spectrum_word());
    let mut rest = params;
    strip_binary_array_cv_params(&mut rest);
    let precursor_list = infer_precursor_list_from_spectrum_cv(&mut rest);
    let mut s = Spectrum::empty();
    s.id = make_item_id(word.as_slice(), i);
    s.index = Some(i);
    s.default_array_length = Some(x_len as usize);
    s.cv_params = rest;
    s.precursor_list = precursor_list;
    s.binary_data_array_list = Some(arrays);
    assert(s.deep_view() =~~= plain_spectrum(
        i as int,
        params.deep_view(),
        x_len,
        arrays.deep_view(),
    ));
    s
}

/// Gives the one precursor of a list the reference to the spectrum that
/// it was taken from.
fn set_spectrum_ref(pl: Option<PrecursorList>, r: Option<String>) -> (out: Option<PrecursorList>)
    ensures
        out.deep_view() == with_spectrum_ref(pl.deep_view(), r.deep_view()),
{
    match pl {
        None => None,
        Some(l) => {
            let ghost lm = l.deep_view();
            let mut l = l;
            if l.precursors.len() == 1 {
                assert(lm.precursors[0] == l.precursors@[0].deep_view());
                let mut p = match l.precursors.pop() {
                    Some(p) => p,
                    None => Precursor::empty(),
                };
                assert(p.deep_view() == lm.precursors[0]);
                p.spectrum_ref = r;
                l.precursors.push(p);
                assert(l.precursors.deep_view() =~= seq![
                    PrecursorModel { spectrum_ref: r.deep_view(), ..lm.precursors[0] },
                ]);
                assert(l.deep_view() =~~= with_spectrum_ref(Some(lm), r.deep_view()).unwrap());
            }
            Some(l)
        },
    }
}

/// Makes spectrum number `i` from its parameters and arrays.
fn make_spectrum(i: u32, params: Vec<CvParam>, x_len: u32, arrays: BinaryDataArrayList) -> (s:
    Spectrum)
    ensures
        s.deep_view() == spectrum_model(i as int, params.deep_view(), x_len, arrays.deep_view()),
{
    let ghost pm = params.deep_view();
    let ghost am = arrays.deep_view();
    reveal(spectrum_model);
    let (front, terms) = split_front(params);
    let mut s = make_plain_spectrum(i, terms, x_len, arrays);
    match front {
        None => s,
        Some((a, users)) => {
            let ghost base = s.deep_view();
            let mut taken: Option<PrecursorList> = None;
            core::mem::swap(&mut taken, &mut s.precursor_list);
            s.id = a.id;
            s.index = a.index;
            s.scan_number = a.scan_number;
            s.native_id = a.native_id;
            s.data_processing_ref = a.data_processing_ref;
            s.source_file_ref = a.source_file_ref;
            s.spot_id = a.spot_id;
            s.ms_level = a.ms_level;
            s.user_params = users;
            s.precursor_list = set_spectrum_ref(taken, a.spectrum_ref);
            assert(s.deep_view() =~~= spectrum_model(i as int, pm, x_len, am));
            s
        },
    }
}

/// Makes chromatogram number `i` from its terms and arrays.
fn make_plain_chromatogram(
    i: u32,
    params: Vec<CvParam>,
    x_len: u32,
    arrays: BinaryDataArrayList,
) -> (c: Chromatogram)
    ensures
        c.deep_view() == plain_chromatogram(
            i as int,
            params.deep_view(),
            x_len,
            arrays.deep_view(),
        ),
{
    let word: [u8; 13] = [99, 104, 114, 111, 109, 97, 116, 111, 103, 114, 97, 109, 95];
    assert(word@ =~= chromatogram_word());
    let mut rest = params;
    strip_binary_array_cv_params(&mut rest);
    let mut c = Chromatogram::empty();
    c.id = make_item_id(word.as_slice(), i);
    c.index = Some(i);
    c.default_array_length = Some(x_len as usize);
    c.cv_params = rest;
    c.binary_data_array_list = Some(arrays);
    assert(c.deep_view() =~~= plain_chromatogram(
        i as int,
        params.deep_view(),
        x_len,
        arrays.deep_view(),
    ));
    c
}

/// Makes chromatogram number `i` from its parameters and arrays.
fn make_chromatogram(i: u32, params: Vec<CvParam>, x_len: u32, arrays: BinaryDataArrayList) -> (c:
    Chromatogram)
    ensures
        c.deep_view() == chromatogram_model(
            i as int,
            params.deep_view(),
            x_len,
            arrays.deep_view(),
        ),
{
    let ghost pm = params.deep_view();
    let ghost am = arrays.deep_view();
    reveal(chromatogram_model);
    let (front, terms) = split_front(params);
    let mut c = make_plain_chromatogram(i, terms, x_len, arrays);
    match front {
        None => c,
        Some((a, users)) => {
            c.id = a.id;
            c.index = a.index;
            c.native_id = a.native_id;
            c.data_processing_ref = a.data_processing_ref;
            c.user_params = users;
            assert(c.deep_view() =~~= chromatogram_model(i as int, pm, x_len, am));
            c
        },
    }
}

/// Decodes the spectra of a file.
fn decode_spectra(
    index: &[u8],
    x: &mut Container<'_>,
    y: &mut Container<'_>,
    x_fmt: u8,
    y_fmt: u8,
    params: Vec<Vec<CvParam>>,
    table: &CvTable,
    Ghost(p): Ghost<Parts>,
) -> (r: Result<Vec<Spectrum>, DecodeError>)
    requires
        old(x).wf(),
        old(y).wf(),
        x_fmt == p.header.spect_x_fmt,
        y_fmt == p.header.spect_y_fmt,
        p.spec_index == index@,
        p.spect_x == old(x).model(),
        p.spect_y == old(y).model(),
        p.spec_params == params.deep_view(),
        params.len() == p.header.spectrum_count,
    ensures
        match r {
            Ok(v) => spectra_spec(p, table@, p.header.spectrum_count as int) == Ok::<
                Seq<SpectrumModel>,
                DecodeError,
            >(v.deep_view()),
            Err(e) => spectra_spec(p, table@, p.header.spectrum_count as int) == Err::<
                Seq<SpectrumModel>,
                DecodeError,
            >(e),
        },
{
    let mut params = params;
    let n: usize = params.len();
    let mut out: Vec<Spectrum> = Vec::with_capacity(n);
    assert(out.deep_view() =~= Seq::<SpectrumModel>::empty());
    let mut i: u32 = 0;
    while (i as usize) < n
        invariant
            x.wf(),
            y.wf(),
            x_fmt == p.header.spect_x_fmt,
            y_fmt == p.header.spect_y_fmt,
            p.spec_index == index@,
            p.spect_x == x.model(),
            p.spect_y == y.model(),
            n == params.len(),
            n == p.header.spectrum_count,
            i <= n,
            crate::global::untouched(params@, p.spec_params, i as int),
            spectra_spec(p, table@, i as int) == Ok::<Seq<SpectrumModel>, DecodeError>(
                out.deep_view(),
            ),
        decreases n - i,
    {
        let (x_len, arrays) = match decode_item_arrays(
            index,
            x,
            y,
            x_fmt,
            y_fmt,
            ACC_MZ_ARRAY,
            table,
            i as usize,
        ) {
            Ok(v) => v,
            Err(e) => {
                proof {
                    lemma_spectra_fail(p, table@, i as int + 1, n as int);
                }
                return Err(e);
            },
        };
        let item = take_params(&mut params, i as usize);
        let s = make_spectrum(i, item, x_len, arrays);
        let ghost before = out;
        out.push(s);
        proof {
            lemma_deep_view_push(before, out, s);
        }
        i = i + 1;
    }
    Ok(out)
}

/// Decodes the chromatograms of a file.
fn decode_chromatograms(
    index: &[u8],
    x: &mut Container<'_>,
    y: &mut Container<'_>,
    x_fmt: u8,
    y_fmt: u8,
    params: Vec<Vec<CvParam>>,
    table: &CvTable,
    Ghost(p): Ghost<Parts>,
) -> (r: Result<Vec<Chromatogram>, DecodeError>)
    requires
        old(x).wf(),
        old(y).wf(),
        x_fmt == p.header.chrom_x_fmt,
        y_fmt == p.header.chrom_y_fmt,
        p.chrom_index == index@,
        p.chrom_x == old(x).model(),
        p.chrom_y == old(y).model(),
        p.chrom_params == params.deep_view(),
        params.len() == p.header.chrom_count,
    ensures
        match r {
            Ok(v) => chromatograms_spec(p, table@, p.header.chrom_count as int) == Ok::<
                Seq<ChromatogramModel>,
                DecodeError,
            >(v.deep_view()),
            Err(e) => chromatograms_spec(p, table@, p.header.chrom_count as int) == Err::<
                Seq<ChromatogramModel>,
                DecodeError,
            >(e),
        },
{
    let mut params = params;
    let n: usize = params.len();
    let mut out: Vec<Chromatogram> = Vec::with_capacity(n);
    assert(out.deep_view() =~= Seq::<ChromatogramModel>::empty());
    let mut i: u32 = 0;
    while (i as usize) < n
        invariant
            x.wf(),
            y.wf(),
            x_fmt == p.header.chrom_x_fmt,
            y_fmt == p.header.chrom_y_fmt,
            p.chrom_index == index@,
            p.chrom_x == x.model(),
            p.chrom_y == y.model(),
            n == params.len(),
            n == p.header.chrom_count,
            i <= n,
            crate::global::untouched(params@, p.chrom_params, i as int),
            chromatograms_spec(p, table@, i as int) == Ok::<Seq<ChromatogramModel>, DecodeError>(
                out.deep_view(),
            ),
        decreases n - i,
    {
        let (x_len, arrays) = match decode_item_arrays(
            index,
            x,
            y,
            x_fmt,
            y_fmt,
            ACC_TIME_ARRAY,
            table,
            i as usize,
        ) {
            Ok(v) => v,
            Err(e) => {
                proof {
                    lemma_chromatograms_fail(p, table@, i as int + 1, n as int);
                }
                return Err(e);
            },
        };
        let item = take_params(&mut params, i as usize);
        let c = make_chromatogram(i, item, x_len, arrays);
        let ghost before = out;
        out.push(c);
        proof {
            lemma_deep_view_push(before, out, c);
        }
        i = i + 1;
    }
    Ok(out)
}

/// The metadata regions in plain bytes and the four opened containers.
pub struct OpenedParts<'a> {
    pub spec_meta: BytesMaybeOwned<'a>,
    pub chrom_meta: BytesMaybeOwned<'a>,
    pub global_meta: BytesMaybeOwned<'a>,
    pub spect_x: Container<'a>,
    pub spect_y: Container<'a>,
    pub chrom_x: Container<'a>,
    pub chrom_y: Container<'a>,
}

impl<'a> OpenedParts<'a> {
    /// The parts as mathematical values.
    pub open spec fn model(&self) -> Opened {
        Opened {
            spec_meta: self.spec_meta.bytes(),
            chrom_meta: self.chrom_meta.bytes(),
            global_meta: self.global_meta.bytes(),
            spect_x: self.spect_x.model(),
            spect_y: self.spect_y.model(),
            chrom_x: self.chrom_x.model(),
            chrom_y: self.chrom_y.model(),
        }
    }

    /// Whether the four containers are well formed.
    pub open spec fn wf(&self) -> bool {
        self.spect_x.wf() && self.spect_y.wf() && self.chrom_x.wf() && self.chrom_y.wf()
    }
}

/// Decompresses the metadata regions and opens the containers.
pub fn open_parts<'a>(bytes: &'a [u8], h: &Header, g: &FileRegions<'a>) -> (r: Result<
    OpenedParts<'a>,
    DecodeError,
>)
    ensures
        match r {
            Ok(o) => o.wf() && opened_spec(bytes@, *h, g.model()) == Ok::<Opened, DecodeError>(
                o.model(),
            ),
            Err(e) => opened_spec(bytes@, *h, g.model()) == Err::<Opened, DecodeError>(e),
        },
{
    let codec = h.codec();
    let spec_meta = match decompress_meta_if_needed(
        codec,
        h.has_flag(HDR_FLAG_SPEC_META_COMP),
        g.spec_meta,
    ) {
        Ok(v) => v,
        Err(e) => {
            return Err(e);
        },
    };
    let chrom_meta = match decompress_meta_if_needed(
        codec,
        h.has_flag(HDR_FLAG_CHROM_META_COMP),
        g.chrom_meta,
    ) {
        Ok(v) => v,
        Err(e) => {
            return Err(e);
        },
    };
    let global_meta = match decompress_meta_if_needed(
        codec,
        h.has_flag(HDR_FLAG_GLOBAL_META_COMP),
        g.global_meta,
    ) {
        Ok(v) => v,
        Err(e) => {
            return Err(e);
        },
    };
    let spect_x = match open_container(
        bytes,
        h.off_container_spect_x,
        h.size_container_spect_x,
        h.block_count_spect_x,
        codec,
        h.compression_level,
        g.spect_x_elem,
        h.array_filter,
    ) {
        Ok(v) => v,
        Err(e) => {
            return Err(e);
        },
    };
    let spect_y = match open_container(
        bytes,
        h.off_container_spect_y,
        h.size_container_spect_y,
        h.block_count_spect_y,
        codec,
        h.compression_level,
        g.spect_y_elem,
        h.array_filter,
    ) {
        Ok(v) => v,
        Err(e) => {
            return Err(e);
        },
    };
    let chrom_x = match open_container(
        bytes,
        h.off_container_chrom_x,
        h.size_container_chrom_x,
        h.block_count_chrom_x,
        codec,
        h.compression_level,
        g.chrom_x_elem,
        h.array_filter,
    ) {
        Ok(v) => v,
        Err(e) => {
            return Err(e);
        },
    };
    let chrom_y = match open_container(
        bytes,
        h.off_container_chrom_y,
        h.size_container_chrom_y,
        h.block_count_chrom_y,
        codec,
        h.compression_level,
        g.chrom_y_elem,
        h.array_filter,
    ) {
        Ok(v) => v,
        Err(e) => {
            return Err(e);
        },
    };
    Ok(OpenedParts { spec_meta, chrom_meta, global_meta, spect_x, spect_y, chrom_x, chrom_y })
}

/// Puts the document together from the sections and the items.
fn assemble_plain(
    h: &Header,
    global: crate::global::GlobalSections,
    spectra: Vec<Spectrum>,
    chromatograms: Vec<Chromatogram>,
    Ghost(p): Ghost<Parts>,
) -> (d: MzML)
    requires
        p.header == *h,
        p.global == global.deep_view(),
    ensures
        d.deep_view() == plain_document(p, spectra.deep_view(), chromatograms.deep_view()),
{
    let word: [u8; 3] = [114, 117, 110];
    assert(word@ =~= run_word());
    let mut run = Run::empty();
    run.id = make_item_word(word.as_slice());
    run.spectrum_list = Some(
        SpectrumList {
            count: Some(h.spectrum_count as usize),
            default_data_processing_ref: None,
            spectra,
        },
    );
    run.chromatogram_list = Some(
        ChromatogramList {
            count: Some(h.chrom_count as usize),
            default_data_processing_ref: None,
            chromatograms,
        },
    );
    let d = MzML {
        cv_list: global.cv_list,
        file_description: global.file_description,
        referenceable_param_group_list: global.referenceable_param_group_list,
        sample_list: global.sample_list,
        instrument_list: global.instrument_list,
        software_list: global.software_list,
        data_processing_list: global.data_processing_list,
        scan_settings_list: global.scan_settings_list,
        run,
    };
    assert(d.deep_view() =~~= plain_document(p, spectra.deep_view(), chromatograms.deep_view()));
    d
}

/// Puts the document together: from its tree where the file carries
/// one, else from the sections and the items.
fn assemble_document(
    h: &Header,
    global: crate::global::GlobalSections,
    spectra: Vec<Spectrum>,
    chromatograms: Vec<Chromatogram>,
    Ghost(p): Ghost<Parts>,
) -> (d: MzML)
    requires
        p.header == *h,
        p.global == global.deep_view(),
    ensures
        d.deep_view() == document_of(p, spectra.deep_view(), chromatograms.deep_view()),
{
    match read_carried(&global.file_description.file_content.cv_params) {
        Some(doc) => {
            let ns = match &doc.run.spectrum_list {
                Some(l) => l.spectra.len(),
                None => 0,
            };
            let nc = match &doc.run.chromatogram_list {
                Some(l) => l.chromatograms.len(),
                None => 0,
            };
            proof {
                if doc.run.spectrum_list is Some {
                    let l = doc.run.spectrum_list->Some_0;
                    assert(l.spectra.deep_view().len() == l.spectra@.len());
                }
                if doc.run.chromatogram_list is Some {
                    let l = doc.run.chromatogram_list->Some_0;
                    assert(l.chromatograms.deep_view().len() == l.chromatograms@.len());
                }
                assert(spectra.deep_view().len() == spectra@.len());
                assert(chromatograms.deep_view().len() == chromatograms@.len());
            }
            if ns == spectra.len() && nc == chromatograms.len() {
                restore(doc, spectra, chromatograms)
            } else {
                assemble_plain(h, global, spectra, chromatograms, Ghost(p))
            }
        },
        None => assemble_plain(h, global, spectra, chromatograms, Ghost(p)),
    }
}

/// Decodes the items of a file whose regions are opened.
fn decode_opened(h: &Header, g: &FileRegions<'_>, o: OpenedParts<'_>, table: &CvTable) -> (r:
    Result<MzML, DecodeError>)
    requires
        o.wf(),
    ensures
        match r {
            Ok(d) => match blocks_spec(*h, g.model(), o.model(), table@) {
                Err(_) => false,
                Ok(p) => match spectra_spec(p, table@, h.spectrum_count as int) {
                    Err(_) => false,
                    Ok(s) => match chromatograms_spec(p, table@, h.chrom_count as int) {
                        Err(_) => false,
                        Ok(c) => d.deep_view() == document_of(p, s, c),
                    },
                },
            },
            Err(e) => match blocks_spec(*h, g.model(), o.model(), table@) {
                Err(e1) => e == e1,
                Ok(p) => match spectra_spec(p, table@, h.spectrum_count as int) {
                    Err(e2) => e == e2,
                    Ok(s) => chromatograms_spec(p, table@, h.chrom_count as int) == Err::<
                        Seq<ChromatogramModel>,
                        DecodeError,
                    >(e),
                },
            },
        },
{
    let mut o = o;
    let spec_params = match decode_meta_block(
        o.spec_meta.as_slice(),
        h.spectrum_count,
        h.spec_meta_count,
        h.spec_num_count,
        h.spec_str_count,
        table,
    ) {
        Ok(v) => v,
        Err(e) => {
            return Err(e);
        },
    };
    let chrom_params = match decode_meta_block(
        o.chrom_meta.as_slice(),
        h.chrom_count,
        h.chrom_meta_count,
        h.chrom_num_count,
        h.chrom_str_count,
        table,
    ) {
        Ok(v) => v,
        Err(e) => {
            return Err(e);
        },
    };
    let global = match decode_global_meta_structs(
        o.global_meta.as_slice(),
        h.global_meta_count,
        h.global_num_count,
        h.global_str_count,
        table,
    ) {
        Ok(v) => v,
        Err(e) => {
            return Err(e);
        },
    };
    let ghost p = Parts {
        header: *h,
        spec_index: g.spec_index@,
        chrom_index: g.chrom_index@,
        spect_x: o.spect_x.model(),
        spect_y: o.spect_y.model(),
        chrom_x: o.chrom_x.model(),
        chrom_y: o.chrom_y.model(),
        spec_params: spec_params.deep_view(),
        chrom_params: chrom_params.deep_view(),
        global: global.deep_view(),
    };
    proof {
        crate::global::lemma_items_len(
            o.spec_meta.bytes(),
            (MetaShape {
                item_count: h.spectrum_count,
                meta_count: h.spec_meta_count,
                num_count: h.spec_num_count,
                str_count: h.spec_str_count,
            }),
            table@,
        );
        crate::global::lemma_items_len(
            o.chrom_meta.bytes(),
            (MetaShape {
                item_count: h.chrom_count,
                meta_count: h.chrom_meta_count,
                num_count: h.chrom_num_count,
                str_count: h.chrom_str_count,
            }),
            table@,
        );
        assert(blocks_spec(*h, g.model(), o.model(), table@) == Ok::<Parts, DecodeError>(p));
    }
    let spectra = match decode_spectra(
        g.spec_index,
        &mut o.spect_x,
        &mut o.spect_y,
        h.spect_x_fmt,
        h.spect_y_fmt,
        spec_params,
        table,
        Ghost(p),
    ) {
        Ok(v) => v,
        Err(e) => {
            return Err(e);
        },
    };
    let chromatograms = match decode_chromatograms(
        g.chrom_index,
        &mut o.chrom_x,
        &mut o.chrom_y,
        h.chrom_x_fmt,
        h.chrom_y_fmt,
        chrom_params,
        table,
        Ghost(p),
    ) {
        Ok(v) => v,
        Err(e) => {
            return Err(e);
        },
    };
    Ok(assemble_document(h, global, spectra, chromatograms, Ghost(p)))
}

/// Decodes the bytes of a file into the document they hold.
///
/// Display names of terms are taken from `table`.  Numbers are kept as bit
/// patterns, both in parameter values and in the arrays.  Where the file
/// carries the tree of its document, the document is rebuilt from the
/// tree, and every spectrum and chromatogram gets the elements of its X
/// array and its Y array from the containers.  In any other file an
/// item whose parameters start with the records of attributes gets its
/// id, its attributes and its free-form entries from them, and any
/// other item is named after its number.  A failure leaves nothing
/// behind but its cause.
pub fn decode(bytes: &[u8], table: &CvTable) -> (r: Result<MzML, DecodeError>)
    ensures
        match r {
            Ok(d) => decode_spec(bytes@, table@) == Ok::<MzMLModel, DecodeError>(d.deep_view()),
            Err(e) => decode_spec(bytes@, table@) == Err::<MzMLModel, DecodeError>(e),
        },
{
    let h = match parse_header(bytes) {
        Ok(v) => v,
        Err(e) => {
            return Err(e);
        },
    };
    let g = match locate_regions(bytes, &h) {
        Ok(v) => v,
        Err(e) => {
            return Err(e);
        },
    };
    let o = match open_parts(bytes, &h, &g) {
        Ok(v) => v,
        Err(e) => {
            return Err(e);
        },
    };
    decode_opened(&h, &g, o, table)
}

/// Makes a string from a word of ASCII bytes.
fn make_item_word(word: &[u8]) -> (id: String)
    requires
        all_ascii(word@),
    ensures
        id@ == decode_utf8(word@),
{
    let mut out: Vec<u8> = Vec::new();
    out.extend_from_slice(word);
    assert(out@ =~= word@);
    ascii_text(out)
}

/// Decoding is a function of the bytes and the table: whatever two runs
/// of the decoder return for the same input is the same document, or the
/// same cause of failure.
pub proof fn lemma_decode_is_deterministic(
    bytes: Seq<u8>,
    table: Map<Seq<u8>, Seq<char>>,
    first: Result<MzMLModel, DecodeError>,
    second: Result<MzMLModel, DecodeError>,
)
    requires
        first == decode_spec(bytes, table),
        second == decode_spec(bytes, table),
    ensures
        first == second,
{
}

} // verus!
