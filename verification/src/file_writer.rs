//! Writing a whole file from what it is to hold: the parameters and the
//! arrays of every item, and the parameters of the global sections.

use vstd::prelude::*;
use crate::bytes::{push_u32_le, push_u64_le, u32_le_bytes, u32s_le_bytes, u32s_to_le, u64_le_bytes};
use crate::codec::{compress_block, HDR_CODEC_ZSTD, zstd_block_compressed};
use crate::container_writer::{container_bytes, store_blocks, store_error, stored_blocks};
use crate::error::EncodeError;
use crate::global::GlobalCounts;
use crate::header::{
    ARRAY_FILTER_BYTE_SHUFFLE, ARRAY_FILTER_NONE, FMT_F32, FMT_F64, Header, HEADER_SIZE,
};
use crate::header_writer::{header_bytes, write_header};
use crate::meta_encode::{columns_of, encode_meta_block, meta_too_large};
use crate::meta_writer::joined;
use crate::packing::{
    BLOCK_THRESHOLD, blocks_of, entries_of, pack_arrays, pack_error, packed, vecs_view,
};
use crate::params::{CvParam, CvParamModel};

verus! {

/// What a file is to hold.
pub struct FlatFile {
    /// The parameters of each spectrum.
    pub spec_params: Vec<Vec<CvParam>>,
    /// The bytes of the X array of each spectrum.
    pub spec_x: Vec<Vec<u8>>,
    /// The bytes of the Y array of each spectrum.
    pub spec_y: Vec<Vec<u8>>,
    /// The parameters of each chromatogram.
    pub chrom_params: Vec<Vec<CvParam>>,
    /// The bytes of the X array of each chromatogram.
    pub chrom_x: Vec<Vec<u8>>,
    /// The bytes of the Y array of each chromatogram.
    pub chrom_y: Vec<Vec<u8>>,
    /// How many elements each global section holds.
    pub counts: GlobalCounts,
    /// The parameters of the elements of the global sections, in order.
    pub global_items: Vec<Vec<CvParam>>,
    /// The element format of all arrays: 1 for 32 bits, 2 for 64 bits.
    pub fmt: u8,
}

/// What a file is to hold, as mathematical values.
pub struct FlatModel {
    pub spec_params: Seq<Seq<CvParamModel>>,
    pub spec_x: Seq<Seq<u8>>,
    pub spec_y: Seq<Seq<u8>>,
    pub chrom_params: Seq<Seq<CvParamModel>>,
    pub chrom_x: Seq<Seq<u8>>,
    pub chrom_y: Seq<Seq<u8>>,
    pub counts: GlobalCounts,
    pub global_items: Seq<Seq<CvParamModel>>,
    pub fmt: u8,
}

impl View for FlatFile {
    type V = FlatModel;

    open spec fn view(&self) -> FlatModel {
        FlatModel {
            spec_params: self.spec_params.deep_view(),
            spec_x: vecs_view(self.spec_x@),
            spec_y: vecs_view(self.spec_y@),
            chrom_params: self.chrom_params.deep_view(),
            chrom_x: vecs_view(self.chrom_x@),
            chrom_y: vecs_view(self.chrom_y@),
            counts: self.counts,
            global_items: self.global_items.deep_view(),
            fmt: self.fmt,
        }
    }
}

/// The element size of an element format.
pub open spec fn elem_of(fmt: u8) -> usize {
    if fmt == FMT_F32 {
        4
    } else {
        8
    }
}

/// The array filter that goes with a compression level: the byte-shuffle
/// filter wherever blocks are compressed.
pub open spec fn filter_of(level: u8) -> u8 {
    if level == 0 {
        ARRAY_FILTER_NONE
    } else {
        ARRAY_FILTER_BYTE_SHUFFLE
    }
}

/// The codec flags that go with a compression level: zstd, and all three
/// metadata blocks compressed wherever the level is not zero.
pub open spec fn flags_of(level: u8) -> u8 {
    if level == 0 {
        HDR_CODEC_ZSTD
    } else {
        0x71
    }
}

/// The blocks that the arrays are packed into.
pub open spec fn blocks_for(arrays: Seq<Seq<u8>>) -> Seq<Seq<u8>> {
    blocks_of(packed(arrays, BLOCK_THRESHOLD as nat))
}

/// The bytes of the container of the arrays.
pub open spec fn container_piece(arrays: Seq<Seq<u8>>, elem: usize, level: u8) -> Seq<u8> {
    container_bytes(
        blocks_for(arrays),
        stored_blocks(blocks_for(arrays), elem, level, filter_of(level)),
    )
}

/// The bytes of one index entry.
pub open spec fn index_entry_bytes(x: (u64, u32, u32), y: (u64, u32, u32)) -> Seq<u8> {
    u64_le_bytes(x.0) + u64_le_bytes(y.0) + u32_le_bytes(x.1) + u32_le_bytes(y.1) + u32_le_bytes(
        x.2,
    ) + u32_le_bytes(y.2)
}

/// The bytes of the first `n` entries of an index.
pub open spec fn index_piece(xs: Seq<(u64, u32, u32)>, ys: Seq<(u64, u32, u32)>, n: int) -> Seq<u8>
    decreases n,
{
    if n <= 0 {
        Seq::empty()
    } else {
        index_piece(xs, ys, n - 1) + index_entry_bytes(xs[n - 1], ys[n - 1])
    }
}

/// The eight counts in front of the global metadata block.
pub open spec fn counts_bytes(c: GlobalCounts) -> Seq<u8> {
    u32s_le_bytes(seq![c.n_fd, c.n_rpg, c.n_samp, c.n_inst, c.n_soft, c.n_dp, c.n_acq, c.n_cvs])
}

/// The bytes that are stored for a metadata block: the block itself, or
/// what zstd makes of it where the level is not zero.
pub open spec fn meta_stored(plain: Seq<u8>, level: u8) -> Option<Seq<u8>> {
    if level == 0 {
        Some(plain)
    } else {
        zstd_block_compressed(plain, level as i32)
    }
}

/// The nine regions of a file behind its header.
#[verifier::opaque]
pub open spec fn body_pieces(f: FlatModel, level: u8) -> Seq<Seq<u8>> {
    let elem = elem_of(f.fmt);
    seq![
        index_piece(
            entries_of(f.spec_x, elem as int),
            entries_of(f.spec_y, elem as int),
            f.spec_x.len() as int,
        ),
        index_piece(
            entries_of(f.chrom_x, elem as int),
            entries_of(f.chrom_y, elem as int),
            f.chrom_x.len() as int,
        ),
        meta_stored(columns_of(f.spec_params).layout(), level).unwrap(),
        meta_stored(columns_of(f.chrom_params).layout(), level).unwrap(),
        meta_stored(counts_bytes(f.counts) + columns_of(f.global_items).layout(), level).unwrap(),
        container_piece(f.spec_x, elem, level),
        container_piece(f.spec_y, elem, level),
        container_piece(f.chrom_x, elem, level),
        container_piece(f.chrom_y, elem, level),
    ]
}

/// Where region `j` of the body starts in the file.
pub open spec fn body_start(f: FlatModel, level: u8, j: int) -> int {
    HEADER_SIZE + joined(body_pieces(f, level), j).len()
}

/// The offset that the header gives for a container: where it starts, or
/// zero where it holds no block.
pub open spec fn container_off(f: FlatModel, level: u8, j: int, blocks: nat) -> u64 {
    if blocks == 0 {
        0
    } else {
        body_start(f, level, j) as u64
    }
}

/// The header of the file.
#[verifier::opaque]
pub open spec fn file_header(f: FlatModel, level: u8) -> Header {
    let pieces = body_pieces(f, level);
    Header {
        off_spec_index: body_start(f, level, 0) as u64,
        off_chrom_index: body_start(f, level, 1) as u64,
        off_spec_meta: body_start(f, level, 2) as u64,
        off_chrom_meta: body_start(f, level, 3) as u64,
        off_global_meta: body_start(f, level, 4) as u64,
        size_container_spect_x: pieces[5].len() as u64,
        off_container_spect_x: container_off(f, level, 5, blocks_for(f.spec_x).len()),
        size_container_spect_y: pieces[6].len() as u64,
        off_container_spect_y: container_off(f, level, 6, blocks_for(f.spec_y).len()),
        size_container_chrom_x: pieces[7].len() as u64,
        off_container_chrom_x: container_off(f, level, 7, blocks_for(f.chrom_x).len()),
        size_container_chrom_y: pieces[8].len() as u64,
        off_container_chrom_y: container_off(f, level, 8, blocks_for(f.chrom_y).len()),
        spectrum_count: f.spec_x.len() as u32,
        chrom_count: f.chrom_x.len() as u32,
        spec_meta_count: columns_of(f.spec_params).shape().meta_count,
        spec_num_count: columns_of(f.spec_params).shape().num_count,
        spec_str_count: columns_of(f.spec_params).shape().str_count,
        chrom_meta_count: columns_of(f.chrom_params).shape().meta_count,
        chrom_num_count: columns_of(f.chrom_params).shape().num_count,
        chrom_str_count: columns_of(f.chrom_params).shape().str_count,
        global_meta_count: columns_of(f.global_items).shape().meta_count,
        global_num_count: columns_of(f.global_items).shape().num_count,
        global_str_count: columns_of(f.global_items).shape().str_count,
        block_count_spect_x: blocks_for(f.spec_x).len() as u32,
        block_count_spect_y: blocks_for(f.spec_y).len() as u32,
        block_count_chrom_x: blocks_for(f.chrom_x).len() as u32,
        block_count_chrom_y: blocks_for(f.chrom_y).len() as u32,
        codec_flags: flags_of(level),
        chrom_x_fmt: f.fmt,
        chrom_y_fmt: f.fmt,
        spect_x_fmt: f.fmt,
        spect_y_fmt: f.fmt,
        compression_level: level,
        array_filter: filter_of(level),
    }
}

/// The bytes of the file: the header, then the regions of the body.
pub open spec fn file_bytes(f: FlatModel, level: u8) -> Seq<u8> {
    header_bytes(file_header(f, level)) + joined(body_pieces(f, level), 9)
}

/// Why the arrays of one container cannot be written, where they cannot.
pub open spec fn container_error(arrays: Seq<Seq<u8>>, elem: usize, level: u8) -> Option<
    EncodeError,
> {
    match pack_error(arrays, elem) {
        Some(e) => Some(e),
        None => store_error(
            blocks_for(arrays),
            elem,
            level,
            filter_of(level),
            blocks_for(arrays).len() as int,
        ),
    }
}

/// Why a metadata block cannot be written, where it cannot.
pub open spec fn meta_error(items: Seq<Seq<CvParamModel>>) -> Option<EncodeError> {
    if meta_too_large(items) {
        Some(EncodeError::TooLarge)
    } else {
        None
    }
}

/// The first of two optional causes that is there.
pub open spec fn first_error(a: Option<EncodeError>, b: Option<EncodeError>) -> Option<
    EncodeError,
> {
    match a {
        Some(_) => a,
        None => b,
    }
}

/// Whether the parts of the input do not belong together: the format is
/// none, or the lists of parameters and of arrays differ in length, or
/// the global items are not as many as the section counts say, or there
/// are more items than 32 bits count.
pub open spec fn uneven(f: FlatModel) -> bool {
    f.spec_params.len() != f.spec_x.len() || f.spec_x.len() != f.spec_y.len()
        || f.chrom_params.len() != f.chrom_x.len() || f.chrom_x.len() != f.chrom_y.len()
        || f.global_items.len() != f.counts.total() || f.spec_x.len() > u32::MAX
        || f.chrom_x.len() > u32::MAX
}

/// Why the four containers cannot be written, where they cannot.
pub open spec fn containers_error(f: FlatModel, level: u8) -> Option<EncodeError> {
    let elem = elem_of(f.fmt);
    first_error(
        container_error(f.spec_x, elem, level),
        first_error(
            container_error(f.spec_y, elem, level),
            first_error(
                container_error(f.chrom_x, elem, level),
                container_error(f.chrom_y, elem, level),
            ),
        ),
    )
}

/// Why the three metadata blocks cannot be written, where they cannot.
pub open spec fn metas_error(f: FlatModel, level: u8) -> Option<EncodeError> {
    first_error(
        meta_error(f.spec_params),
        first_error(
            meta_error(f.chrom_params),
            first_error(meta_error(f.global_items), codec_error(f, level)),
        ),
    )
}

/// Why the regions of a file cannot be made, where they cannot.  The
/// format and the lengths of the input are checked first, then the four
/// containers, then the three metadata blocks, then what the codec makes
/// of the metadata blocks.
pub open spec fn pieces_error(f: FlatModel, level: u8) -> Option<EncodeError> {
    if f.fmt != FMT_F32 && f.fmt != FMT_F64 {
        Some(EncodeError::BadElementSize)
    } else if uneven(f) {
        Some(EncodeError::UnevenParts)
    } else {
        first_error(containers_error(f, level), metas_error(f, level))
    }
}

/// Why the codec cannot store the metadata blocks, where it cannot.
pub open spec fn codec_error(f: FlatModel, level: u8) -> Option<EncodeError> {
    if meta_stored(columns_of(f.spec_params).layout(), level) is None || meta_stored(
        columns_of(f.chrom_params).layout(),
        level,
    ) is None || meta_stored(
        counts_bytes(f.counts) + columns_of(f.global_items).layout(),
        level,
    ) is None {
        Some(EncodeError::CodecFailed)
    } else {
        None
    }
}

/// Why a file cannot be written, where it cannot: one of its regions
/// cannot be made, or the file would be larger than 64 bits address.
pub open spec fn encode_error(f: FlatModel, level: u8) -> Option<EncodeError> {
    match pieces_error(f, level) {
        Some(e) => Some(e),
        None => if HEADER_SIZE + joined(body_pieces(f, level), 9).len() > u64::MAX {
            Some(EncodeError::TooLarge)
        } else {
            None
        },
    }
}

/// One container and its index entries.
pub struct WrittenContainer {
    pub bytes: Vec<u8>,
    pub block_count: u32,
    pub entries: Vec<(u64, u32, u32)>,
}

/// Packs the arrays of one container and writes it.
pub fn write_container(arrays: &Vec<Vec<u8>>, elem_size: usize, level: u8) -> (r: Result<
    WrittenContainer,
    EncodeError,
>)
    requires
        elem_size > 0,
    ensures
        match r {
            Ok(c) => container_error(vecs_view(arrays@), elem_size, level) is None && c.bytes@
                == container_piece(vecs_view(arrays@), elem_size, level) && c.block_count
                == blocks_for(vecs_view(arrays@)).len() && c.entries@ == entries_of(
                vecs_view(arrays@),
                elem_size as int,
            ),
            Err(e) => container_error(vecs_view(arrays@), elem_size, level) == Some(e),
        },
{
    let packed = match pack_arrays(arrays, elem_size) {
        Ok(p) => p,
        Err(e) => {
            return Err(e);
        },
    };
    let filter = if level == 0 {
        ARRAY_FILTER_NONE
    } else {
        ARRAY_FILTER_BYTE_SHUFFLE
    };
    let bytes = match store_blocks(&packed.blocks, elem_size, level, filter) {
        Ok(b) => b,
        Err(e) => {
            return Err(e);
        },
    };
    let n = packed.blocks.len();
    Ok(WrittenContainer { bytes, block_count: n as u32, entries: packed.entries })
}

/// Writes the index of a list of items from the entries of their X and Y
/// arrays.
pub fn write_index(xs: &Vec<(u64, u32, u32)>, ys: &Vec<(u64, u32, u32)>) -> (out: Vec<u8>)
    requires
        xs@.len() == ys@.len(),
    ensures
        out@ == index_piece(xs@, ys@, xs@.len() as int),
{
    let mut out: Vec<u8> = Vec::new();
    let mut i: usize = 0;
    while i < xs.len()
        invariant
            xs@.len() == ys@.len(),
            i <= xs@.len(),
            out@ == index_piece(xs@, ys@, i as int),
        decreases xs@.len() - i,
    {
        let x = xs[i];
        let y = ys[i];
        let ghost before = out@;
        push_u64_le(&mut out, x.0);
        push_u64_le(&mut out, y.0);
        push_u32_le(&mut out, x.1);
        push_u32_le(&mut out, y.1);
        push_u32_le(&mut out, x.2);
        push_u32_le(&mut out, y.2);
        assert(out@ =~= before + index_entry_bytes(x, y));
        i = i + 1;
    }
    out
}

/// Stores a metadata block: as it is, or compressed where the level is
/// not zero.
pub fn store_meta(plain: Vec<u8>, level: u8) -> (r: Option<Vec<u8>>)
    ensures
        match r {
            Some(v) => meta_stored(plain@, level) == Some(v@),
            None => meta_stored(plain@, level) is None,
        },
{
    if level == 0 {
        Some(plain)
    } else {
        compress_block(plain.as_slice(), level)
    }
}

/// Writes the eight counts in front of the global metadata block.
fn write_counts(c: &GlobalCounts) -> (out: Vec<u8>)
    ensures
        out@ == counts_bytes(*c),
{
    let v: [u32; 8] = [c.n_fd, c.n_rpg, c.n_samp, c.n_inst, c.n_soft, c.n_dp, c.n_acq, c.n_cvs];
    assert(v@ =~= seq![c.n_fd, c.n_rpg, c.n_samp, c.n_inst, c.n_soft, c.n_dp, c.n_acq, c.n_cvs]);
    u32s_to_le(v.as_slice())
}

/// The four containers of a file and the two indices into them.
pub struct ArrayPieces {
    pub spec_index: Vec<u8>,
    pub chrom_index: Vec<u8>,
    pub spect_x: Vec<u8>,
    pub spect_y: Vec<u8>,
    pub chrom_x: Vec<u8>,
    pub chrom_y: Vec<u8>,
    pub block_counts: (u32, u32, u32, u32),
}

impl ArrayPieces {
    /// Whether these are the containers and indices of the file that
    /// holds `f`.
    pub open spec fn of(&self, f: FlatModel, level: u8) -> bool {
        let elem = elem_of(f.fmt);
        &&& self.spec_index@ == index_piece(
            entries_of(f.spec_x, elem as int),
            entries_of(f.spec_y, elem as int),
            f.spec_x.len() as int,
        )
        &&& self.chrom_index@ == index_piece(
            entries_of(f.chrom_x, elem as int),
            entries_of(f.chrom_y, elem as int),
            f.chrom_x.len() as int,
        )
        &&& self.spect_x@ == container_piece(f.spec_x, elem, level)
        &&& self.spect_y@ == container_piece(f.spec_y, elem, level)
        &&& self.chrom_x@ == container_piece(f.chrom_x, elem, level)
        &&& self.chrom_y@ == container_piece(f.chrom_y, elem, level)
        &&& self.block_counts.0 == blocks_for(f.spec_x).len()
        &&& self.block_counts.1 == blocks_for(f.spec_y).len()
        &&& self.block_counts.2 == blocks_for(f.chrom_x).len()
        &&& self.block_counts.3 == blocks_for(f.chrom_y).len()
    }
}

/// Writes the four containers of a file and the two indices into them.
pub fn make_containers(f: &FlatFile, level: u8) -> (r: Result<ArrayPieces, EncodeError>)
    requires
        f.fmt == FMT_F32 || f.fmt == FMT_F64,
        f.spec_x@.len() == f.spec_y@.len(),
        f.chrom_x@.len() == f.chrom_y@.len(),
    ensures
        match r {
            Ok(p) => containers_error(f@, level) is None && p.of(f@, level),
            Err(e) => containers_error(f@, level) == Some(e),
        },
{
    let elem: usize = if f.fmt == FMT_F32 {
        4
    } else {
        8
    };
    let sx = match write_container(&f.spec_x, elem, level) {
        Ok(c) => c,
        Err(e) => {
            return Err(e);
        },
    };
    let sy = match write_container(&f.spec_y, elem, level) {
        Ok(c) => c,
        Err(e) => {
            return Err(e);
        },
    };
    let cx = match write_container(&f.chrom_x, elem, level) {
        Ok(c) => c,
        Err(e) => {
            return Err(e);
        },
    };
    let cy = match write_container(&f.chrom_y, elem, level) {
        Ok(c) => c,
        Err(e) => {
            return Err(e);
        },
    };
    let spec_index = write_index(&sx.entries, &sy.entries);
    let chrom_index = write_index(&cx.entries, &cy.entries);
    Ok(
        ArrayPieces {
            spec_index,
            chrom_index,
            spect_x: sx.bytes,
            spect_y: sy.bytes,
            chrom_x: cx.bytes,
            chrom_y: cy.bytes,
            block_counts: (sx.block_count, sy.block_count, cx.block_count, cy.block_count),
        },
    )
}

/// The three metadata regions of a file and the counts of their blocks.
pub struct MetaPieces {
    pub spec_meta: Vec<u8>,
    pub chrom_meta: Vec<u8>,
    pub global_meta: Vec<u8>,
    pub spec_counts: (u32, u32, u32),
    pub chrom_counts: (u32, u32, u32),
    pub global_counts: (u32, u32, u32),
}

/// The three counts that the header gives for a metadata block.
pub open spec fn counts_of(items: Seq<Seq<CvParamModel>>) -> (u32, u32, u32) {
    (
        columns_of(items).shape().meta_count,
        columns_of(items).shape().num_count,
        columns_of(items).shape().str_count,
    )
}

impl MetaPieces {
    /// Whether these are the metadata regions of the file that holds
    /// `f`.
    pub open spec fn of(&self, f: FlatModel, level: u8) -> bool {
        &&& Some(self.spec_meta@) == meta_stored(columns_of(f.spec_params).layout(), level)
        &&& Some(self.chrom_meta@) == meta_stored(columns_of(f.chrom_params).layout(), level)
        &&& Some(self.global_meta@) == meta_stored(
            counts_bytes(f.counts) + columns_of(f.global_items).layout(),
            level,
        )
        &&& self.spec_counts == counts_of(f.spec_params)
        &&& self.chrom_counts == counts_of(f.chrom_params)
        &&& self.global_counts == counts_of(f.global_items)
    }
}

/// Writes the three metadata regions of a file.
pub fn make_metas(f: &FlatFile, level: u8) -> (r: Result<MetaPieces, EncodeError>)
    ensures
        match r {
            Ok(p) => metas_error(f@, level) is None && p.of(f@, level),
            Err(e) => metas_error(f@, level) == Some(e),
        },
{
    let sm = match encode_meta_block(&f.spec_params) {
        Ok(m) => m,
        Err(e) => {
            return Err(e);
        },
    };
    let cm = match encode_meta_block(&f.chrom_params) {
        Ok(m) => m,
        Err(e) => {
            return Err(e);
        },
    };
    let gm = match encode_meta_block(&f.global_items) {
        Ok(m) => m,
        Err(e) => {
            return Err(e);
        },
    };
    let spec_counts = (sm.meta_count, sm.num_count, sm.str_count);
    let chrom_counts = (cm.meta_count, cm.num_count, cm.str_count);
    let global_counts = (gm.meta_count, gm.num_count, gm.str_count);
    let mut global_plain = write_counts(&f.counts);
    global_plain.extend_from_slice(gm.bytes.as_slice());
    assert(global_plain@ == counts_bytes(f@.counts) + columns_of(f@.global_items).layout());
    assert(sm.bytes@ == columns_of(f@.spec_params).layout());
    assert(cm.bytes@ == columns_of(f@.chrom_params).layout());
    let spec_meta = match store_meta(sm.bytes, level) {
        Some(v) => v,
        None => {
            return Err(EncodeError::CodecFailed);
        },
    };
    let chrom_meta = match store_meta(cm.bytes, level) {
        Some(v) => v,
        None => {
            return Err(EncodeError::CodecFailed);
        },
    };
    let global_meta = match store_meta(global_plain, level) {
        Some(v) => v,
        None => {
            return Err(EncodeError::CodecFailed);
        },
    };
    Ok(MetaPieces { spec_meta, chrom_meta, global_meta, spec_counts, chrom_counts, global_counts })
}

/// The body of a file and where each of its regions starts in it.
pub struct Body {
    pub bytes: Vec<u8>,
    pub starts: [usize; 9],
}

/// Lays the regions of a file one after the other.
pub(crate) fn lay_out_body(a: &ArrayPieces, m: &MetaPieces, Ghost(pieces): Ghost<Seq<Seq<u8>>>) -> (b:
    Body)
    requires
        pieces == seq![
            a.spec_index@,
            a.chrom_index@,
            m.spec_meta@,
            m.chrom_meta@,
            m.global_meta@,
            a.spect_x@,
            a.spect_y@,
            a.chrom_x@,
            a.chrom_y@,
        ],
    ensures
        b.bytes@ == joined(pieces, 9),
        forall|j: int| 0 <= j < 9 ==> #[trigger] b.starts@[j] == joined(pieces, j).len(),
{
    let mut body: Vec<u8> = Vec::new();
    assert(body@ =~= joined(pieces, 0));
    let at0 = body.len();
    body.extend_from_slice(a.spec_index.as_slice());
    assert(body@ == joined(pieces, 1));
    let at1 = body.len();
    body.extend_from_slice(a.chrom_index.as_slice());
    assert(body@ == joined(pieces, 2));
    let at2 = body.len();
    body.extend_from_slice(m.spec_meta.as_slice());
    assert(body@ == joined(pieces, 3));
    let at3 = body.len();
    body.extend_from_slice(m.chrom_meta.as_slice());
    assert(body@ == joined(pieces, 4));
    let at4 = body.len();
    body.extend_from_slice(m.global_meta.as_slice());
    assert(body@ == joined(pieces, 5));
    let at5 = body.len();
    body.extend_from_slice(a.spect_x.as_slice());
    assert(body@ == joined(pieces, 6));
    let at6 = body.len();
    body.extend_from_slice(a.spect_y.as_slice());
    assert(body@ == joined(pieces, 7));
    let at7 = body.len();
    body.extend_from_slice(a.chrom_x.as_slice());
    assert(body@ == joined(pieces, 8));
    let at8 = body.len();
    body.extend_from_slice(a.chrom_y.as_slice());
    assert(body@ == joined(pieces, 9));
    Body { bytes: body, starts: [at0, at1, at2, at3, at4, at5, at6, at7, at8] }
}

/// Makes the header of the file that holds `f`.
fn make_header(f: &FlatFile, level: u8, a: &ArrayPieces, m: &MetaPieces, starts: &[usize; 9]) -> (h:
    Header)
    requires
        a.of(f@, level),
        m.of(f@, level),
        !uneven(f@),
        blocks_for(f@.spec_x).len() <= u32::MAX,
        blocks_for(f@.spec_y).len() <= u32::MAX,
        blocks_for(f@.chrom_x).len() <= u32::MAX,
        blocks_for(f@.chrom_y).len() <= u32::MAX,
        forall|j: int|
            0 <= j < 9 ==> #[trigger] starts@[j] == joined(body_pieces(f@, level), j).len(),
        HEADER_SIZE + joined(body_pieces(f@, level), 9).len() <= u64::MAX,
        meta_stored(columns_of(f@.spec_params).layout(), level) is Some,
        meta_stored(columns_of(f@.chrom_params).layout(), level) is Some,
        meta_stored(counts_bytes(f@.counts) + columns_of(f@.global_items).layout(), level) is Some,
    ensures
        h == file_header(f@, level),
{
    proof {
        reveal(file_header);
        reveal(body_pieces);
        lemma_starts_ascend(body_pieces(f@, level));
    }
    let base: u64 = HEADER_SIZE as u64;
    let pieces = Ghost(body_pieces(f@, level));
    assert(pieces@[5] == a.spect_x@);
    assert(pieces@[6] == a.spect_y@);
    assert(pieces@[7] == a.chrom_x@);
    assert(pieces@[8] == a.chrom_y@);
    Header {
        off_spec_index: base + starts[0] as u64,
        off_chrom_index: base + starts[1] as u64,
        off_spec_meta: base + starts[2] as u64,
        off_chrom_meta: base + starts[3] as u64,
        off_global_meta: base + starts[4] as u64,
        size_container_spect_x: a.spect_x.len() as u64,
        off_container_spect_x: if a.block_counts.0 == 0 {
            0
        } else {
            base + starts[5] as u64
        },
        size_container_spect_y: a.spect_y.len() as u64,
        off_container_spect_y: if a.block_counts.1 == 0 {
            0
        } else {
            base + starts[6] as u64
        },
        size_container_chrom_x: a.chrom_x.len() as u64,
        off_container_chrom_x: if a.block_counts.2 == 0 {
            0
        } else {
            base + starts[7] as u64
        },
        size_container_chrom_y: a.chrom_y.len() as u64,
        off_container_chrom_y: if a.block_counts.3 == 0 {
            0
        } else {
            base + starts[8] as u64
        },
        spectrum_count: f.spec_x.len() as u32,
        chrom_count: f.chrom_x.len() as u32,
        spec_meta_count: m.spec_counts.0,
        spec_num_count: m.spec_counts.1,
        spec_str_count: m.spec_counts.2,
        chrom_meta_count: m.chrom_counts.0,
        chrom_num_count: m.chrom_counts.1,
        chrom_str_count: m.chrom_counts.2,
        global_meta_count: m.global_counts.0,
        global_num_count: m.global_counts.1,
        global_str_count: m.global_counts.2,
        block_count_spect_x: a.block_counts.0,
        block_count_spect_y: a.block_counts.1,
        block_count_chrom_x: a.block_counts.2,
        block_count_chrom_y: a.block_counts.3,
        codec_flags: if level == 0 {
            HDR_CODEC_ZSTD
        } else {
            0x71
        },
        chrom_x_fmt: f.fmt,
        chrom_y_fmt: f.fmt,
        spect_x_fmt: f.fmt,
        spect_y_fmt: f.fmt,
        compression_level: level,
        array_filter: if level == 0 {
            ARRAY_FILTER_NONE
        } else {
            ARRAY_FILTER_BYTE_SHUFFLE
        },
    }
}

/// The regions of the body are the containers, the indices and the
/// metadata regions that were made for it.
proof fn lemma_pieces(f: FlatModel, level: u8, a: &ArrayPieces, m: &MetaPieces)
    requires
        a.of(f, level),
        m.of(f, level),
    ensures
        body_pieces(f, level) == seq![
            a.spec_index@,
            a.chrom_index@,
            m.spec_meta@,
            m.chrom_meta@,
            m.global_meta@,
            a.spect_x@,
            a.spect_y@,
            a.chrom_x@,
            a.chrom_y@,
        ],
        meta_stored(columns_of(f.spec_params).layout(), level) is Some,
        meta_stored(columns_of(f.chrom_params).layout(), level) is Some,
        meta_stored(counts_bytes(f.counts) + columns_of(f.global_items).layout(), level) is Some,
{
    reveal(body_pieces);
    assert(body_pieces(f, level) =~= seq![
        a.spec_index@,
        a.chrom_index@,
        m.spec_meta@,
        m.chrom_meta@,
        m.global_meta@,
        a.spect_x@,
        a.spect_y@,
        a.chrom_x@,
        a.chrom_y@,
    ]);
}

/// The lengths of more pieces laid end to end are at least as large.
pub proof fn lemma_starts_ascend(pieces: Seq<Seq<u8>>)
    ensures
        forall|i: int, j: int|
            0 <= i <= j ==> #[trigger] joined(pieces, i).len() <= #[trigger] joined(pieces, j).len(),
{
    assert forall|i: int, j: int| 0 <= i <= j implies #[trigger] joined(pieces, i).len()
        <= #[trigger] joined(pieces, j).len() by {
        lemma_joined_grows(pieces, i, j);
    }
}

/// The first `i` pieces laid end to end are no longer than the first `j`.
pub proof fn lemma_joined_grows(pieces: Seq<Seq<u8>>, i: int, j: int)
    requires
        0 <= i <= j,
    ensures
        joined(pieces, i).len() <= joined(pieces, j).len(),
    decreases j - i,
{
    if i < j {
        lemma_joined_grows(pieces, i, j - 1);
    }
}

/// Writes the file that holds `f`, with blocks and metadata compressed
/// by zstd at the given level, or stored as they are at level zero.
pub fn encode_flat(f: &FlatFile, level: u8) -> (r: Result<Vec<u8>, EncodeError>)
    ensures
        match r {
            Ok(b) => encode_error(f@, level) is None && b@ == file_bytes(f@, level),
            Err(e) => encode_error(f@, level) == Some(e),
        },
{
    if f.fmt != FMT_F32 && f.fmt != FMT_F64 {
        return Err(EncodeError::BadElementSize);
    }
    let total: u64 = f.counts.n_fd as u64 + f.counts.n_rpg as u64 + f.counts.n_samp as u64
        + f.counts.n_inst as u64 + f.counts.n_soft as u64 + f.counts.n_dp as u64
        + f.counts.n_acq as u64 + f.counts.n_cvs as u64;
    if f.spec_params.len() != f.spec_x.len() || f.spec_x.len() != f.spec_y.len()
        || f.chrom_params.len() != f.chrom_x.len() || f.chrom_x.len() != f.chrom_y.len()
        || f.global_items.len() as u64 != total || f.spec_x.len() > u32::MAX as usize
        || f.chrom_x.len() > u32::MAX as usize {
        return Err(EncodeError::UnevenParts);
    }
    assert(!uneven(f@));
    let a = match make_containers(f, level) {
        Ok(p) => p,
        Err(e) => {
            return Err(e);
        },
    };
    let m = match make_metas(f, level) {
        Ok(p) => p,
        Err(e) => {
            return Err(e);
        },
    };
    let ghost pieces = body_pieces(f@, level);
    proof {
        lemma_pieces(f@, level, &a, &m);
    }
    let body = lay_out_body(&a, &m, Ghost(pieces));
    if body.bytes.len() as u64 > u64::MAX - HEADER_SIZE as u64 {
        return Err(EncodeError::TooLarge);
    }
    let h = make_header(f, level, &a, &m, &body.starts);
    let mut out = write_header(&h);
    out.extend_from_slice(body.bytes.as_slice());
    Ok(out)
}

} // verus!
