//! What holds between a written file and what the decoder makes of it.

use vstd::prelude::*;
use crate::bytes::{
    in_bounds, le_u32, le_u32_seq, le_u64, le_u64_seq, lemma_le_bytes_len, lemma_u32_round_trip,
    lemma_u32s_window, lemma_u64_round_trip, u32_le_bytes, u32s_le_bytes, u64_le_bytes,
};
use crate::codec::{decoded_allowing_padding, HDR_CODEC_ZSTD, meta_plain};
use crate::container::{container_model, ContainerModel, empty_model, slice_spec};
use crate::container_laws::{
    bytes_prefix, codec_inverts, lemma_block_sizes, lemma_container_embedded,
    lemma_slice_round_trip, lemma_written_container_opens, whole_arrays, writable, written_model,
};
use crate::container_writer::{store_error, stored_blocks, stored_form};
use crate::decode::{
    array_model, array_pair, as_index, blocks_spec, chromatogram_model, chromatograms_spec,
    decode_spec, document_of, elem_size_needed, global_meta_end, item_arrays, Opened, opened_spec,
    Parts, regions_spec, RegionsModel, spectra_spec, spectrum_model,
};
use crate::document::MzMLModel;
use crate::error::DecodeError;
use crate::file_writer::{
    blocks_for, body_pieces, body_start, container_error, container_off, container_piece,
    counts_bytes, elem_of, encode_error, file_bytes, file_header, filter_of, flags_of, FlatModel,
    index_entry_bytes, index_piece, lemma_joined_grows, meta_stored, pieces_error, uneven,
};
use crate::global::{global_counts, global_spec, GlobalCounts, GlobalSectionsModel, sections_of};
use crate::header::{
    FMT_F32, FMT_F64, HDR_CODEC_MASK, HDR_FLAG_CHROM_META_COMP, HDR_FLAG_GLOBAL_META_COMP,
    HDR_FLAG_SPEC_META_COMP, Header, header_spec, index_entry_spec, min_nonzero,
};
use crate::header_writer::{header_bytes, lemma_header_round_trip};
use crate::meta_encode::{columns_of, meta_too_large};
use crate::meta_laws::{lemma_meta_round_trip, normal_items, normal_params};
use crate::meta_writer::{joined, lemma_joined_splits, rest_from};
use crate::metadata::{meta_block_spec, MetaShape};
use crate::packing::{
    BLOCK_THRESHOLD, elems_prefix, entries_of, entry_of_array, first_bad_array, pack_error, packed,
};
use crate::params::CvParamModel;
use crate::precursor::{ACC_INTENSITY_ARRAY, ACC_MZ_ARRAY, ACC_TIME_ARRAY};
use crate::run::{BinaryDataArrayListModel, ChromatogramModel, SpectrumModel};

verus! {

/// An index of `n` entries takes `32 n` bytes.
pub proof fn lemma_index_len(xs: Seq<(u64, u32, u32)>, ys: Seq<(u64, u32, u32)>, n: int)
    requires
        0 <= n,
    ensures
        index_piece(xs, ys, n).len() == 32 * n,
    decreases n,
{
    if n > 0 {
        lemma_index_len(xs, ys, n - 1);
        lemma_entry_len(xs[n - 1], ys[n - 1]);
    }
}

/// An index entry takes 32 bytes.
pub proof fn lemma_entry_len(x: (u64, u32, u32), y: (u64, u32, u32))
    ensures
        index_entry_bytes(x, y).len() == 32,
{
    lemma_le_bytes_len(x.1, x.0);
    lemma_le_bytes_len(y.1, y.0);
    lemma_le_bytes_len(x.2, 0);
    lemma_le_bytes_len(y.2, 0);
}

/// Reading the six numbers of an index entry where its bytes lie gives
/// the numbers that were written.
pub proof fn lemma_entry_reads_back(all: Seq<u8>, o: int, x: (u64, u32, u32), y: (u64, u32, u32))
    requires
        0 <= o,
        o + 32 <= all.len(),
        all.subrange(o, o + 32) == index_entry_bytes(x, y),
    ensures
        le_u64(all, o) == x.0,
        le_u64(all, o + 8) == y.0,
        le_u32(all, o + 16) == x.1,
        le_u32(all, o + 20) == y.1,
        le_u32(all, o + 24) == x.2,
        le_u32(all, o + 28) == y.2,
{
    lemma_le_bytes_len(x.1, x.0);
    lemma_le_bytes_len(y.1, y.0);
    lemma_le_bytes_len(x.2, 0);
    lemma_le_bytes_len(y.2, 0);
    let e = all.subrange(o, o + 32);
    assert(all.subrange(o, o + 8) =~= e.subrange(0, 8));
    assert(all.subrange(o + 8, o + 16) =~= e.subrange(8, 16));
    assert(all.subrange(o + 16, o + 20) =~= e.subrange(16, 20));
    assert(all.subrange(o + 20, o + 24) =~= e.subrange(20, 24));
    assert(all.subrange(o + 24, o + 28) =~= e.subrange(24, 28));
    assert(all.subrange(o + 28, o + 32) =~= e.subrange(28, 32));
    assert(e.subrange(0, 8) =~= u64_le_bytes(x.0));
    assert(e.subrange(8, 16) =~= u64_le_bytes(y.0));
    assert(e.subrange(16, 20) =~= u32_le_bytes(x.1));
    assert(e.subrange(20, 24) =~= u32_le_bytes(y.1));
    assert(e.subrange(24, 28) =~= u32_le_bytes(x.2));
    assert(e.subrange(28, 32) =~= u32_le_bytes(y.2));
    lemma_u64_round_trip(all, o, x.0);
    lemma_u64_round_trip(all, o + 8, y.0);
    lemma_u32_round_trip(all, o + 16, x.1);
    lemma_u32_round_trip(all, o + 20, y.1);
    lemma_u32_round_trip(all, o + 24, x.2);
    lemma_u32_round_trip(all, o + 28, y.2);
}

/// Entry `i` of a written index is read back as it was written.
pub proof fn lemma_index_reads_back(
    xs: Seq<(u64, u32, u32)>,
    ys: Seq<(u64, u32, u32)>,
    n: int,
    i: int,
)
    requires
        0 <= i < n,
    ensures
        index_entry_spec(index_piece(xs, ys, n), i) == Ok::<
            (u64, u64, u32, u32, u32, u32),
            DecodeError,
        >((xs[i].0, ys[i].0, xs[i].1, ys[i].1, xs[i].2, ys[i].2)),
    decreases n,
{
    let all = index_piece(xs, ys, n);
    let head = index_piece(xs, ys, n - 1);
    let e = index_entry_bytes(xs[n - 1], ys[n - 1]);
    lemma_index_len(xs, ys, n);
    lemma_index_len(xs, ys, n - 1);
    lemma_entry_len(xs[n - 1], ys[n - 1]);
    if i < n - 1 {
        lemma_index_reads_back(xs, ys, n - 1, i);
        let o = 32 * i;
        assert(all == head + e);
        crate::bytes::lemma_le_u64_in_prefix(head, e, o);
        crate::bytes::lemma_le_u64_in_prefix(head, e, o + 8);
        crate::bytes::lemma_le_u32_in_prefix(head, e, o + 16);
        crate::bytes::lemma_le_u32_in_prefix(head, e, o + 20);
        crate::bytes::lemma_le_u32_in_prefix(head, e, o + 24);
        crate::bytes::lemma_le_u32_in_prefix(head, e, o + 28);
    } else {
        let o = 32 * i;
        assert(all.subrange(o, o + 32) =~= e);
        lemma_entry_reads_back(all, o, xs[i], ys[i]);
    }
}

/// Region `j` of the body lies in the file where the header puts it.
pub proof fn lemma_region_lies(f: FlatModel, level: u8, j: int)
    requires
        0 <= j < 9,
    ensures
        body_start(f, level, j) + body_pieces(f, level)[j].len() == body_start(f, level, j + 1),
        body_start(f, level, j + 1) <= file_bytes(f, level).len(),
        file_bytes(f, level).len() == body_start(f, level, 9),
        file_bytes(f, level).subrange(body_start(f, level, j), body_start(f, level, j + 1))
            == body_pieces(f, level)[j],
{
    reveal(body_pieces);
    let pieces = body_pieces(f, level);
    let h = header_bytes(file_header(f, level));
    lemma_header_round_trip(file_header(f, level), Seq::empty());
    lemma_joined_splits(pieces, j);
    lemma_joined_grows(pieces, j + 1, 9);
    let a = joined(pieces, j);
    let c = rest_from(pieces, j + 1);
    assert(joined(pieces, 9) == a + pieces[j] + c);
    assert(joined(pieces, j + 1) == a + pieces[j]);
    let b = file_bytes(f, level);
    assert(b.subrange(192 + a.len() as int, 192 + a.len() as int + pieces[j].len() as int)
        =~= pieces[j]);
}

/// Whether the file that holds `f` can be written and fits the machine.
pub open spec fn writes(f: FlatModel, level: u8) -> bool {
    encode_error(f, level) is None && file_bytes(f, level).len() <= usize::MAX
}

/// The least of the numbers seen so far that are not zero, after one
/// more number.
pub open spec fn min_with(m: Option<usize>, x: usize) -> Option<usize> {
    if x == 0 {
        m
    } else {
        match m {
            Some(cur) => Some(if cur <= x {
                cur
            } else {
                x
            }),
            None => Some(x),
        }
    }
}

/// The least non-zero number of four.
pub proof fn lemma_min_nonzero_of_four(a: usize, b: usize, c: usize, d: usize)
    ensures
        min_nonzero(seq![a, b, c, d]) == min_with(min_with(min_with(min_with(None, a), b), c), d),
{
    let s4 = seq![a, b, c, d];
    let s3 = seq![a, b, c];
    let s2 = seq![a, b];
    let s1 = seq![a];
    assert(s4.drop_last() =~= s3);
    assert(s3.drop_last() =~= s2);
    assert(s2.drop_last() =~= s1);
    assert(s1.drop_last() =~= Seq::<usize>::empty());
    assert(min_nonzero(Seq::<usize>::empty()) is None);
    assert(min_nonzero(s1) == min_with(None, a));
    assert(min_nonzero(s2) == min_with(min_nonzero(s1), b));
    assert(min_nonzero(s3) == min_with(min_nonzero(s2), c));
    assert(min_nonzero(s4) == min_with(min_nonzero(s3), d));
}

/// A container without blocks takes no bytes.
pub proof fn lemma_empty_container(arrays: Seq<Seq<u8>>, elem: usize, level: u8)
    requires
        blocks_for(arrays).len() == 0,
    ensures
        container_piece(arrays, elem, level).len() == 0,
{
    let blocks = blocks_for(arrays);
    let stored = crate::container_writer::stored_blocks(blocks, elem, level, filter_of(level));
    assert(crate::container_writer::directory_of(blocks, stored, 0) =~= Seq::<u8>::empty());
    assert(crate::container_writer::payload_of(stored, 0) =~= Seq::<u8>::empty());
}

/// What can be said of the numbers of a file that can be written: its
/// format is one of the two, its lists match in length, and its regions
/// start inside the file, one behind the other.
pub proof fn lemma_file_numbers(f: FlatModel, level: u8)
    requires
        writes(f, level),
    ensures
        f.fmt == FMT_F32 || f.fmt == FMT_F64,
        !uneven(f),
        pieces_error(f, level) is None,
        forall|j: int|
            0 <= j <= 9 ==> 192 <= #[trigger] body_start(f, level, j) <= file_bytes(f, level).len(),
        forall|i: int, j: int|
            0 <= i <= j <= 9 ==> #[trigger] body_start(f, level, i) <= #[trigger] body_start(
                f,
                level,
                j,
            ),
        file_bytes(f, level).len() == body_start(f, level, 9),
        file_bytes(f, level).len() <= u64::MAX,
        body_pieces(f, level)[0].len() == 32 * f.spec_x.len(),
        body_pieces(f, level)[1].len() == 32 * f.chrom_x.len(),
        body_pieces(f, level).len() == 9,
{
    reveal(body_pieces);
    let pieces = body_pieces(f, level);
    lemma_region_lies(f, level, 0);
    assert forall|i: int, j: int| 0 <= i <= j <= 9 implies #[trigger] body_start(f, level, i)
        <= #[trigger] body_start(f, level, j) by {
        lemma_joined_grows(pieces, i, j);
    }
    assert forall|j: int| 0 <= j <= 9 implies 192 <= #[trigger] body_start(f, level, j)
        <= file_bytes(f, level).len() by {
        lemma_joined_grows(pieces, j, 9);
    }
    lemma_index_len(
        entries_of(f.spec_x, elem_of(f.fmt) as int),
        entries_of(f.spec_y, elem_of(f.fmt) as int),
        f.spec_x.len() as int,
    );
    lemma_index_len(
        entries_of(f.chrom_x, elem_of(f.fmt) as int),
        entries_of(f.chrom_y, elem_of(f.fmt) as int),
        f.chrom_x.len() as int,
    );
}

/// The global metadata of a written file ends where the containers
/// begin.
pub proof fn lemma_global_end(f: FlatModel, level: u8)
    requires
        writes(f, level),
    ensures
        global_meta_end(file_bytes(f, level), file_header(f, level)) == body_start(f, level, 5),
{
    reveal(body_pieces);
    reveal(file_header);
    let b = file_bytes(f, level);
    let h = file_header(f, level);
    let elem = elem_of(f.fmt);
    lemma_file_numbers(f, level);
    lemma_region_lies(f, level, 5);
    lemma_region_lies(f, level, 6);
    lemma_region_lies(f, level, 7);
    lemma_region_lies(f, level, 8);
    if blocks_for(f.spec_x).len() == 0 {
        lemma_empty_container(f.spec_x, elem, level);
    }
    if blocks_for(f.spec_y).len() == 0 {
        lemma_empty_container(f.spec_y, elem, level);
    }
    if blocks_for(f.chrom_x).len() == 0 {
        lemma_empty_container(f.chrom_x, elem, level);
    }
    if blocks_for(f.chrom_y).len() == 0 {
        lemma_empty_container(f.chrom_y, elem, level);
    }
    lemma_min_nonzero_of_four(
        as_index(h.off_container_spect_x),
        as_index(h.off_container_spect_y),
        as_index(h.off_container_chrom_x),
        as_index(h.off_container_chrom_y),
    );
}

/// The regions that the decoder cuts out of a written file.
pub open spec fn written_regions(f: FlatModel, level: u8) -> RegionsModel {
    let pieces = body_pieces(f, level);
    RegionsModel {
        spect_x_elem: elem_of(f.fmt),
        spect_y_elem: elem_of(f.fmt),
        chrom_x_elem: elem_of(f.fmt),
        chrom_y_elem: elem_of(f.fmt),
        spec_index: pieces[0],
        chrom_index: pieces[1],
        spec_meta: pieces[2],
        chrom_meta: pieces[3],
        global_meta: pieces[4],
    }
}

/// The regions that the decoder cuts out of a file whose header puts
/// them one behind the other at the starts `s`, with the two indices as
/// long as the counts of items say.
pub proof fn lemma_regions_at(b: Seq<u8>, h: Header, elem: usize, s: Seq<int>)
    requires
        elem_size_needed(
            h.spect_x_fmt,
            h.spectrum_count,
            h.size_container_spect_x,
            h.block_count_spect_x,
        ) == Ok::<usize, DecodeError>(elem),
        elem_size_needed(
            h.spect_y_fmt,
            h.spectrum_count,
            h.size_container_spect_y,
            h.block_count_spect_y,
        ) == Ok::<usize, DecodeError>(elem),
        elem_size_needed(
            h.chrom_x_fmt,
            h.chrom_count,
            h.size_container_chrom_x,
            h.block_count_chrom_x,
        ) == Ok::<usize, DecodeError>(elem),
        elem_size_needed(
            h.chrom_y_fmt,
            h.chrom_count,
            h.size_container_chrom_y,
            h.block_count_chrom_y,
        ) == Ok::<usize, DecodeError>(elem),
        s.len() == 6,
        0 < s[0] <= s[1] <= s[2] <= s[3] <= s[4] <= s[5] <= b.len(),
        b.len() <= usize::MAX,
        h.off_spec_index == s[0],
        h.off_chrom_index == s[1],
        h.off_spec_meta == s[2],
        h.off_chrom_meta == s[3],
        h.off_global_meta == s[4],
        s[1] - s[0] == 32 * h.spectrum_count,
        s[2] - s[1] == 32 * h.chrom_count,
        global_meta_end(b, h) == s[5],
    ensures
        regions_spec(b, h) == Ok::<RegionsModel, DecodeError>(
            RegionsModel {
                spect_x_elem: elem,
                spect_y_elem: elem,
                chrom_x_elem: elem,
                chrom_y_elem: elem,
                spec_index: b.subrange(s[0], s[1]),
                chrom_index: b.subrange(s[1], s[2]),
                spec_meta: b.subrange(s[2], s[3]),
                chrom_meta: b.subrange(s[3], s[4]),
                global_meta: b.subrange(s[4], s[5]),
            },
        ),
{
    assert(b.subrange(s[1], s[1] + h.chrom_count * 32) == b.subrange(s[1], s[2]));
    assert(b.subrange(s[0], s[0] + h.spectrum_count * 32) == b.subrange(s[0], s[1]));
}

/// The decoder finds the header of a written file and cuts out of the
/// file the regions that were written.
pub proof fn lemma_regions_round_trip(f: FlatModel, level: u8)
    requires
        writes(f, level),
    ensures
        header_spec(file_bytes(f, level)) == Ok::<Header, DecodeError>(file_header(f, level)),
        regions_spec(file_bytes(f, level), file_header(f, level)) == Ok::<
            RegionsModel,
            DecodeError,
        >(written_regions(f, level)),
{
    let b = file_bytes(f, level);
    let h = file_header(f, level);
    lemma_header_round_trip(h, joined(body_pieces(f, level), 9));
    let s = seq![
        body_start(f, level, 0),
        body_start(f, level, 1),
        body_start(f, level, 2),
        body_start(f, level, 3),
        body_start(f, level, 4),
        body_start(f, level, 5),
    ];
    lemma_region_starts(f, level);
    lemma_regions_at(b, h, elem_of(f.fmt), s);
    lemma_region_lies(f, level, 0);
    lemma_region_lies(f, level, 1);
    lemma_region_lies(f, level, 2);
    lemma_region_lies(f, level, 3);
    lemma_region_lies(f, level, 4);
}

/// The starts of the first regions of a written file are what the
/// decoder needs them to be: in order, inside the file, given by the
/// header, and apart by the lengths of the two indices.
pub proof fn lemma_region_starts(f: FlatModel, level: u8)
    requires
        writes(f, level),
    ensures
        ({
            let b = file_bytes(f, level);
            let h = file_header(f, level);
            let elem = elem_of(f.fmt);
            &&& elem_size_needed(
                h.spect_x_fmt,
                h.spectrum_count,
                h.size_container_spect_x,
                h.block_count_spect_x,
            ) == Ok::<usize, DecodeError>(elem)
            &&& elem_size_needed(
                h.spect_y_fmt,
                h.spectrum_count,
                h.size_container_spect_y,
                h.block_count_spect_y,
            ) == Ok::<usize, DecodeError>(elem)
            &&& elem_size_needed(
                h.chrom_x_fmt,
                h.chrom_count,
                h.size_container_chrom_x,
                h.block_count_chrom_x,
            ) == Ok::<usize, DecodeError>(elem)
            &&& elem_size_needed(
                h.chrom_y_fmt,
                h.chrom_count,
                h.size_container_chrom_y,
                h.block_count_chrom_y,
            ) == Ok::<usize, DecodeError>(elem)
            &&& 0 < body_start(f, level, 0) <= body_start(f, level, 1) <= body_start(f, level, 2)
                <= body_start(f, level, 3) <= body_start(f, level, 4) <= body_start(f, level, 5)
                <= b.len()
            &&& b.len() <= usize::MAX
            &&& h.off_spec_index == body_start(f, level, 0)
            &&& h.off_chrom_index == body_start(f, level, 1)
            &&& h.off_spec_meta == body_start(f, level, 2)
            &&& h.off_chrom_meta == body_start(f, level, 3)
            &&& h.off_global_meta == body_start(f, level, 4)
            &&& body_start(f, level, 1) - body_start(f, level, 0) == 32 * h.spectrum_count
            &&& body_start(f, level, 2) - body_start(f, level, 1) == 32 * h.chrom_count
            &&& global_meta_end(b, h) == body_start(f, level, 5)
        }),
{
    lemma_file_numbers(f, level);
    lemma_header_facts(f, level);
    lemma_global_end(f, level);
    lemma_region_lies(f, level, 0);
    lemma_region_lies(f, level, 1);
    assert(body_start(f, level, 0) <= body_start(f, level, 1));
    assert(body_start(f, level, 1) <= body_start(f, level, 2));
    assert(body_start(f, level, 2) <= body_start(f, level, 3));
    assert(body_start(f, level, 3) <= body_start(f, level, 4));
    assert(body_start(f, level, 4) <= body_start(f, level, 5));
    assert(body_start(f, level, 5) <= body_start(f, level, 9));
}

/// The fields of the header of a written file that say where the
/// regions lie and how many items there are.
pub proof fn lemma_header_facts(f: FlatModel, level: u8)
    requires
        writes(f, level),
    ensures
        ({
            let h = file_header(f, level);
            &&& h.off_spec_index == body_start(f, level, 0)
            &&& h.off_chrom_index == body_start(f, level, 1)
            &&& h.off_spec_meta == body_start(f, level, 2)
            &&& h.off_chrom_meta == body_start(f, level, 3)
            &&& h.off_global_meta == body_start(f, level, 4)
            &&& h.spectrum_count == f.spec_x.len()
            &&& h.chrom_count == f.chrom_x.len()
            &&& h.spect_x_fmt == f.fmt
            &&& h.spect_y_fmt == f.fmt
            &&& h.chrom_x_fmt == f.fmt
            &&& h.chrom_y_fmt == f.fmt
            &&& h.compression_level == level
            &&& h.array_filter == filter_of(level)
            &&& h.codec_flags == flags_of(level)
            &&& h.size_container_spect_x == body_pieces(f, level)[5].len()
            &&& h.size_container_spect_y == body_pieces(f, level)[6].len()
            &&& h.size_container_chrom_x == body_pieces(f, level)[7].len()
            &&& h.size_container_chrom_y == body_pieces(f, level)[8].len()
            &&& h.off_container_spect_x == container_off(f, level, 5, blocks_for(f.spec_x).len())
            &&& h.off_container_spect_y == container_off(f, level, 6, blocks_for(f.spec_y).len())
            &&& h.off_container_chrom_x == container_off(f, level, 7, blocks_for(f.chrom_x).len())
            &&& h.off_container_chrom_y == container_off(f, level, 8, blocks_for(f.chrom_y).len())
            &&& h.block_count_spect_x == blocks_for(f.spec_x).len()
            &&& h.block_count_spect_y == blocks_for(f.spec_y).len()
            &&& h.block_count_chrom_x == blocks_for(f.chrom_x).len()
            &&& h.block_count_chrom_y == blocks_for(f.chrom_y).len()
            &&& h.spec_meta_count == columns_of(f.spec_params).shape().meta_count
            &&& h.spec_num_count == columns_of(f.spec_params).shape().num_count
            &&& h.spec_str_count == columns_of(f.spec_params).shape().str_count
            &&& h.chrom_meta_count == columns_of(f.chrom_params).shape().meta_count
            &&& h.chrom_num_count == columns_of(f.chrom_params).shape().num_count
            &&& h.chrom_str_count == columns_of(f.chrom_params).shape().str_count
            &&& h.global_meta_count == columns_of(f.global_items).shape().meta_count
            &&& h.global_num_count == columns_of(f.global_items).shape().num_count
            &&& h.global_str_count == columns_of(f.global_items).shape().str_count
        }),
{
    reveal(file_header);
    lemma_file_numbers(f, level);
    lemma_blocks_few(f, level);
}

/// A file that can be written has no more blocks in a container than 32
/// bits count.
pub proof fn lemma_blocks_few(f: FlatModel, level: u8)
    requires
        writes(f, level),
    ensures
        blocks_for(f.spec_x).len() <= u32::MAX,
        blocks_for(f.spec_y).len() <= u32::MAX,
        blocks_for(f.chrom_x).len() <= u32::MAX,
        blocks_for(f.chrom_y).len() <= u32::MAX,
{
}

/// Whether the arrays of every container fit the memory of the
/// machine.
pub open spec fn held(f: FlatModel) -> bool {
    &&& bytes_prefix(f.spec_x, f.spec_x.len() as int) <= usize::MAX
    &&& bytes_prefix(f.spec_y, f.spec_y.len() as int) <= usize::MAX
    &&& bytes_prefix(f.chrom_x, f.chrom_x.len() as int) <= usize::MAX
    &&& bytes_prefix(f.chrom_y, f.chrom_y.len() as int) <= usize::MAX
}

/// Whether zstd gives back every block of the arrays from what is stored
/// for it.
pub open spec fn blocks_invert(arrays: Seq<Seq<u8>>, elem: usize, level: u8) -> bool {
    forall|b: int|
        0 <= b < blocks_for(arrays).len() ==> #[trigger] codec_inverts(
            blocks_for(arrays),
            stored_blocks(blocks_for(arrays), elem, level, filter_of(level)),
            HDR_CODEC_ZSTD,
            level,
            elem,
            filter_of(level),
            b,
        )
}

/// Whether zstd gives back a metadata block from what is stored for it.
pub open spec fn meta_inverts(plain: Seq<u8>, level: u8) -> bool {
    level != 0 && meta_stored(plain, level) is Some ==> decoded_allowing_padding(
        HDR_CODEC_ZSTD,
        meta_stored(plain, level).unwrap(),
    ) == Some(plain)
}

/// Whether the codec gives back all that it compressed for the file.
/// At level zero nothing is compressed.
pub open spec fn codec_inverts_all(f: FlatModel, level: u8) -> bool {
    let elem = elem_of(f.fmt);
    &&& meta_inverts(columns_of(f.spec_params).layout(), level)
    &&& meta_inverts(columns_of(f.chrom_params).layout(), level)
    &&& meta_inverts(counts_bytes(f.counts) + columns_of(f.global_items).layout(), level)
    &&& blocks_invert(f.spec_x, elem, level)
    &&& blocks_invert(f.spec_y, elem, level)
    &&& blocks_invert(f.chrom_x, elem, level)
    &&& blocks_invert(f.chrom_y, elem, level)
}

/// At level zero nothing is compressed, so there is nothing for the
/// codec to give back.
pub proof fn lemma_raw_needs_no_codec(f: FlatModel)
    ensures
        codec_inverts_all(f, 0),
{
}

/// The container that the decoder sees for the arrays: without blocks
/// where there is no array, else as it was written.
pub open spec fn container_seen(arrays: Seq<Seq<u8>>, elem: usize, level: u8) -> ContainerModel {
    if blocks_for(arrays).len() == 0 {
        empty_model()
    } else {
        written_model(
            blocks_for(arrays),
            stored_blocks(blocks_for(arrays), elem, level, filter_of(level)),
            HDR_CODEC_ZSTD,
            level,
            elem,
            filter_of(level),
        )
    }
}

/// Blocks that can be stored are whole numbers of elements, and the
/// codec stores each of them.
pub proof fn lemma_storable(blocks: Seq<Seq<u8>>, elem: usize, level: u8, filter: u8, n: int, b: int)
    requires
        0 <= b < n <= blocks.len(),
        store_error(blocks, elem, level, filter, n) is None,
    ensures
        blocks[b].len() % (elem as nat) == 0,
        stored_form(blocks[b], elem, level, filter) is Some,
    decreases n,
{
    if b < n - 1 {
        lemma_storable(blocks, elem, level, filter, n - 1, b);
    }
}

/// The container of the arrays, found in a file where the header says
/// it is, opens as the container that was written.
pub proof fn lemma_container_at(
    file: Seq<u8>,
    start: int,
    arrays: Seq<Seq<u8>>,
    elem: usize,
    level: u8,
)
    requires
        container_error(arrays, elem, level) is None,
        bytes_prefix(arrays, arrays.len() as int) <= usize::MAX,
        in_bounds(file.len(), start, container_piece(arrays, elem, level).len() as int),
        file.len() <= usize::MAX,
        file.subrange(start, start + container_piece(arrays, elem, level).len())
            == container_piece(arrays, elem, level),
    ensures
        container_model(
            file,
            if blocks_for(arrays).len() == 0 {
                0
            } else {
                start
            },
            container_piece(arrays, elem, level).len() as int,
            blocks_for(arrays).len() as u32,
            HDR_CODEC_ZSTD,
            level,
            elem,
            filter_of(level),
        ) == Ok::<ContainerModel, DecodeError>(container_seen(arrays, elem, level)),
{
    let blocks = blocks_for(arrays);
    let filter = filter_of(level);
    let stored = stored_blocks(blocks, elem, level, filter);
    let piece = container_piece(arrays, elem, level);
    let n = blocks.len() as int;
    if n == 0 {
        lemma_empty_container(arrays, elem, level);
    } else {
        lemma_container_embedded(
            file,
            start,
            piece.len() as int,
            n as u32,
            HDR_CODEC_ZSTD,
            level,
            elem,
            filter,
        );
        assert forall|k: int| 0 <= k < n implies (#[trigger] blocks[k]).len() <= u64::MAX
            && blocks[k].len() % (elem as nat) == 0 by {
            lemma_storable(blocks, elem, level, filter, n, k);
            lemma_block_sizes(arrays, BLOCK_THRESHOLD as nat, k);
        }
        crate::container_laws::lemma_directory_len(blocks, stored, n);
        lemma_written_container_opens(blocks, stored, HDR_CODEC_ZSTD, level, elem, filter);
    }
}

/// The codec code and the compression flags that a written file
/// carries.
pub proof fn lemma_flags(level: u8)
    ensures
        flags_of(level) & HDR_CODEC_MASK == HDR_CODEC_ZSTD,
        (flags_of(level) & HDR_FLAG_SPEC_META_COMP != 0) == (level != 0),
        (flags_of(level) & HDR_FLAG_CHROM_META_COMP != 0) == (level != 0),
        (flags_of(level) & HDR_FLAG_GLOBAL_META_COMP != 0) == (level != 0),
{
    assert(1u8 & 0x0F == 1 && 0x71u8 & 0x0F == 1) by (bit_vector);
    assert(1u8 & 0x10 == 0 && 1u8 & 0x20 == 0 && 1u8 & 0x40 == 0) by (bit_vector);
    assert(0x71u8 & 0x10 != 0 && 0x71u8 & 0x20 != 0 && 0x71u8 & 0x40 != 0) by (bit_vector);
}

/// What the decoder sees once it has decompressed the metadata and
/// opened the containers of a written file.
pub open spec fn written_opened(f: FlatModel, level: u8) -> Opened {
    let elem = elem_of(f.fmt);
    Opened {
        spec_meta: columns_of(f.spec_params).layout(),
        chrom_meta: columns_of(f.chrom_params).layout(),
        global_meta: counts_bytes(f.counts) + columns_of(f.global_items).layout(),
        spect_x: container_seen(f.spec_x, elem, level),
        spect_y: container_seen(f.spec_y, elem, level),
        chrom_x: container_seen(f.chrom_x, elem, level),
        chrom_y: container_seen(f.chrom_y, elem, level),
    }
}

/// What the decoder sees of a file whose metadata regions decompress to
/// the given blocks and whose containers open as the given containers.
pub proof fn lemma_opened_at(b: Seq<u8>, h: Header, g: RegionsModel, o: Opened)
    requires
        meta_plain(h.spec_codec(), h.spec_has_flag(HDR_FLAG_SPEC_META_COMP), g.spec_meta) == Ok::<
            Seq<u8>,
            DecodeError,
        >(o.spec_meta),
        meta_plain(h.spec_codec(), h.spec_has_flag(HDR_FLAG_CHROM_META_COMP), g.chrom_meta)
            == Ok::<Seq<u8>, DecodeError>(o.chrom_meta),
        meta_plain(h.spec_codec(), h.spec_has_flag(HDR_FLAG_GLOBAL_META_COMP), g.global_meta)
            == Ok::<Seq<u8>, DecodeError>(o.global_meta),
        container_model(
            b,
            h.off_container_spect_x as int,
            h.size_container_spect_x as int,
            h.block_count_spect_x,
            h.spec_codec(),
            h.compression_level,
            g.spect_x_elem,
            h.array_filter,
        ) == Ok::<ContainerModel, DecodeError>(o.spect_x),
        container_model(
            b,
            h.off_container_spect_y as int,
            h.size_container_spect_y as int,
            h.block_count_spect_y,
            h.spec_codec(),
            h.compression_level,
            g.spect_y_elem,
            h.array_filter,
        ) == Ok::<ContainerModel, DecodeError>(o.spect_y),
        container_model(
            b,
            h.off_container_chrom_x as int,
            h.size_container_chrom_x as int,
            h.block_count_chrom_x,
            h.spec_codec(),
            h.compression_level,
            g.chrom_x_elem,
            h.array_filter,
        ) == Ok::<ContainerModel, DecodeError>(o.chrom_x),
        container_model(
            b,
            h.off_container_chrom_y as int,
            h.size_container_chrom_y as int,
            h.block_count_chrom_y,
            h.spec_codec(),
            h.compression_level,
            g.chrom_y_elem,
            h.array_filter,
        ) == Ok::<ContainerModel, DecodeError>(o.chrom_y),
    ensures
        opened_spec(b, h, g) == Ok::<Opened, DecodeError>(o),
{
}

/// The three metadata regions of a written file decompress to the
/// blocks that were written.
pub proof fn lemma_metas_in_file(f: FlatModel, level: u8)
    requires
        writes(f, level),
        codec_inverts_all(f, level),
    ensures
        ({
            let h = file_header(f, level);
            let g = written_regions(f, level);
            let o = written_opened(f, level);
            &&& meta_plain(h.spec_codec(), h.spec_has_flag(HDR_FLAG_SPEC_META_COMP), g.spec_meta)
                == Ok::<Seq<u8>, DecodeError>(o.spec_meta)
            &&& meta_plain(h.spec_codec(), h.spec_has_flag(HDR_FLAG_CHROM_META_COMP), g.chrom_meta)
                == Ok::<Seq<u8>, DecodeError>(o.chrom_meta)
            &&& meta_plain(
                h.spec_codec(),
                h.spec_has_flag(HDR_FLAG_GLOBAL_META_COMP),
                g.global_meta,
            ) == Ok::<Seq<u8>, DecodeError>(o.global_meta)
        }),
{
    lemma_header_facts(f, level);
    lemma_flags(level);
    lemma_pieces_are(f, level);
}

/// Container number `k` of a written file opens as it was written.
pub proof fn lemma_container_in_file(f: FlatModel, level: u8, k: int, arrays: Seq<Seq<u8>>)
    requires
        writes(f, level),
        held(f),
        0 <= k < 4,
        arrays == (if k == 0 {
            f.spec_x
        } else if k == 1 {
            f.spec_y
        } else if k == 2 {
            f.chrom_x
        } else {
            f.chrom_y
        }),
    ensures
        container_model(
            file_bytes(f, level),
            container_off(f, level, 5 + k, blocks_for(arrays).len()) as int,
            body_pieces(f, level)[5 + k].len() as int,
            blocks_for(arrays).len() as u32,
            HDR_CODEC_ZSTD,
            level,
            elem_of(f.fmt),
            filter_of(level),
        ) == Ok::<ContainerModel, DecodeError>(container_seen(arrays, elem_of(f.fmt), level)),
{
    lemma_file_numbers(f, level);
    lemma_pieces_are(f, level);
    lemma_region_lies(f, level, 5 + k);
    lemma_container_at(file_bytes(f, level), body_start(f, level, 5 + k), arrays, elem_of(f.fmt), level);
}

/// The decoder decompresses the metadata of a written file to the
/// blocks that were written and opens its containers as they were
/// written.
pub proof fn lemma_opened_round_trip(f: FlatModel, level: u8)
    requires
        writes(f, level),
        held(f),
        codec_inverts_all(f, level),
    ensures
        opened_spec(file_bytes(f, level), file_header(f, level), written_regions(f, level))
            == Ok::<Opened, DecodeError>(written_opened(f, level)),
{
    lemma_metas_in_file(f, level);
    lemma_container_in_file(f, level, 0, f.spec_x);
    lemma_container_in_file(f, level, 1, f.spec_y);
    lemma_container_in_file(f, level, 2, f.chrom_x);
    lemma_container_in_file(f, level, 3, f.chrom_y);
    lemma_header_facts(f, level);
    lemma_flags(level);
    lemma_opened_at(
        file_bytes(f, level),
        file_header(f, level),
        written_regions(f, level),
        written_opened(f, level),
    );
}

/// The regions of the body of a file that can be written.
pub proof fn lemma_pieces_are(f: FlatModel, level: u8)
    requires
        writes(f, level),
    ensures
        ({
            let pieces = body_pieces(f, level);
            let elem = elem_of(f.fmt);
            &&& meta_stored(columns_of(f.spec_params).layout(), level) == Some(pieces[2])
            &&& meta_stored(columns_of(f.chrom_params).layout(), level) == Some(pieces[3])
            &&& meta_stored(
                counts_bytes(f.counts) + columns_of(f.global_items).layout(),
                level,
            ) == Some(pieces[4])
            &&& pieces[0] == index_piece(
                entries_of(f.spec_x, elem as int),
                entries_of(f.spec_y, elem as int),
                f.spec_x.len() as int,
            )
            &&& pieces[1] == index_piece(
                entries_of(f.chrom_x, elem as int),
                entries_of(f.chrom_y, elem as int),
                f.chrom_x.len() as int,
            )
            &&& pieces[5] == container_piece(f.spec_x, elem, level)
            &&& pieces[6] == container_piece(f.spec_y, elem, level)
            &&& pieces[7] == container_piece(f.chrom_x, elem, level)
            &&& pieces[8] == container_piece(f.chrom_y, elem, level)
            &&& container_error(f.spec_x, elem, level) is None
            &&& container_error(f.spec_y, elem, level) is None
            &&& container_error(f.chrom_x, elem, level) is None
            &&& container_error(f.chrom_y, elem, level) is None
            &&& !meta_too_large(f.spec_params)
            &&& !meta_too_large(f.chrom_params)
            &&& !meta_too_large(f.global_items)
        }),
{
    reveal(body_pieces);
}

/// Arrays that can be packed are whole numbers of elements, each holds
/// no more elements than 32 bits count, and together they hold no more
/// than 64 bits count.
pub proof fn lemma_packable(arrays: Seq<Seq<u8>>, elem: usize)
    requires
        pack_error(arrays, elem) is None,
    ensures
        0 < elem,
        whole_arrays(arrays, elem as int),
        forall|i: int| 0 <= i < arrays.len() ==> (#[trigger] arrays[i]).len() / (elem as nat)
            <= u32::MAX,
        elems_prefix(arrays, elem as int, arrays.len() as int) <= u64::MAX,
        blocks_for(arrays).len() <= u32::MAX,
{
    lemma_first_bad(arrays, elem as int, 0);
}

/// Where no array from place `i` on is bad, every array from there on is
/// whole and small, and the counts of elements stay within 64 bits.
proof fn lemma_first_bad(arrays: Seq<Seq<u8>>, elem: int, i: int)
    requires
        0 <= i,
        0 < elem,
        first_bad_array(arrays, elem, i) is None,
    ensures
        forall|k: int| i <= k < arrays.len() ==> (#[trigger] arrays[k]).len() as int % elem == 0
            && arrays[k].len() as int / elem <= u32::MAX,
        i < arrays.len() ==> elems_prefix(arrays, elem, arrays.len() as int) <= u64::MAX,
    decreases arrays.len() - i,
{
    if i < arrays.len() {
        lemma_first_bad(arrays, elem, i + 1);
    }
}

/// The blocks of a container that can be written, and what is stored for
/// them, can stand in a container.
pub proof fn lemma_writable(arrays: Seq<Seq<u8>>, elem: usize, level: u8)
    requires
        container_error(arrays, elem, level) is None,
        bytes_prefix(arrays, arrays.len() as int) <= usize::MAX,
        container_piece(arrays, elem, level).len() <= usize::MAX,
        blocks_for(arrays).len() > 0,
    ensures
        writable(
            blocks_for(arrays),
            stored_blocks(blocks_for(arrays), elem, level, filter_of(level)),
            elem,
        ),
        forall|b: int|
            0 <= b < blocks_for(arrays).len() ==> stored_form(
                #[trigger] blocks_for(arrays)[b],
                elem,
                level,
                filter_of(level),
            ) is Some,
{
    let blocks = blocks_for(arrays);
    let filter = filter_of(level);
    let stored = stored_blocks(blocks, elem, level, filter);
    let n = blocks.len() as int;
    lemma_packable(arrays, elem);
    assert forall|k: int| 0 <= k < n implies (#[trigger] blocks[k]).len() <= u64::MAX
        && blocks[k].len() % (elem as nat) == 0 && stored_form(blocks[k], elem, level, filter)
        is Some by {
        lemma_storable(blocks, elem, level, filter, n, k);
        lemma_block_sizes(arrays, BLOCK_THRESHOLD as nat, k);
    }
    crate::container_laws::lemma_directory_len(blocks, stored, n);
}

/// What the decoder makes of the bytes of an array: its elements as bit
/// patterns of the given format.
pub open spec fn bits_of(bytes: Seq<u8>, fmt: u8) -> (Seq<u32>, Seq<u64>) {
    if fmt == FMT_F32 {
        (le_u32_seq(bytes, 0, bytes.len() / 4), Seq::empty())
    } else {
        (Seq::empty(), le_u64_seq(bytes, 0, bytes.len() / 8))
    }
}

/// The number of elements of item `i` on its X axis and its two arrays,
/// as the decoder rebuilds them.
pub open spec fn decoded_arrays(
    xs: Seq<Seq<u8>>,
    ys: Seq<Seq<u8>>,
    fmt: u8,
    axis: u32,
    table: Map<Seq<u8>, Seq<char>>,
    i: int,
) -> (u32, BinaryDataArrayListModel) {
    let elem = elem_of(fmt) as nat;
    let x_len = (xs[i].len() / elem) as u32;
    let y_len = (ys[i].len() / elem) as u32;
    (
        x_len,
        array_pair(
            array_model(axis, fmt, x_len, bits_of(xs[i], fmt), table),
            array_model(ACC_INTENSITY_ARRAY, fmt, y_len, bits_of(ys[i], fmt), table),
        ),
    )
}

/// Reading array `i` of a written container through its index entry
/// gives the bytes of the array.
pub proof fn lemma_array_in_container(arrays: Seq<Seq<u8>>, elem: usize, level: u8, i: int)
    requires
        0 <= i < arrays.len(),
        container_error(arrays, elem, level) is None,
        bytes_prefix(arrays, arrays.len() as int) <= usize::MAX,
        container_piece(arrays, elem, level).len() <= usize::MAX,
        blocks_invert(arrays, elem, level),
    ensures
        ({
            let e = entry_of_array(arrays, elem as int, i);
            slice_spec(container_seen(arrays, elem, level), e.2, e.0, e.1) == Ok::<
                Seq<u8>,
                DecodeError,
            >(arrays[i])
        }),
        arrays[i].len() % (elem as nat) == 0,
        entry_of_array(arrays, elem as int, i).1 == arrays[i].len() / (elem as nat),
{
    lemma_packable(arrays, elem);
    crate::packing::lemma_places(arrays, BLOCK_THRESHOLD as nat, i);
    lemma_writable(arrays, elem, level);
    let b = packed(arrays, BLOCK_THRESHOLD as nat).places[i].block as int;
    assert(codec_inverts(
        blocks_for(arrays),
        stored_blocks(blocks_for(arrays), elem, level, filter_of(level)),
        HDR_CODEC_ZSTD,
        level,
        elem,
        filter_of(level),
        b,
    ));
    assert(stored_form(blocks_for(arrays)[b], elem, level, filter_of(level)) is Some);
    lemma_slice_round_trip(arrays, HDR_CODEC_ZSTD, level, elem, filter_of(level), i);
}

/// The decoder rebuilds the two arrays of item `i` of a written file
/// from the index and the two containers.
pub proof fn lemma_item_arrays_round_trip(
    xs: Seq<Seq<u8>>,
    ys: Seq<Seq<u8>>,
    fmt: u8,
    level: u8,
    axis: u32,
    table: Map<Seq<u8>, Seq<char>>,
    i: int,
)
    requires
        fmt == FMT_F32 || fmt == FMT_F64,
        xs.len() == ys.len(),
        0 <= i < xs.len(),
        container_error(xs, elem_of(fmt), level) is None,
        container_error(ys, elem_of(fmt), level) is None,
        bytes_prefix(xs, xs.len() as int) <= usize::MAX,
        bytes_prefix(ys, ys.len() as int) <= usize::MAX,
        container_piece(xs, elem_of(fmt), level).len() <= usize::MAX,
        container_piece(ys, elem_of(fmt), level).len() <= usize::MAX,
        blocks_invert(xs, elem_of(fmt), level),
        blocks_invert(ys, elem_of(fmt), level),
    ensures
        item_arrays(
            index_piece(
                entries_of(xs, elem_of(fmt) as int),
                entries_of(ys, elem_of(fmt) as int),
                xs.len() as int,
            ),
            container_seen(xs, elem_of(fmt), level),
            container_seen(ys, elem_of(fmt), level),
            fmt,
            fmt,
            axis,
            table,
            i,
        ) == Ok::<(u32, BinaryDataArrayListModel), DecodeError>(
            decoded_arrays(xs, ys, fmt, axis, table, i),
        ),
{
    let elem = elem_of(fmt);
    let ex = entries_of(xs, elem as int);
    let ey = entries_of(ys, elem as int);
    lemma_index_reads_back(ex, ey, xs.len() as int, i);
    lemma_array_in_container(xs, elem, level, i);
    lemma_array_in_container(ys, elem, level, i);
    assert(ex[i] == entry_of_array(xs, elem as int, i));
    assert(ey[i] == entry_of_array(ys, elem as int, i));
}

/// Decoding the global metadata that was written gives the sections of
/// the parameters that went in, as parameters come back from a block.
pub proof fn lemma_global_round_trip(
    counts: GlobalCounts,
    its: Seq<Seq<CvParamModel>>,
    table: Map<Seq<u8>, Seq<char>>,
)
    requires
        !meta_too_large(its),
        its.len() == counts.total(),
    ensures
        global_spec(
            counts_bytes(counts) + columns_of(its).layout(),
            columns_of(its).shape().meta_count,
            columns_of(its).shape().num_count,
            columns_of(its).shape().str_count,
            table,
        ) == Ok::<GlobalSectionsModel, DecodeError>(sections_of(normal_items(its, table), counts)),
{
    let vals = seq![
        counts.n_fd,
        counts.n_rpg,
        counts.n_samp,
        counts.n_inst,
        counts.n_soft,
        counts.n_dp,
        counts.n_acq,
        counts.n_cvs,
    ];
    let layout = columns_of(its).layout();
    let b = counts_bytes(counts) + layout;
    let none = Seq::<u8>::empty();
    assert(b =~= none + u32s_le_bytes(vals) + layout);
    lemma_u32s_window(none, vals, layout, 0);
    lemma_u32s_window(none, vals, layout, 1);
    lemma_u32s_window(none, vals, layout, 2);
    lemma_u32s_window(none, vals, layout, 3);
    lemma_u32s_window(none, vals, layout, 4);
    lemma_u32s_window(none, vals, layout, 5);
    lemma_u32s_window(none, vals, layout, 6);
    lemma_u32s_window(none, vals, layout, 7);
    assert(global_counts(b) == counts);
    assert(b.subrange(32, b.len() as int) =~= layout);
    lemma_meta_round_trip(its, table);
    crate::meta_laws::lemma_block_is_valid(its);
}

/// What the decoder holds of a written file before it puts the items
/// together.
pub open spec fn written_parts(f: FlatModel, level: u8, table: Map<Seq<u8>, Seq<char>>) -> Parts {
    let elem = elem_of(f.fmt);
    Parts {
        header: file_header(f, level),
        spec_index: index_piece(
            entries_of(f.spec_x, elem as int),
            entries_of(f.spec_y, elem as int),
            f.spec_x.len() as int,
        ),
        chrom_index: index_piece(
            entries_of(f.chrom_x, elem as int),
            entries_of(f.chrom_y, elem as int),
            f.chrom_x.len() as int,
        ),
        spect_x: container_seen(f.spec_x, elem, level),
        spect_y: container_seen(f.spec_y, elem, level),
        chrom_x: container_seen(f.chrom_x, elem, level),
        chrom_y: container_seen(f.chrom_y, elem, level),
        spec_params: normal_items(f.spec_params, table),
        chrom_params: normal_items(f.chrom_params, table),
        global: sections_of(normal_items(f.global_items, table), f.counts),
    }
}

/// The parts that the decoder makes of metadata blocks that decode to
/// the given parameters.
pub proof fn lemma_blocks_at(
    h: Header,
    g: RegionsModel,
    o: Opened,
    table: Map<Seq<u8>, Seq<char>>,
    sp: Seq<Seq<CvParamModel>>,
    cp: Seq<Seq<CvParamModel>>,
    gl: GlobalSectionsModel,
)
    requires
        meta_block_spec(
            o.spec_meta,
            (MetaShape {
                item_count: h.spectrum_count,
                meta_count: h.spec_meta_count,
                num_count: h.spec_num_count,
                str_count: h.spec_str_count,
            }),
            table,
        ) == Ok::<Seq<Seq<CvParamModel>>, DecodeError>(sp),
        meta_block_spec(
            o.chrom_meta,
            (MetaShape {
                item_count: h.chrom_count,
                meta_count: h.chrom_meta_count,
                num_count: h.chrom_num_count,
                str_count: h.chrom_str_count,
            }),
            table,
        ) == Ok::<Seq<Seq<CvParamModel>>, DecodeError>(cp),
        global_spec(
            o.global_meta,
            h.global_meta_count,
            h.global_num_count,
            h.global_str_count,
            table,
        ) == Ok::<GlobalSectionsModel, DecodeError>(gl),
    ensures
        blocks_spec(h, g, o, table) == Ok::<Parts, DecodeError>(
            Parts {
                header: h,
                spec_index: g.spec_index,
                chrom_index: g.chrom_index,
                spect_x: o.spect_x,
                spect_y: o.spect_y,
                chrom_x: o.chrom_x,
                chrom_y: o.chrom_y,
                spec_params: sp,
                chrom_params: cp,
                global: gl,
            },
        ),
{
}

/// The decoder decodes the three metadata blocks of a written file to
/// the parameters that went in, as parameters come back from a block.
pub proof fn lemma_blocks_round_trip(f: FlatModel, level: u8, table: Map<Seq<u8>, Seq<char>>)
    requires
        writes(f, level),
    ensures
        blocks_spec(
            file_header(f, level),
            written_regions(f, level),
            written_opened(f, level),
            table,
        ) == Ok::<Parts, DecodeError>(written_parts(f, level, table)),
{
    let h = file_header(f, level);
    lemma_file_numbers(f, level);
    lemma_header_facts(f, level);
    lemma_pieces_are(f, level);
    lemma_meta_round_trip(f.spec_params, table);
    lemma_meta_round_trip(f.chrom_params, table);
    lemma_global_round_trip(f.counts, f.global_items, table);
    crate::meta_laws::lemma_block_is_valid(f.spec_params);
    crate::meta_laws::lemma_block_is_valid(f.chrom_params);
    assert(columns_of(f.spec_params).shape() == (MetaShape {
        item_count: h.spectrum_count,
        meta_count: h.spec_meta_count,
        num_count: h.spec_num_count,
        str_count: h.spec_str_count,
    }));
    assert(columns_of(f.chrom_params).shape() == (MetaShape {
        item_count: h.chrom_count,
        meta_count: h.chrom_meta_count,
        num_count: h.chrom_num_count,
        str_count: h.chrom_str_count,
    }));
    lemma_blocks_at(
        h,
        written_regions(f, level),
        written_opened(f, level),
        table,
        normal_items(f.spec_params, table),
        normal_items(f.chrom_params, table),
        sections_of(normal_items(f.global_items, table), f.counts),
    );
}

/// The spectra that the decoder rebuilds from a written file.
pub open spec fn decoded_spectra(f: FlatModel, table: Map<Seq<u8>, Seq<char>>, n: int) -> Seq<
    SpectrumModel,
> {
    Seq::new(
        n as nat,
        |i: int|
            {
                let a = decoded_arrays(f.spec_x, f.spec_y, f.fmt, ACC_MZ_ARRAY, table, i);
                spectrum_model(i, normal_params(f.spec_params[i], table), a.0, a.1)
            },
    )
}

/// The chromatograms that the decoder rebuilds from a written file.
pub open spec fn decoded_chromatograms(f: FlatModel, table: Map<Seq<u8>, Seq<char>>, n: int)
    -> Seq<ChromatogramModel> {
    Seq::new(
        n as nat,
        |i: int|
            {
                let a = decoded_arrays(f.chrom_x, f.chrom_y, f.fmt, ACC_TIME_ARRAY, table, i);
                chromatogram_model(i, normal_params(f.chrom_params[i], table), a.0, a.1)
            },
    )
}

/// The decoder reads the arrays and the parameters of spectrum `i` of a
/// written file.
proof fn lemma_spectrum_step(f: FlatModel, level: u8, table: Map<Seq<u8>, Seq<char>>, i: int)
    requires
        writes(f, level),
        held(f),
        codec_inverts_all(f, level),
        0 <= i < f.spec_x.len(),
    ensures
        ({
            let p = written_parts(f, level, table);
            &&& item_arrays(
                p.spec_index,
                p.spect_x,
                p.spect_y,
                p.header.spect_x_fmt,
                p.header.spect_y_fmt,
                ACC_MZ_ARRAY,
                table,
                i,
            ) == Ok::<(u32, BinaryDataArrayListModel), DecodeError>(
                decoded_arrays(f.spec_x, f.spec_y, f.fmt, ACC_MZ_ARRAY, table, i),
            )
            &&& p.spec_params[i] == normal_params(f.spec_params[i], table)
        }),
{
    lemma_file_numbers(f, level);
    lemma_header_facts(f, level);
    lemma_pieces_are(f, level);
    lemma_region_lies(f, level, 5);
    lemma_region_lies(f, level, 6);
    lemma_item_arrays_round_trip(f.spec_x, f.spec_y, f.fmt, level, ACC_MZ_ARRAY, table, i);
}

/// The decoder reads the arrays and the parameters of chromatogram `i`
/// of a written file.
proof fn lemma_chromatogram_step(f: FlatModel, level: u8, table: Map<Seq<u8>, Seq<char>>, i: int)
    requires
        writes(f, level),
        held(f),
        codec_inverts_all(f, level),
        0 <= i < f.chrom_x.len(),
    ensures
        ({
            let p = written_parts(f, level, table);
            &&& item_arrays(
                p.chrom_index,
                p.chrom_x,
                p.chrom_y,
                p.header.chrom_x_fmt,
                p.header.chrom_y_fmt,
                ACC_TIME_ARRAY,
                table,
                i,
            ) == Ok::<(u32, BinaryDataArrayListModel), DecodeError>(
                decoded_arrays(f.chrom_x, f.chrom_y, f.fmt, ACC_TIME_ARRAY, table, i),
            )
            &&& p.chrom_params[i] == normal_params(f.chrom_params[i], table)
        }),
{
    lemma_file_numbers(f, level);
    lemma_header_facts(f, level);
    lemma_pieces_are(f, level);
    lemma_region_lies(f, level, 7);
    lemma_region_lies(f, level, 8);
    lemma_item_arrays_round_trip(f.chrom_x, f.chrom_y, f.fmt, level, ACC_TIME_ARRAY, table, i);
}

/// The decoder rebuilds the first `n` spectra of a written file.
pub proof fn lemma_spectra_round_trip(
    f: FlatModel,
    level: u8,
    table: Map<Seq<u8>, Seq<char>>,
    n: int,
)
    requires
        writes(f, level),
        held(f),
        codec_inverts_all(f, level),
        0 <= n <= f.spec_x.len(),
    ensures
        spectra_spec(written_parts(f, level, table), table, n) == Ok::<
            Seq<SpectrumModel>,
            DecodeError,
        >(decoded_spectra(f, table, n)),
    decreases n,
{
    if n > 0 {
        lemma_spectra_round_trip(f, level, table, n - 1);
        lemma_spectrum_step(f, level, table, n - 1);
        assert(decoded_spectra(f, table, n - 1).push(decoded_spectra(f, table, n)[n - 1])
            =~= decoded_spectra(f, table, n));
    } else {
        assert(decoded_spectra(f, table, 0) =~= Seq::<SpectrumModel>::empty());
    }
}

/// The decoder rebuilds the first `n` chromatograms of a written file.
pub proof fn lemma_chromatograms_round_trip(
    f: FlatModel,
    level: u8,
    table: Map<Seq<u8>, Seq<char>>,
    n: int,
)
    requires
        writes(f, level),
        held(f),
        codec_inverts_all(f, level),
        0 <= n <= f.chrom_x.len(),
    ensures
        chromatograms_spec(written_parts(f, level, table), table, n) == Ok::<
            Seq<ChromatogramModel>,
            DecodeError,
        >(decoded_chromatograms(f, table, n)),
    decreases n,
{
    if n > 0 {
        lemma_chromatograms_round_trip(f, level, table, n - 1);
        lemma_chromatogram_step(f, level, table, n - 1);
        assert(decoded_chromatograms(f, table, n - 1).push(
            decoded_chromatograms(f, table, n)[n - 1],
        ) =~= decoded_chromatograms(f, table, n));
    } else {
        assert(decoded_chromatograms(f, table, 0) =~= Seq::<ChromatogramModel>::empty());
    }
}

/// The document that the decoder rebuilds from the file that holds `f`.
pub open spec fn decoded_flat(f: FlatModel, level: u8, table: Map<Seq<u8>, Seq<char>>)
    -> MzMLModel {
    document_of(
        written_parts(f, level, table),
        decoded_spectra(f, table, f.spec_x.len() as int),
        decoded_chromatograms(f, table, f.chrom_x.len() as int),
    )
}

/// The document that the decoder gives for bytes whose header, regions,
/// opened parts, metadata and items are known.
pub proof fn lemma_decode_at(
    b: Seq<u8>,
    table: Map<Seq<u8>, Seq<char>>,
    h: Header,
    g: RegionsModel,
    o: Opened,
    p: Parts,
    spectra: Seq<SpectrumModel>,
    chromatograms: Seq<ChromatogramModel>,
)
    requires
        header_spec(b) == Ok::<Header, DecodeError>(h),
        regions_spec(b, h) == Ok::<RegionsModel, DecodeError>(g),
        opened_spec(b, h, g) == Ok::<Opened, DecodeError>(o),
        blocks_spec(h, g, o, table) == Ok::<Parts, DecodeError>(p),
        spectra_spec(p, table, p.header.spectrum_count as int) == Ok::<
            Seq<SpectrumModel>,
            DecodeError,
        >(spectra),
        chromatograms_spec(p, table, p.header.chrom_count as int) == Ok::<
            Seq<ChromatogramModel>,
            DecodeError,
        >(chromatograms),
    ensures
        decode_spec(b, table) == Ok::<MzMLModel, DecodeError>(
            document_of(p, spectra, chromatograms),
        ),
{
}

/// The parts of a written file carry its header, and the header counts
/// its items.
pub proof fn lemma_parts_header(f: FlatModel, level: u8, table: Map<Seq<u8>, Seq<char>>)
    requires
        writes(f, level),
    ensures
        written_parts(f, level, table).header == file_header(f, level),
        written_parts(f, level, table).header.spectrum_count == f.spec_x.len(),
        written_parts(f, level, table).header.chrom_count == f.chrom_x.len(),
{
    lemma_header_facts(f, level);
    lemma_file_numbers(f, level);
}

/// Decoding the file that the encoder writes for `f` gives the document
/// that holds `f`: every item has the parameters that went in, as
/// parameters come back from a block, and its two arrays hold the
/// elements that went in, bit for bit.
///
/// This holds outright for files written at level zero.  For compressed
/// files it holds wherever the codec gives back what it compressed.
pub proof fn lemma_file_round_trip(f: FlatModel, level: u8, table: Map<Seq<u8>, Seq<char>>)
    requires
        writes(f, level),
        held(f),
        codec_inverts_all(f, level),
    ensures
        decode_spec(file_bytes(f, level), table) == Ok::<MzMLModel, DecodeError>(
            decoded_flat(f, level, table),
        ),
{
    lemma_regions_round_trip(f, level);
    lemma_opened_round_trip(f, level);
    lemma_blocks_round_trip(f, level, table);
    lemma_spectra_round_trip(f, level, table, f.spec_x.len() as int);
    lemma_chromatograms_round_trip(f, level, table, f.chrom_x.len() as int);
    lemma_parts_header(f, level, table);
    lemma_decode_at(
        file_bytes(f, level),
        table,
        file_header(f, level),
        written_regions(f, level),
        written_opened(f, level),
        written_parts(f, level, table),
        decoded_spectra(f, table, f.spec_x.len() as int),
        decoded_chromatograms(f, table, f.chrom_x.len() as int),
    );
}

} // verus!
