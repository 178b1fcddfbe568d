//! What holds of the header of every file that the encoder writes.

use vstd::prelude::*;
use crate::codec::HDR_CODEC_ZSTD;
use crate::container::{container_model, ContainerModel};
use crate::error::DecodeError;
use crate::file_laws::{
    container_seen, held, lemma_container_in_file, lemma_file_numbers, lemma_header_facts,
    lemma_regions_round_trip, writes,
};
use crate::file_writer::{
    blocks_for, body_pieces, body_start, elem_of, file_bytes, file_header, filter_of, FlatModel,
};
use crate::header::{has_magic, Header, HEADER_SIZE, header_spec};
use crate::meta_writer::joined;

verus! {

/// Whether a container lies inside a file of `len` bytes, behind the
/// header: one without blocks has the offset zero.
pub open spec fn container_lies(off: u64, size: u64, blocks: u32, len: nat) -> bool {
    if blocks == 0 {
        off == 0
    } else {
        HEADER_SIZE <= off && off + size <= len
    }
}

/// The arrays of container `k` of a file: X and Y of the spectra, then X
/// and Y of the chromatograms.
pub open spec fn arrays_of(f: FlatModel, k: int) -> Seq<Seq<u8>> {
    if k == 0 {
        f.spec_x
    } else if k == 1 {
        f.spec_y
    } else if k == 2 {
        f.chrom_x
    } else {
        f.chrom_y
    }
}

/// The offset, the size and the block count that a header gives for
/// container `k`.
pub open spec fn container_fields(h: Header, k: int) -> (u64, u64, u32) {
    if k == 0 {
        (h.off_container_spect_x, h.size_container_spect_x, h.block_count_spect_x)
    } else if k == 1 {
        (h.off_container_spect_y, h.size_container_spect_y, h.block_count_spect_y)
    } else if k == 2 {
        (h.off_container_chrom_x, h.size_container_chrom_x, h.block_count_chrom_x)
    } else {
        (h.off_container_chrom_y, h.size_container_chrom_y, h.block_count_chrom_y)
    }
}

/// One more piece adds its bytes at the end.
proof fn lemma_joined_step(pieces: Seq<Seq<u8>>, j: int)
    requires
        j >= 0,
    ensures
        joined(pieces, j + 1) == joined(pieces, j) + pieces[j],
        joined(pieces, j + 1).len() == joined(pieces, j).len() + pieces[j].len(),
{
}

/// Every file that the encoder writes starts with the magic tag and the
/// byte zero for the byte order, and its header is read without error.
/// The offsets of the two indices and of the three metadata regions lie
/// behind the header and inside the file, and they do not decrease in
/// the order in which the regions are written.  The counts of items are
/// those of the input.
pub proof fn lemma_header_in_order(f: FlatModel, level: u8)
    requires
        writes(f, level),
    ensures
        ({
            let b = file_bytes(f, level);
            let h = file_header(f, level);
            &&& has_magic(b)
            &&& b[4] == 0
            &&& header_spec(b) == Ok::<Header, DecodeError>(h)
            &&& HEADER_SIZE <= h.off_spec_index <= h.off_chrom_index <= h.off_spec_meta
                <= h.off_chrom_meta <= h.off_global_meta <= b.len()
            &&& h.off_chrom_index - h.off_spec_index == 32 * h.spectrum_count
            &&& h.off_spec_meta - h.off_chrom_index == 32 * h.chrom_count
            &&& h.spectrum_count == f.spec_x.len()
            &&& h.chrom_count == f.chrom_x.len()
        }),
{
    lemma_regions_round_trip(f, level);
    lemma_header_facts(f, level);
    lemma_file_numbers(f, level);
    let pieces = body_pieces(f, level);
    lemma_joined_step(pieces, 0);
    lemma_joined_step(pieces, 1);
    assert(body_start(f, level, 0) <= body_start(f, level, 1));
    assert(body_start(f, level, 1) <= body_start(f, level, 2));
    assert(body_start(f, level, 2) <= body_start(f, level, 3));
    assert(body_start(f, level, 3) <= body_start(f, level, 4));
    assert(body_start(f, level, 4) <= body_start(f, level, 9));
}

/// Container `k` of every file that the encoder writes lies inside the
/// file and behind the global metadata wherever it has a block, and a
/// later container does not start before an earlier one ends.  The block
/// count that the header gives for it is the number of blocks that its
/// arrays were packed into, and the container opens with a directory of
/// that many entries.
pub proof fn lemma_container_in_order(f: FlatModel, level: u8, k: int)
    requires
        writes(f, level),
        held(f),
        0 <= k < 4,
    ensures
        ({
            let b = file_bytes(f, level);
            let h = file_header(f, level);
            let c = container_fields(h, k);
            let opened = container_model(
                b,
                c.0 as int,
                c.1 as int,
                c.2,
                HDR_CODEC_ZSTD,
                level,
                elem_of(f.fmt),
                filter_of(level),
            );
            &&& container_lies(c.0, c.1, c.2, b.len())
            &&& c.2 > 0 ==> h.off_global_meta <= c.0
            &&& c.2 == blocks_for(arrays_of(f, k)).len()
            &&& opened is Ok
            &&& opened.unwrap().dir.len() == c.2
            &&& forall|j: int|
                k < j < 4 && c.2 > 0 && container_fields(h, j).2 > 0 ==> c.0 + c.1
                    <= #[trigger] container_fields(h, j).0
        }),
{
    lemma_header_facts(f, level);
    lemma_file_numbers(f, level);
    lemma_container_in_file(f, level, k, arrays_of(f, k));
    let pieces = body_pieces(f, level);
    lemma_joined_step(pieces, 5);
    lemma_joined_step(pieces, 6);
    lemma_joined_step(pieces, 7);
    lemma_joined_step(pieces, 8);
    assert(body_start(f, level, 4) <= body_start(f, level, 5));
    assert(body_start(f, level, 5) <= body_start(f, level, 6));
    assert(body_start(f, level, 6) <= body_start(f, level, 7));
    assert(body_start(f, level, 7) <= body_start(f, level, 8));
    assert(body_start(f, level, 8) <= body_start(f, level, 9));
    let seen: ContainerModel = container_seen(arrays_of(f, k), elem_of(f.fmt), level);
    assert(seen.dir.len() == blocks_for(arrays_of(f, k)).len());
}

} // verus!
