//! Writing the fixed header.

use vstd::prelude::*;
use crate::bytes::{
    le_u32, le_u64, lemma_byte_window, lemma_u32s_round_trip, lemma_u32s_window,
    lemma_u64s_round_trip, lemma_u64s_window, u32s_le_bytes, u32s_to_le, u64s_le_bytes, u64s_to_le,
};
use crate::error::DecodeError;
use crate::header::{has_magic, Header, header_fields, HEADER_SIZE, header_spec};
use crate::meta_writer::{joined, lemma_joined_splits, rest_from};

verus! {

/// The first eight bytes of a header: the magic tag `B000`, the
/// endianness byte and three reserved bytes.
pub open spec fn header_front() -> Seq<u8> {
    seq![66u8, 48u8, 48u8, 48u8, 0u8, 0u8, 0u8, 0u8]
}

/// The thirteen 64-bit fields of a header, in the order in which they
/// stand.
pub open spec fn header_u64s(h: Header) -> Seq<u64> {
    seq![
        h.off_spec_index,
        h.off_chrom_index,
        h.off_spec_meta,
        h.off_chrom_meta,
        h.off_global_meta,
        h.size_container_spect_x,
        h.off_container_spect_x,
        h.size_container_spect_y,
        h.off_container_spect_y,
        h.size_container_chrom_x,
        h.off_container_chrom_x,
        h.size_container_chrom_y,
        h.off_container_chrom_y,
    ]
}

/// The fifteen 32-bit fields of a header, in the order in which they
/// stand.
pub open spec fn header_u32s(h: Header) -> Seq<u32> {
    seq![
        h.spectrum_count,
        h.chrom_count,
        h.spec_meta_count,
        h.spec_num_count,
        h.spec_str_count,
        h.chrom_meta_count,
        h.chrom_num_count,
        h.chrom_str_count,
        h.global_meta_count,
        h.global_num_count,
        h.global_str_count,
        h.block_count_spect_x,
        h.block_count_spect_y,
        h.block_count_chrom_x,
        h.block_count_chrom_y,
    ]
}

/// The seven single-byte fields of a header, in the order in which they
/// stand.
pub open spec fn header_flags(h: Header) -> Seq<u8> {
    seq![
        h.codec_flags,
        h.chrom_x_fmt,
        h.chrom_y_fmt,
        h.spect_x_fmt,
        h.spect_y_fmt,
        h.compression_level,
        h.array_filter,
    ]
}

/// The thirteen reserved bytes at the end of a header.
pub open spec fn header_back() -> Seq<u8> {
    Seq::new(13, |i: int| 0u8)
}

/// The five parts of a header.
pub open spec fn header_parts(h: Header) -> Seq<Seq<u8>> {
    seq![
        header_front(),
        u64s_le_bytes(header_u64s(h)),
        u32s_le_bytes(header_u32s(h)),
        header_flags(h),
        header_back(),
    ]
}

/// The 192 bytes of a header.
pub open spec fn header_bytes(h: Header) -> Seq<u8> {
    joined(header_parts(h), 5)
}

/// Writes a header.
pub fn write_header(h: &Header) -> (out: Vec<u8>)
    ensures
        out@ == header_bytes(*h),
        out@.len() == HEADER_SIZE,
{
    let ghost parts = header_parts(*h);
    let front: [u8; 8] = [66, 48, 48, 48, 0, 0, 0, 0];
    let mut out: Vec<u8> = Vec::with_capacity(HEADER_SIZE);
    out.extend_from_slice(front.as_slice());
    assert(out@ =~= joined(parts, 1)) by {
        assert(front@ =~= header_front());
        assert(joined(parts, 0) =~= Seq::<u8>::empty());
    }
    let wide: [u64; 13] = [
        h.off_spec_index,
        h.off_chrom_index,
        h.off_spec_meta,
        h.off_chrom_meta,
        h.off_global_meta,
        h.size_container_spect_x,
        h.off_container_spect_x,
        h.size_container_spect_y,
        h.off_container_spect_y,
        h.size_container_chrom_x,
        h.off_container_chrom_x,
        h.size_container_chrom_y,
        h.off_container_chrom_y,
    ];
    assert(wide@ =~= header_u64s(*h));
    let wide_bytes = u64s_to_le(wide.as_slice());
    out.extend_from_slice(wide_bytes.as_slice());
    assert(out@ == joined(parts, 2));
    let counts: [u32; 15] = [
        h.spectrum_count,
        h.chrom_count,
        h.spec_meta_count,
        h.spec_num_count,
        h.spec_str_count,
        h.chrom_meta_count,
        h.chrom_num_count,
        h.chrom_str_count,
        h.global_meta_count,
        h.global_num_count,
        h.global_str_count,
        h.block_count_spect_x,
        h.block_count_spect_y,
        h.block_count_chrom_x,
        h.block_count_chrom_y,
    ];
    assert(counts@ =~= header_u32s(*h));
    let count_bytes = u32s_to_le(counts.as_slice());
    out.extend_from_slice(count_bytes.as_slice());
    assert(out@ == joined(parts, 3));
    let flags: [u8; 7] = [
        h.codec_flags,
        h.chrom_x_fmt,
        h.chrom_y_fmt,
        h.spect_x_fmt,
        h.spect_y_fmt,
        h.compression_level,
        h.array_filter,
    ];
    assert(flags@ =~= header_flags(*h));
    out.extend_from_slice(flags.as_slice());
    assert(out@ == joined(parts, 4));
    let back: [u8; 13] = [0, 0, 0, 0, 0, 0, 0, 0, 0, 0, 0, 0, 0];
    assert(back@ =~= header_back());
    out.extend_from_slice(back.as_slice());
    proof {
        lemma_header_len(*h);
    }
    out
}

/// A header takes 192 bytes, and its parts start at the bytes 8, 112,
/// 172 and 179.
pub proof fn lemma_header_len(h: Header)
    ensures
        joined(header_parts(h), 1).len() == 8,
        joined(header_parts(h), 2).len() == 112,
        joined(header_parts(h), 3).len() == 172,
        joined(header_parts(h), 4).len() == 179,
        header_bytes(h).len() == HEADER_SIZE,
{
    reveal_with_fuel(joined, 6);
    lemma_u64s_round_trip(header_u64s(h));
    lemma_u32s_round_trip(header_u32s(h));
}

/// The 64-bit field number `k` of a written header is read back.
proof fn lemma_wide_field(h: Header, more: Seq<u8>, k: int)
    requires
        0 <= k < 13,
    ensures
        le_u64(header_bytes(h) + more, 8 + 8 * k) == header_u64s(h)[k],
{
    let parts = header_parts(h);
    lemma_header_len(h);
    lemma_joined_splits(parts, 1);
    let a = joined(parts, 1);
    let b = u64s_le_bytes(header_u64s(h));
    let c = rest_from(parts, 2);
    assert(header_bytes(h) + more =~= a + b + (c + more));
    lemma_u64s_window(a, header_u64s(h), c + more, k);
}

/// The 32-bit field number `k` of a written header is read back.
proof fn lemma_count_field(h: Header, more: Seq<u8>, k: int)
    requires
        0 <= k < 15,
    ensures
        le_u32(header_bytes(h) + more, 112 + 4 * k) == header_u32s(h)[k],
{
    let parts = header_parts(h);
    lemma_header_len(h);
    lemma_joined_splits(parts, 2);
    let a = joined(parts, 2);
    let b = u32s_le_bytes(header_u32s(h));
    let c = rest_from(parts, 3);
    assert(header_bytes(h) + more =~= a + b + (c + more));
    lemma_u32s_window(a, header_u32s(h), c + more, k);
}

/// The single-byte field number `k` of a written header is read back, and
/// so are the first eight bytes.
proof fn lemma_flag_field(h: Header, more: Seq<u8>, k: int)
    requires
        0 <= k < 7,
    ensures
        (header_bytes(h) + more)[172 + k] == header_flags(h)[k],
        (header_bytes(h) + more).subrange(0, 8) == header_front(),
{
    let parts = header_parts(h);
    lemma_header_len(h);
    lemma_joined_splits(parts, 3);
    let a = joined(parts, 3);
    let b = header_flags(h);
    let c = rest_from(parts, 4);
    assert(header_bytes(h) + more =~= a + b + (c + more));
    lemma_byte_window(a, b, c + more, k);
    lemma_joined_splits(parts, 0);
    assert(joined(parts, 0) =~= Seq::<u8>::empty());
    assert((header_bytes(h) + more).subrange(0, 8) =~= header_front());
}

/// Parsing a written header gives the header back, whatever follows it.
pub proof fn lemma_header_round_trip(h: Header, more: Seq<u8>)
    ensures
        header_bytes(h).len() == HEADER_SIZE,
        has_magic(header_bytes(h) + more),
        (header_bytes(h) + more)[4] == 0,
        header_spec(header_bytes(h) + more) == Ok::<Header, DecodeError>(h),
{
    let b = header_bytes(h) + more;
    lemma_header_len(h);
    lemma_wide_field(h, more, 0);
    lemma_wide_field(h, more, 1);
    lemma_wide_field(h, more, 2);
    lemma_wide_field(h, more, 3);
    lemma_wide_field(h, more, 4);
    lemma_wide_field(h, more, 5);
    lemma_wide_field(h, more, 6);
    lemma_wide_field(h, more, 7);
    lemma_wide_field(h, more, 8);
    lemma_wide_field(h, more, 9);
    lemma_wide_field(h, more, 10);
    lemma_wide_field(h, more, 11);
    lemma_wide_field(h, more, 12);
    lemma_count_field(h, more, 0);
    lemma_count_field(h, more, 1);
    lemma_count_field(h, more, 2);
    lemma_count_field(h, more, 3);
    lemma_count_field(h, more, 4);
    lemma_count_field(h, more, 5);
    lemma_count_field(h, more, 6);
    lemma_count_field(h, more, 7);
    lemma_count_field(h, more, 8);
    lemma_count_field(h, more, 9);
    lemma_count_field(h, more, 10);
    lemma_count_field(h, more, 11);
    lemma_count_field(h, more, 12);
    lemma_count_field(h, more, 13);
    lemma_count_field(h, more, 14);
    lemma_flag_field(h, more, 0);
    lemma_flag_field(h, more, 1);
    lemma_flag_field(h, more, 2);
    lemma_flag_field(h, more, 3);
    lemma_flag_field(h, more, 4);
    lemma_flag_field(h, more, 5);
    lemma_flag_field(h, more, 6);
    let f = b.subrange(0, 8);
    assert(b[0] == f[0] && b[1] == f[1] && b[2] == f[2] && b[3] == f[3] && b[4] == f[4]);
    assert(header_fields(b) == h);
}

} // verus!
