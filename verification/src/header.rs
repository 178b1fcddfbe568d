//! The fixed 192-byte header and the per-item index.

use vstd::prelude::*;
use crate::bytes::{in_bounds, le_u32, le_u32_at, le_u64, le_u64_at};
use crate::error::DecodeError;

verus! {

/// The size of the header in bytes.
pub const HEADER_SIZE: usize = 192;

/// The size of one index entry in bytes.
pub const INDEX_ENTRY_SIZE: usize = 32;

/// The bits of the codec flags that name the codec.
pub const HDR_CODEC_MASK: u8 = 0x0F;

/// The codec flag that marks the spectrum metadata as compressed.
pub const HDR_FLAG_SPEC_META_COMP: u8 = 0x10;

/// The codec flag that marks the chromatogram metadata as compressed.
pub const HDR_FLAG_CHROM_META_COMP: u8 = 0x20;

/// The codec flag that marks the global metadata as compressed.
pub const HDR_FLAG_GLOBAL_META_COMP: u8 = 0x40;

/// Array filter code: blocks hold interleaved elements.
pub const ARRAY_FILTER_NONE: u8 = 0;

/// Array filter code: blocks hold one plane per byte position.
pub const ARRAY_FILTER_BYTE_SHUFFLE: u8 = 1;

/// Element format code of 32-bit floats.
pub const FMT_F32: u8 = 1;

/// Element format code of 64-bit floats.
pub const FMT_F64: u8 = 2;

/// The fields of the header.  Offsets count bytes from the start of the
/// file.
#[derive(Clone, Copy, Debug, PartialEq, Eq)]
pub struct Header {
    pub off_spec_index: u64,
    pub off_chrom_index: u64,
    pub off_spec_meta: u64,
    pub off_chrom_meta: u64,
    pub off_global_meta: u64,
    pub size_container_spect_x: u64,
    pub off_container_spect_x: u64,
    pub size_container_spect_y: u64,
    pub off_container_spect_y: u64,
    pub size_container_chrom_x: u64,
    pub off_container_chrom_x: u64,
    pub size_container_chrom_y: u64,
    pub off_container_chrom_y: u64,
    pub spectrum_count: u32,
    pub chrom_count: u32,
    pub spec_meta_count: u32,
    pub spec_num_count: u32,
    pub spec_str_count: u32,
    pub chrom_meta_count: u32,
    pub chrom_num_count: u32,
    pub chrom_str_count: u32,
    pub global_meta_count: u32,
    pub global_num_count: u32,
    pub global_str_count: u32,
    pub block_count_spect_x: u32,
    pub block_count_spect_y: u32,
    pub block_count_chrom_x: u32,
    pub block_count_chrom_y: u32,
    pub codec_flags: u8,
    pub chrom_x_fmt: u8,
    pub chrom_y_fmt: u8,
    pub spect_x_fmt: u8,
    pub spect_y_fmt: u8,
    pub compression_level: u8,
    pub array_filter: u8,
}

/// The header fields as they stand in the first 192 bytes.
pub open spec fn header_fields(b: Seq<u8>) -> Header {
    Header {
        off_spec_index: le_u64(b, 8),
        off_chrom_index: le_u64(b, 16),
        off_spec_meta: le_u64(b, 24),
        off_chrom_meta: le_u64(b, 32),
        off_global_meta: le_u64(b, 40),
        size_container_spect_x: le_u64(b, 48),
        off_container_spect_x: le_u64(b, 56),
        size_container_spect_y: le_u64(b, 64),
        off_container_spect_y: le_u64(b, 72),
        size_container_chrom_x: le_u64(b, 80),
        off_container_chrom_x: le_u64(b, 88),
        size_container_chrom_y: le_u64(b, 96),
        off_container_chrom_y: le_u64(b, 104),
        spectrum_count: le_u32(b, 112),
        chrom_count: le_u32(b, 116),
        spec_meta_count: le_u32(b, 120),
        spec_num_count: le_u32(b, 124),
        spec_str_count: le_u32(b, 128),
        chrom_meta_count: le_u32(b, 132),
        chrom_num_count: le_u32(b, 136),
        chrom_str_count: le_u32(b, 140),
        global_meta_count: le_u32(b, 144),
        global_num_count: le_u32(b, 148),
        global_str_count: le_u32(b, 152),
        block_count_spect_x: le_u32(b, 156),
        block_count_spect_y: le_u32(b, 160),
        block_count_chrom_x: le_u32(b, 164),
        block_count_chrom_y: le_u32(b, 168),
        codec_flags: b[172],
        chrom_x_fmt: b[173],
        chrom_y_fmt: b[174],
        spect_x_fmt: b[175],
        spect_y_fmt: b[176],
        compression_level: b[177],
        array_filter: b[178],
    }
}

/// Whether the bytes start with the magic tag `B000`.
pub open spec fn has_magic(b: Seq<u8>) -> bool {
    b.len() >= 4 && b[0] == 66 && b[1] == 48 && b[2] == 48 && b[3] == 48
}

/// What parsing the header gives.
pub open spec fn header_spec(b: Seq<u8>) -> Result<Header, DecodeError> {
    if b.len() < HEADER_SIZE {
        Err(DecodeError::ShortHeader)
    } else if !has_magic(b) {
        Err(DecodeError::WrongMagic)
    } else if b[4] != 0 {
        Err(DecodeError::WrongEndianness)
    } else {
        Ok(header_fields(b))
    }
}

/// Parses the header at the start of a file.
pub fn parse_header(bytes: &[u8]) -> (r: Result<Header, DecodeError>)
    ensures
        r == header_spec(bytes@),
{
    if bytes.len() < HEADER_SIZE {
        return Err(DecodeError::ShortHeader);
    }
    if bytes[0] != 66 || bytes[1] != 48 || bytes[2] != 48 || bytes[3] != 48 {
        return Err(DecodeError::WrongMagic);
    }
    if bytes[4] != 0 {
        return Err(DecodeError::WrongEndianness);
    }
    Ok(
        Header {
            off_spec_index: le_u64_at(bytes, 8),
            off_chrom_index: le_u64_at(bytes, 16),
            off_spec_meta: le_u64_at(bytes, 24),
            off_chrom_meta: le_u64_at(bytes, 32),
            off_global_meta: le_u64_at(bytes, 40),
            size_container_spect_x: le_u64_at(bytes, 48),
            off_container_spect_x: le_u64_at(bytes, 56),
            size_container_spect_y: le_u64_at(bytes, 64),
            off_container_spect_y: le_u64_at(bytes, 72),
            size_container_chrom_x: le_u64_at(bytes, 80),
            off_container_chrom_x: le_u64_at(bytes, 88),
            size_container_chrom_y: le_u64_at(bytes, 96),
            off_container_chrom_y: le_u64_at(bytes, 104),
            spectrum_count: le_u32_at(bytes, 112),
            chrom_count: le_u32_at(bytes, 116),
            spec_meta_count: le_u32_at(bytes, 120),
            spec_num_count: le_u32_at(bytes, 124),
            spec_str_count: le_u32_at(bytes, 128),
            chrom_meta_count: le_u32_at(bytes, 132),
            chrom_num_count: le_u32_at(bytes, 136),
            chrom_str_count: le_u32_at(bytes, 140),
            global_meta_count: le_u32_at(bytes, 144),
            global_num_count: le_u32_at(bytes, 148),
            global_str_count: le_u32_at(bytes, 152),
            block_count_spect_x: le_u32_at(bytes, 156),
            block_count_spect_y: le_u32_at(bytes, 160),
            block_count_chrom_x: le_u32_at(bytes, 164),
            block_count_chrom_y: le_u32_at(bytes, 168),
            codec_flags: bytes[172],
            chrom_x_fmt: bytes[173],
            chrom_y_fmt: bytes[174],
            spect_x_fmt: bytes[175],
            spect_y_fmt: bytes[176],
            compression_level: bytes[177],
            array_filter: bytes[178],
        },
    )
}

impl Header {
    /// The codec code in the low nibble of the codec flags.
    pub open spec fn spec_codec(&self) -> u8 {
        self.codec_flags & HDR_CODEC_MASK
    }

    /// Whether the codec flags carry the given flag bit.
    pub open spec fn spec_has_flag(&self, flag: u8) -> bool {
        self.codec_flags & flag != 0
    }

    /// Returns the codec code in the low nibble of the codec flags.
    pub fn codec(&self) -> (c: u8)
        ensures
            c == self.spec_codec(),
    {
        self.codec_flags & HDR_CODEC_MASK
    }

    /// Returns whether the codec flags carry the given flag bit.
    pub fn has_flag(&self, flag: u8) -> (b: bool)
        ensures
            b == self.spec_has_flag(flag),
    {
        self.codec_flags & flag != 0
    }
}

/// The element size of an element format code.
pub open spec fn elem_size_of(fmt: u8) -> Result<usize, DecodeError> {
    if fmt == FMT_F32 {
        Ok(4usize)
    } else if fmt == FMT_F64 {
        Ok(8usize)
    } else {
        Err(DecodeError::BadFloatFormat)
    }
}

/// Returns the element size of an element format code: 4 for code 1 and 8
/// for code 2.
pub fn fmt_elem_size(fmt: u8) -> (r: Result<usize, DecodeError>)
    ensures
        r == elem_size_of(fmt),
{
    if fmt == FMT_F32 {
        Ok(4)
    } else if fmt == FMT_F64 {
        Ok(8)
    } else {
        Err(DecodeError::BadFloatFormat)
    }
}

/// The least non-zero number in `xs`, where there is one.
pub open spec fn min_nonzero(xs: Seq<usize>) -> Option<usize>
    decreases xs.len(),
{
    if xs.len() == 0 {
        None
    } else {
        let rest = min_nonzero(xs.drop_last());
        let x = xs.last();
        if x == 0 {
            rest
        } else {
            match rest {
                Some(m) => Some(if m <= x {
                    m
                } else {
                    x
                }),
                None => Some(x),
            }
        }
    }
}

/// `min_nonzero` is `None` exactly where every number is zero; else it is
/// a non-zero member that no non-zero member is below.
pub proof fn lemma_min_nonzero(xs: Seq<usize>)
    ensures
        min_nonzero(xs) is None <==> forall|i: int| 0 <= i < xs.len() ==> xs[i] == 0,
        min_nonzero(xs) matches Some(m) ==> m != 0 && xs.contains(m) && forall|i: int|
            0 <= i < xs.len() && xs[i] != 0 ==> m <= #[trigger] xs[i],
    decreases xs.len(),
{
    if xs.len() > 0 {
        let head = xs.drop_last();
        lemma_min_nonzero(head);
        assert forall|i: int| 0 <= i < head.len() implies head[i] == xs[i] by {}
        match min_nonzero(xs) {
            Some(m) => {
                if m == xs.last() {
                    assert(xs[xs.len() - 1] == m);
                } else {
                    let j = choose|j: int| 0 <= j < head.len() && head[j] == m;
                    assert(xs[j] == m);
                }
            },
            None => {},
        }
        if min_nonzero(xs) is Some {
            assert(xs.last() != 0 || min_nonzero(head) is Some);
            if xs.last() != 0 {
                assert(xs[xs.len() - 1] != 0);
            } else {
                let j = choose|j: int| 0 <= j < head.len() && head[j] != 0;
                assert(xs[j] != 0);
            }
        }
    }
}

/// Returns the least non-zero number in `xs`.
pub fn min_nonzero_usize(xs: &[usize]) -> (m: Option<usize>)
    ensures
        m == min_nonzero(xs@),
{
    let mut m: Option<usize> = None;
    let mut i: usize = 0;
    while i < xs.len()
        invariant
            i <= xs@.len(),
            m == min_nonzero(xs@.take(i as int)),
        decreases xs@.len() - i,
    {
        proof {
            assert(xs@.take(i + 1).drop_last() =~= xs@.take(i as int));
        }
        let x = xs[i];
        if x != 0 {
            m = Some(
                match m {
                    Some(cur) => if cur <= x {
                        cur
                    } else {
                        x
                    },
                    None => x,
                },
            );
        }
        i = i + 1;
    }
    assert(xs@.take(i as int) =~= xs@);
    m
}

/// One entry of a per-item index: where the X and Y arrays of the item
/// lie in their containers, as `(x_element_off, y_element_off,
/// x_element_len, y_element_len, x_block_id, y_block_id)`.
pub open spec fn index_entry_spec(b: Seq<u8>, i: int) -> Result<
    (u64, u64, u32, u32, u32, u32),
    DecodeError,
> {
    if in_bounds(b.len(), i * 32, 32) {
        Ok(
            (
                le_u64(b, i * 32),
                le_u64(b, i * 32 + 8),
                le_u32(b, i * 32 + 16),
                le_u32(b, i * 32 + 20),
                le_u32(b, i * 32 + 24),
                le_u32(b, i * 32 + 28),
            ),
        )
    } else {
        Err(DecodeError::UnexpectedEnd)
    }
}

/// Reads entry `item_idx` of a per-item index.
pub fn read_index_entry_with_blocks(index_bytes: &[u8], item_idx: usize) -> (r: Result<
    (u64, u64, u32, u32, u32, u32),
    DecodeError,
>)
    ensures
        r == index_entry_spec(index_bytes@, item_idx as int),
{
    let n = index_bytes.len();
    if n < INDEX_ENTRY_SIZE || item_idx > (n - INDEX_ENTRY_SIZE) / INDEX_ENTRY_SIZE {
        return Err(DecodeError::UnexpectedEnd);
    }
    let base = item_idx * INDEX_ENTRY_SIZE;
    Ok(
        (
            le_u64_at(index_bytes, base),
            le_u64_at(index_bytes, base + 8),
            le_u32_at(index_bytes, base + 16),
            le_u32_at(index_bytes, base + 20),
            le_u32_at(index_bytes, base + 24),
            le_u32_at(index_bytes, base + 28),
        ),
    )
}

} // verus!
