//! A second way to read array containers: block starts are taken from the
//! per-item index instead of the directory, and compressed blocks are
//! zstd streams.

use vstd::pervasive::unreached;
use vstd::prelude::*;
use vstd::slice::{slice_subrange, slice_to_vec};
use crate::binary_array::{ArrayData, ArrayDataModel};
use crate::bytes::{
    le_u32, le_u32_seq, le_u32_vec_at, le_u64, le_u64_seq, le_u64_vec_at, read_slice_spec,
    read_u32_le_at, read_u64_le_at, slice_at, take,
};
use crate::codec::{decompress_zstd, zstd_stream_decoded};
use crate::container::{BLOCK_DIR_ENTRY_SIZE, BlockDirEntry, dir_entry_at, lemma_fits};
use crate::error::DecodeError;
use crate::header::{ARRAY_FILTER_BYTE_SHUFFLE, Header};
use crate::shuffle::{unshuffle_into, unshuffled};

verus! {

/// Where the arrays of one spectrum lie in their containers.
#[derive(Clone, Copy, Debug, PartialEq, Eq)]
pub struct SpectrumIndexEntry {
    pub mz_element_off: u64,
    pub inten_element_off: u64,
    pub mz_element_len: u32,
    pub inten_element_len: u32,
    pub mz_block_id: u32,
    pub inten_block_id: u32,
}

/// Where the arrays of one chromatogram lie in their containers.
#[derive(Clone, Copy, Debug, PartialEq, Eq)]
pub struct ChromIndexEntry {
    pub time_element_off: u64,
    pub inten_element_off: u64,
    pub time_element_len: u32,
    pub inten_element_len: u32,
    pub time_block_id: u32,
    pub inten_block_id: u32,
}

/// Entry `i` of a chromatogram index.
pub open spec fn chrom_entry_at(b: Seq<u8>, i: int) -> ChromIndexEntry {
    ChromIndexEntry {
        time_element_off: le_u64(b, i * 32),
        inten_element_off: le_u64(b, i * 32 + 8),
        time_element_len: le_u32(b, i * 32 + 16),
        inten_element_len: le_u32(b, i * 32 + 20),
        time_block_id: le_u32(b, i * 32 + 24),
        inten_block_id: le_u32(b, i * 32 + 28),
    }
}

/// What parsing the chromatogram index of a file gives.
pub open spec fn chrom_index_spec(b: Seq<u8>, h: Header) -> Result<
    Seq<ChromIndexEntry>,
    DecodeError,
> {
    match read_slice_spec(b, h.off_chrom_index as int, h.chrom_count * 32) {
        Err(e) => Err(e),
        Ok(raw) => Ok(Seq::new(h.chrom_count as nat, |i: int| chrom_entry_at(raw, i))),
    }
}

/// Parses the chromatogram index of a file.
pub fn parse_chrom_index(bytes: &[u8], header: &Header) -> (r: Result<
    Vec<ChromIndexEntry>,
    DecodeError,
>)
    ensures
        match r {
            Ok(v) => chrom_index_spec(bytes@, *header) == Ok::<Seq<ChromIndexEntry>, DecodeError>(
                v@,
            ),
            Err(e) => chrom_index_spec(bytes@, *header) == Err::<
                Seq<ChromIndexEntry>,
                DecodeError,
            >(e),
        },
{
    let count = header.chrom_count as usize;
    let need: u64 = header.chrom_count as u64 * 32;
    let raw = match slice_at(bytes, header.off_chrom_index, need, "chrom index") {
        Ok(v) => v,
        Err(e) => {
            return Err(e);
        },
    };
    let mut pos: usize = 0;
    let mut out: Vec<ChromIndexEntry> = Vec::with_capacity(count);
    let mut i: usize = 0;
    while i < count
        invariant
            raw@.len() == count * 32,
            i <= count,
            pos == i * 32,
            out@ == Seq::new(i as nat, |k: int| chrom_entry_at(raw@, k)),
        decreases count - i,
    {
        let time_element_off = match read_u64_le_at(raw, &mut pos, "time_element_off") {
            Ok(v) => v,
            Err(_) => unreached(),
        };
        let inten_element_off = match read_u64_le_at(raw, &mut pos, "inten_element_off") {
            Ok(v) => v,
            Err(_) => unreached(),
        };
        let time_element_len = match read_u32_le_at(raw, &mut pos, "time_element_len") {
            Ok(v) => v,
            Err(_) => unreached(),
        };
        let inten_element_len = match read_u32_le_at(raw, &mut pos, "inten_element_len") {
            Ok(v) => v,
            Err(_) => unreached(),
        };
        let time_block_id = match read_u32_le_at(raw, &mut pos, "time_block_id") {
            Ok(v) => v,
            Err(_) => unreached(),
        };
        let inten_block_id = match read_u32_le_at(raw, &mut pos, "inten_block_id") {
            Ok(v) => v,
            Err(_) => unreached(),
        };
        out.push(
            ChromIndexEntry {
                time_element_off,
                inten_element_off,
                time_element_len,
                inten_element_len,
                time_block_id,
                inten_block_id,
            },
        );
        assert(out@ =~= Seq::new((i + 1) as nat, |k: int| chrom_entry_at(raw@, k)));
        i = i + 1;
    }
    Ok(out)
}

/// The least element offset among the first `n` pairs of block and offset
/// that name block `block`; the largest 64-bit number where none does.
pub open spec fn least_offset(pairs: Seq<(u32, u64)>, n: int, block: int) -> u64
    decreases n,
{
    if n <= 0 {
        u64::MAX
    } else {
        let rest = least_offset(pairs, n - 1, block);
        let p = pairs[n - 1];
        if p.0 == block && p.1 < rest {
            p.1
        } else {
            rest
        }
    }
}

/// The first place among the pairs whose block is not below
/// `block_count`, or -1.
pub open spec fn first_stray(pairs: Seq<(u32, u64)>, block_count: u32, i: int) -> int
    decreases pairs.len() - i,
{
    if i < 0 || i >= pairs.len() {
        -1
    } else if pairs[i].0 >= block_count {
        i
    } else {
        first_stray(pairs, block_count, i + 1)
    }
}

/// The start of each block as the index knows it: the least element
/// offset of an array in the block.  A pair that names a block beyond the
/// last is an error.
pub open spec fn block_starts_spec(pairs: Seq<(u32, u64)>, block_count: u32) -> Result<
    Seq<u64>,
    DecodeError,
> {
    if first_stray(pairs, block_count, 0) >= 0 {
        Err(DecodeError::BlockIdOutOfRange)
    } else {
        Ok(Seq::new(block_count as nat, |b: int| least_offset(pairs, pairs.len() as int, b)))
    }
}

/// Computes the start of each block from pairs of block and offset.
pub fn compute_block_starts(pairs: &Vec<(u32, u64)>, block_count: u32) -> (r: Result<
    Vec<u64>,
    DecodeError,
>)
    ensures
        match r {
            Ok(v) => block_starts_spec(pairs@, block_count) == Ok::<Seq<u64>, DecodeError>(v@),
            Err(e) => block_starts_spec(pairs@, block_count) == Err::<Seq<u64>, DecodeError>(e),
        },
{
    let bc = block_count as usize;
    let mut starts: Vec<u64> = Vec::with_capacity(bc);
    let mut b: usize = 0;
    while b < bc
        invariant
            b <= bc,
            starts@.len() == b,
            forall|k: int| 0 <= k < b ==> starts@[k] == u64::MAX,
        decreases bc - b,
    {
        starts.push(u64::MAX);
        b = b + 1;
    }
    let mut i: usize = 0;
    while i < pairs.len()
        invariant
            i <= pairs@.len(),
            bc == block_count,
            starts@.len() == bc,
            first_stray(pairs@, block_count, 0) == first_stray(pairs@, block_count, i as int),
            forall|k: int| 0 <= k < bc ==> starts@[k] == least_offset(pairs@, i as int, k),
        decreases pairs@.len() - i,
    {
        let p = pairs[i];
        let bi = p.0 as usize;
        if bi >= bc {
            return Err(DecodeError::BlockIdOutOfRange);
        }
        if p.1 < starts[bi] {
            starts[bi] = p.1;
        }
        i = i + 1;
    }
    assert(starts@ =~= Seq::new(
        block_count as nat,
        |b: int| least_offset(pairs@, pairs@.len() as int, b),
    ));
    Ok(starts)
}

/// The X block and X offset of each spectrum.
pub open spec fn spectrum_x_pairs(index: Seq<SpectrumIndexEntry>) -> Seq<(u32, u64)> {
    Seq::new(index.len(), |i: int| (index[i].mz_block_id, index[i].mz_element_off))
}

/// The Y block and Y offset of each spectrum.
pub open spec fn spectrum_y_pairs(index: Seq<SpectrumIndexEntry>) -> Seq<(u32, u64)> {
    Seq::new(index.len(), |i: int| (index[i].inten_block_id, index[i].inten_element_off))
}

/// The X block and X offset of each chromatogram.
pub open spec fn chrom_x_pairs(index: Seq<ChromIndexEntry>) -> Seq<(u32, u64)> {
    Seq::new(index.len(), |i: int| (index[i].time_block_id, index[i].time_element_off))
}

/// The Y block and Y offset of each chromatogram.
pub open spec fn chrom_y_pairs(index: Seq<ChromIndexEntry>) -> Seq<(u32, u64)> {
    Seq::new(index.len(), |i: int| (index[i].inten_block_id, index[i].inten_element_off))
}

/// Computes the start of each block of the spectrum X container.
pub fn compute_block_starts_for_x(index: &[SpectrumIndexEntry], block_count: u32) -> (r: Result<
    Vec<u64>,
    DecodeError,
>)
    ensures
        match r {
            Ok(v) => block_starts_spec(spectrum_x_pairs(index@), block_count) == Ok::<
                Seq<u64>,
                DecodeError,
            >(v@),
            Err(e) => block_starts_spec(spectrum_x_pairs(index@), block_count) == Err::<
                Seq<u64>,
                DecodeError,
            >(e),
        },
{
    let mut pairs: Vec<(u32, u64)> = Vec::with_capacity(index.len());
    let mut i: usize = 0;
    while i < index.len()
        invariant
            i <= index@.len(),
            pairs@ == spectrum_x_pairs(index@.take(i as int)),
        decreases index@.len() - i,
    {
        pairs.push((index[i].mz_block_id, index[i].mz_element_off));
        assert(pairs@ =~= spectrum_x_pairs(index@.take(i + 1)));
        i = i + 1;
    }
    assert(index@.take(i as int) =~= index@);
    compute_block_starts(&pairs, block_count)
}

/// Computes the start of each block of the spectrum Y container.
pub fn compute_block_starts_for_y(index: &[SpectrumIndexEntry], block_count: u32) -> (r: Result<
    Vec<u64>,
    DecodeError,
>)
    ensures
        match r {
            Ok(v) => block_starts_spec(spectrum_y_pairs(index@), block_count) == Ok::<
                Seq<u64>,
                DecodeError,
            >(v@),
            Err(e) => block_starts_spec(spectrum_y_pairs(index@), block_count) == Err::<
                Seq<u64>,
                DecodeError,
            >(e),
        },
{
    let mut pairs: Vec<(u32, u64)> = Vec::with_capacity(index.len());
    let mut i: usize = 0;
    while i < index.len()
        invariant
            i <= index@.len(),
            pairs@ == spectrum_y_pairs(index@.take(i as int)),
        decreases index@.len() - i,
    {
        pairs.push((index[i].inten_block_id, index[i].inten_element_off));
        assert(pairs@ =~= spectrum_y_pairs(index@.take(i + 1)));
        i = i + 1;
    }
    assert(index@.take(i as int) =~= index@);
    compute_block_starts(&pairs, block_count)
}

/// Computes the start of each block of the chromatogram X container.
pub fn compute_block_starts_for_cx(index: &[ChromIndexEntry], block_count: u32) -> (r: Result<
    Vec<u64>,
    DecodeError,
>)
    ensures
        match r {
            Ok(v) => block_starts_spec(chrom_x_pairs(index@), block_count) == Ok::<
                Seq<u64>,
                DecodeError,
            >(v@),
            Err(e) => block_starts_spec(chrom_x_pairs(index@), block_count) == Err::<
                Seq<u64>,
                DecodeError,
            >(e),
        },
{
    let mut pairs: Vec<(u32, u64)> = Vec::with_capacity(index.len());
    let mut i: usize = 0;
    while i < index.len()
        invariant
            i <= index@.len(),
            pairs@ == chrom_x_pairs(index@.take(i as int)),
        decreases index@.len() - i,
    {
        pairs.push((index[i].time_block_id, index[i].time_element_off));
        assert(pairs@ =~= chrom_x_pairs(index@.take(i + 1)));
        i = i + 1;
    }
    assert(index@.take(i as int) =~= index@);
    compute_block_starts(&pairs, block_count)
}

/// Computes the start of each block of the chromatogram Y container.
pub fn compute_block_starts_for_cy(index: &[ChromIndexEntry], block_count: u32) -> (r: Result<
    Vec<u64>,
    DecodeError,
>)
    ensures
        match r {
            Ok(v) => block_starts_spec(chrom_y_pairs(index@), block_count) == Ok::<
                Seq<u64>,
                DecodeError,
            >(v@),
            Err(e) => block_starts_spec(chrom_y_pairs(index@), block_count) == Err::<
                Seq<u64>,
                DecodeError,
            >(e),
        },
{
    let mut pairs: Vec<(u32, u64)> = Vec::with_capacity(index.len());
    let mut i: usize = 0;
    while i < index.len()
        invariant
            i <= index@.len(),
            pairs@ == chrom_y_pairs(index@.take(i as int)),
        decreases index@.len() - i,
    {
        pairs.push((index[i].inten_block_id, index[i].inten_element_off));
        assert(pairs@ =~= chrom_y_pairs(index@.take(i + 1)));
        i = i + 1;
    }
    assert(index@.take(i as int) =~= index@);
    compute_block_starts(&pairs, block_count)
}

/// A container as this reader sees it.
pub struct ReaderModel {
    pub bytes: Seq<u8>,
    pub dir: Seq<BlockDirEntry>,
    pub elem_size: usize,
    pub compression_level: u8,
    pub array_filter: u8,
}

/// What opening a container with `block_count` blocks gives.
pub open spec fn reader_model(
    bytes: Seq<u8>,
    block_count: u32,
    elem_size: usize,
    compression_level: u8,
    array_filter: u8,
) -> Result<ReaderModel, DecodeError> {
    if block_count * 32 > bytes.len() {
        Err(DecodeError::UnexpectedEnd)
    } else {
        Ok(
            ReaderModel {
                bytes,
                dir: Seq::new(block_count as nat, |i: int| dir_entry_at(bytes, 0, i)),
                elem_size,
                compression_level,
                array_filter,
            },
        )
    }
}

/// The decoded bytes of block `id`: the stored bytes, decoded as a zstd
/// stream where the compression level is not zero, of exactly the length
/// the directory gives, and with the elements interleaved.
pub open spec fn reader_block(m: ReaderModel, id: int) -> Result<Seq<u8>, DecodeError> {
    if !(0 <= id < m.dir.len()) {
        Err(DecodeError::BlockIdOutOfRange)
    } else {
        let e = m.dir[id];
        let start = m.dir.len() * 32 + e.comp_off;
        if start + e.comp_size > m.bytes.len() {
            Err(DecodeError::UnexpectedEnd)
        } else {
            let comp = m.bytes.subrange(start, start + e.comp_size);
            let raw = if m.compression_level == 0 {
                Some(comp)
            } else {
                zstd_stream_decoded(comp)
            };
            match raw {
                None => Err(DecodeError::CodecFailed),
                Some(v) => if v.len() != e.uncomp_bytes {
                    Err(DecodeError::BlockSizeMismatch)
                } else if m.array_filter == ARRAY_FILTER_BYTE_SHUFFLE && m.elem_size > 1 {
                    if v.len() % (m.elem_size as nat) != 0 {
                        Err(DecodeError::RaggedElements)
                    } else {
                        Ok(unshuffled(v, m.elem_size as int))
                    }
                } else {
                    Ok(v)
                },
            }
        }
    }
}

/// A container opened for reading block by block.
pub struct ContainerReader<'a> {
    /// The bytes of the container: the directory and the stored blocks.
    pub bytes: &'a [u8],
    /// The size of an element in bytes.
    pub elem_size: usize,
    /// The compression level; zero for blocks stored raw.
    pub compression_level: u8,
    /// The array filter code.
    pub array_filter: u8,
    /// The block directory.
    pub dir: Vec<BlockDirEntry>,
    /// Where the stored blocks start.
    pub comp_buf_start: usize,
    /// The blocks decoded so far.
    pub cache: Vec<Option<Vec<u8>>>,
    /// Spare room for the byte-shuffle filter.
    pub scratch: Vec<u8>,
}

impl<'a> ContainerReader<'a> {
    /// The container as mathematical values.
    pub open spec fn model(&self) -> ReaderModel {
        ReaderModel {
            bytes: self.bytes@,
            dir: self.dir@,
            elem_size: self.elem_size,
            compression_level: self.compression_level,
            array_filter: self.array_filter,
        }
    }

    /// Whether the parts of the reader fit together.
    pub open spec fn wf(&self) -> bool {
        &&& self.cache@.len() == self.dir@.len()
        &&& self.dir@.len() <= u32::MAX
        &&& self.comp_buf_start == self.dir@.len() * 32
        &&& self.comp_buf_start <= self.bytes@.len()
        &&& forall|i: int|
            0 <= i < self.cache@.len() ==> (#[trigger] self.cache@[i] matches Some(v)
                ==> reader_block(self.model(), i) == Ok::<Seq<u8>, DecodeError>(v@))
    }

    /// Opens a container of `block_count` blocks.
    pub fn new(
        bytes: &'a [u8],
        block_count: u32,
        elem_size: usize,
        compression_level: u8,
        array_filter: u8,
    ) -> (r: Result<ContainerReader<'a>, DecodeError>)
        ensures
            match r {
                Ok(c) => c.wf() && reader_model(
                    bytes@,
                    block_count,
                    elem_size,
                    compression_level,
                    array_filter,
                ) == Ok::<ReaderModel, DecodeError>(c.model()),
                Err(e) => reader_model(
                    bytes@,
                    block_count,
                    elem_size,
                    compression_level,
                    array_filter,
                ) == Err::<ReaderModel, DecodeError>(e),
            },
    {
        let n = bytes.len();
        if block_count as u64 * 32 > n as u64 {
            return Err(DecodeError::UnexpectedEnd);
        }
        let bc = block_count as usize;
        let dir_bytes = bc * BLOCK_DIR_ENTRY_SIZE;
        let dir_raw = slice_subrange(bytes, 0, dir_bytes);
        let ghost want = Seq::new(block_count as nat, |i: int| dir_entry_at(bytes@, 0, i));
        let mut pos: usize = 0;
        let mut dir: Vec<BlockDirEntry> = Vec::with_capacity(bc);
        let mut cache: Vec<Option<Vec<u8>>> = Vec::with_capacity(bc);
        let mut i: usize = 0;
        while i < bc
            invariant
                dir_raw@ == bytes@.subrange(0, dir_bytes as int),
                dir_bytes == bc * 32,
                dir_bytes <= bytes@.len(),
                bc == block_count,
                i <= bc,
                pos == i * 32,
                want == Seq::new(block_count as nat, |i: int| dir_entry_at(bytes@, 0, i)),
                dir@ == want.take(i as int),
                cache@.len() == i,
                forall|j: int| 0 <= j < i ==> #[trigger] cache@[j] is None,
            decreases bc - i,
        {
            let comp_off = match read_u64_le_at(dir_raw, &mut pos, "comp_off") {
                Ok(v) => v,
                Err(_) => unreached(),
            };
            let comp_size = match read_u64_le_at(dir_raw, &mut pos, "comp_size") {
                Ok(v) => v,
                Err(_) => unreached(),
            };
            let uncomp_bytes = match read_u64_le_at(dir_raw, &mut pos, "uncomp_bytes") {
                Ok(v) => v,
                Err(_) => unreached(),
            };
            match take(dir_raw, &mut pos, 8, "reserved") {
                Ok(_) => {},
                Err(_) => unreached(),
            }
            let e = BlockDirEntry { comp_off, comp_size, uncomp_bytes };
            assert(e == want[i as int]);
            dir.push(e);
            cache.push(None);
            assert(dir@ =~= want.take(i + 1));
            i = i + 1;
        }
        assert(dir@ =~= want);
        Ok(
            ContainerReader {
                bytes,
                elem_size,
                compression_level,
                array_filter,
                dir,
                comp_buf_start: dir_bytes,
                cache,
                scratch: Vec::new(),
            },
        )
    }

    /// Decodes block `block_id`, unless it is kept already, and keeps it.
    pub fn ensure_block(&mut self, block_id: u32) -> (r: Result<(), DecodeError>)
        requires
            old(self).wf(),
        ensures
            final(self).wf(),
            final(self).model() == old(self).model(),
            match r {
                Ok(()) => reader_block(old(self).model(), block_id as int) is Ok && 0 <= block_id
                    < final(self).cache@.len() && final(self).cache@[block_id as int] is Some,
                Err(e) => reader_block(old(self).model(), block_id as int) == Err::<
                    Seq<u8>,
                    DecodeError,
                >(e),
            },
    {
        let i = block_id as usize;
        if i >= self.cache.len() {
            return Err(DecodeError::BlockIdOutOfRange);
        }
        if self.cache[i].is_some() {
            return Ok(());
        }
        let e = self.dir[i];
        let n = self.bytes.len();
        let room: u64 = (n - self.comp_buf_start) as u64;
        if e.comp_off > room || e.comp_size > room - e.comp_off {
            return Err(DecodeError::UnexpectedEnd);
        }
        let start = self.comp_buf_start + e.comp_off as usize;
        let end = start + e.comp_size as usize;
        let comp = slice_subrange(self.bytes, start, end);
        let mut out: Vec<u8> = if self.compression_level == 0 {
            slice_to_vec(comp)
        } else {
            match decompress_zstd(comp) {
                Ok(v) => v,
                Err(err) => {
                    return Err(err);
                },
            }
        };
        if out.len() as u64 != e.uncomp_bytes {
            return Err(DecodeError::BlockSizeMismatch);
        }
        if self.array_filter == ARRAY_FILTER_BYTE_SHUFFLE && self.elem_size > 1 {
            if out.len() % self.elem_size != 0 {
                return Err(DecodeError::RaggedElements);
            }
            self.scratch.clear();
            self.scratch.resize(out.len(), 0u8);
            match unshuffle_into(self.scratch.as_mut_slice(), out.as_slice(), self.elem_size) {
                Ok(()) => {},
                Err(_) => {
                    unreached::<()>();
                },
            }
            out.clear();
            out.extend_from_slice(self.scratch.as_slice());
            assert(out@ =~= self.scratch@);
        }
        let ghost plain = out@;
        self.cache[i] = Some(out);
        proof {
            assert(reader_block(self.model(), i as int) == Ok::<Seq<u8>, DecodeError>(plain));
            assert forall|k: int| 0 <= k < self.cache@.len() implies (
            #[trigger] self.cache@[k] matches Some(v) ==> reader_block(self.model(), k) == Ok::<
                Seq<u8>,
                DecodeError,
            >(v@)) by {
                if k != i {
                    assert(self.cache@[k] == old(self).cache@[k]);
                }
            }
        }
        Ok(())
    }

    /// Returns the decoded bytes of block `block_id`.  The block is kept,
    /// so that it is decoded once however often it is asked for.
    pub fn block_bytes(&mut self, block_id: u32) -> (r: Result<&[u8], DecodeError>)
        requires
            old(self).wf(),
        ensures
            final(self).wf(),
            final(self).model() == old(self).model(),
            match r {
                Ok(b) => reader_block(old(self).model(), block_id as int) == Ok::<
                    Seq<u8>,
                    DecodeError,
                >(b@) && 0 <= block_id < final(self).cache@.len() && final(self).cache@[block_id as int]
                    is Some,
                Err(e) => reader_block(old(self).model(), block_id as int) == Err::<
                    Seq<u8>,
                    DecodeError,
                >(e),
            },
    {
        match self.ensure_block(block_id) {
            Ok(()) => match &self.cache[block_id as usize] {
                Some(v) => Ok(v.as_slice()),
                None => unreached(),
            },
            Err(e) => Err(e),
        }
    }
}

/// The elements of an array of `len_elems` elements at the element offset
/// `global_off_elems`, in the block `block_id` whose start the index gave.
pub open spec fn item_array_spec(
    m: ReaderModel,
    block_starts: Seq<u64>,
    block_id: u32,
    global_off_elems: u64,
    len_elems: u32,
) -> Result<ArrayDataModel, DecodeError> {
    if block_id >= block_starts.len() {
        Err(DecodeError::BlockIdOutOfRange)
    } else if block_starts[block_id as int] == u64::MAX {
        Err(DecodeError::BlockStartUnknown)
    } else if global_off_elems < block_starts[block_id as int] {
        Err(DecodeError::OffsetBeforeBlock)
    } else if m.elem_size != 4 && m.elem_size != 8 {
        Err(DecodeError::BadFloatFormat)
    } else {
        let local = global_off_elems - block_starts[block_id as int];
        match reader_block(m, block_id as int) {
            Err(e) => Err(e),
            Ok(raw) => if local * m.elem_size + len_elems * m.elem_size > raw.len() {
                Err(DecodeError::SliceOutOfBlock)
            } else if m.elem_size == 4 {
                Ok(ArrayDataModel::F32(le_u32_seq(raw, local * 4, len_elems as nat)))
            } else {
                Ok(ArrayDataModel::F64(le_u64_seq(raw, local * 8, len_elems as nat)))
            },
        }
    }
}

/// Decodes the elements of one array.
pub fn decode_item_array(
    reader: &mut ContainerReader<'_>,
    block_starts: &[u64],
    block_id: u32,
    global_off_elems: u64,
    len_elems: u32,
) -> (r: Result<ArrayData, DecodeError>)
    requires
        old(reader).wf(),
    ensures
        final(reader).wf(),
        final(reader).model() == old(reader).model(),
        match r {
            Ok(a) => item_array_spec(
                old(reader).model(),
                block_starts@,
                block_id,
                global_off_elems,
                len_elems,
            ) == Ok::<ArrayDataModel, DecodeError>(a.deep_view()),
            Err(e) => item_array_spec(
                old(reader).model(),
                block_starts@,
                block_id,
                global_off_elems,
                len_elems,
            ) == Err::<ArrayDataModel, DecodeError>(e),
        },
{
    let bi = block_id as usize;
    if bi >= block_starts.len() {
        return Err(DecodeError::BlockIdOutOfRange);
    }
    let start = block_starts[bi];
    if start == u64::MAX {
        return Err(DecodeError::BlockStartUnknown);
    }
    if global_off_elems < start {
        return Err(DecodeError::OffsetBeforeBlock);
    }
    let local: u64 = global_off_elems - start;
    let elem_size = reader.elem_size;
    if elem_size != 4 && elem_size != 8 {
        return Err(DecodeError::BadFloatFormat);
    }
    let raw = match reader.block_bytes(block_id) {
        Ok(b) => b,
        Err(e) => {
            return Err(e);
        },
    };
    let n = raw.len();
    let whole: usize = n / elem_size;
    proof {
        lemma_fits(local as int, len_elems as int, elem_size as int, n as int);
    }
    if local > whole as u64 || len_elems as u64 > whole as u64 - local {
        return Err(DecodeError::SliceOutOfBlock);
    }
    let off_bytes: usize = (local as usize) * elem_size;
    if elem_size == 4 {
        Ok(ArrayData::F32(le_u32_vec_at(raw, off_bytes, len_elems as usize)))
    } else {
        Ok(ArrayData::F64(le_u64_vec_at(raw, off_bytes, len_elems as usize)))
    }
}

/// Reads the whole 32-bit elements of `raw` as bit patterns; bytes
/// behind the last whole element are passed over.
pub fn bytes_to_f32_vec(raw: &[u8]) -> (out: Vec<u32>)
    ensures
        out@ == le_u32_seq(raw@, 0, raw@.len() / 4),
{
    let n = raw.len() / 4;
    le_u32_vec_at(raw, 0, n)
}

/// Reads the whole 64-bit elements of `raw` as bit patterns; bytes
/// behind the last whole element are passed over.
pub fn bytes_to_f64_vec(raw: &[u8]) -> (out: Vec<u64>)
    ensures
        out@ == le_u64_seq(raw@, 0, raw@.len() / 8),
{
    let n = raw.len() / 8;
    le_u64_vec_at(raw, 0, n)
}

} // verus!
