//! The array container: a block directory followed by the blocks.
//!
//! A block is a run of fixed-width elements, stored raw or compressed and
//! either interleaved or as byte planes.  Blocks are decoded on first use
//! and kept for the lifetime of the container.

use vstd::pervasive::unreached;
use vstd::prelude::*;
use vstd::slice::{slice_subrange, slice_to_vec};
use crate::bytes::{in_bounds, le_u64, le_u64_at};
use crate::codec::{block_decoded, decode_block, HDR_CODEC_ZLIB};
use crate::error::DecodeError;
use crate::header::{ARRAY_FILTER_BYTE_SHUFFLE, ARRAY_FILTER_NONE};
use crate::shuffle::{unshuffle_into, unshuffled};

verus! {

/// The size of one block directory entry in bytes.
pub const BLOCK_DIR_ENTRY_SIZE: usize = 32;

/// One entry of a block directory.
#[derive(Clone, Copy, Debug, PartialEq, Eq)]
pub struct BlockDirEntry {
    /// Where the stored bytes of the block start, counted from the end of
    /// the directory.
    pub comp_off: u64,
    /// How many bytes are stored.
    pub comp_size: u64,
    /// How many bytes the block has once decoded.
    pub uncomp_bytes: u64,
}

/// A container as mathematical values: the stored bytes behind the
/// directory, the directory, and how blocks are to be decoded.
pub struct ContainerModel {
    pub payload: Seq<u8>,
    pub dir: Seq<BlockDirEntry>,
    pub codec: u8,
    pub compression_level: u8,
    pub elem_size: usize,
    pub array_filter: u8,
}

/// The directory entry number `i` of a container that starts at `base`.
pub open spec fn dir_entry_at(file: Seq<u8>, base: int, i: int) -> BlockDirEntry {
    BlockDirEntry {
        comp_off: le_u64(file, base + i * 32),
        comp_size: le_u64(file, base + i * 32 + 8),
        uncomp_bytes: le_u64(file, base + i * 32 + 16),
    }
}

/// The container without blocks.
pub open spec fn empty_model() -> ContainerModel {
    ContainerModel {
        payload: Seq::empty(),
        dir: Seq::empty(),
        codec: HDR_CODEC_ZLIB,
        compression_level: 0,
        elem_size: 1,
        array_filter: ARRAY_FILTER_NONE,
    }
}

/// Whether every block of the first `n` holds a whole number of elements.
pub open spec fn whole_elements(dir: Seq<BlockDirEntry>, elem_size: usize, n: int) -> bool {
    forall|i: int| 0 <= i < n ==> (#[trigger] dir[i]).uncomp_bytes as int % elem_size as int == 0
}

/// What opening the container at `[off, off + size)` of a file gives.
///
/// A size or block count of zero stands for the container without blocks.
pub open spec fn container_model(
    file: Seq<u8>,
    off: int,
    size: int,
    block_count: u32,
    codec: u8,
    compression_level: u8,
    elem_size: usize,
    array_filter: u8,
) -> Result<ContainerModel, DecodeError> {
    let dir = Seq::new(block_count as nat, |i: int| dir_entry_at(file, off, i));
    if size == 0 || block_count == 0 {
        Ok(empty_model())
    } else if elem_size == 0 {
        Err(DecodeError::BadFloatFormat)
    } else if !in_bounds(file.len(), off, size) {
        Err(DecodeError::UnexpectedEnd)
    } else if block_count * 32 > size {
        Err(DecodeError::UnexpectedEnd)
    } else if !whole_elements(dir, elem_size, block_count as int) {
        Err(DecodeError::RaggedElements)
    } else {
        Ok(
            ContainerModel {
                payload: file.subrange(off + block_count * 32, off + size),
                dir,
                codec,
                compression_level,
                elem_size,
                array_filter,
            },
        )
    }
}

/// The element offset at which block `i` starts: the number of elements in
/// the blocks before it, saturating at the largest 64-bit number.
pub open spec fn block_start(dir: Seq<BlockDirEntry>, elem_size: usize, i: int) -> u64
    decreases i,
{
    if i <= 0 {
        0
    } else {
        let before = block_start(dir, elem_size, i - 1) as int;
        let elems = dir[i - 1].uncomp_bytes as int / elem_size as int;
        if before + elems > u64::MAX {
            u64::MAX
        } else {
            (before + elems) as u64
        }
    }
}

/// Whether blocks of this container go through the byte-shuffle filter.
pub open spec fn is_shuffled(m: ContainerModel) -> bool {
    m.array_filter == ARRAY_FILTER_BYTE_SHUFFLE && m.elem_size > 1
}

/// The decoded bytes of block `id`: the stored bytes, decompressed where
/// the compression level is not zero, of exactly the length the directory
/// gives, and with the elements interleaved.
pub open spec fn block_plain(m: ContainerModel, id: int) -> Result<Seq<u8>, DecodeError> {
    if !(0 <= id < m.dir.len()) {
        Err(DecodeError::BlockIdOutOfRange)
    } else {
        let e = m.dir[id];
        if e.comp_off + e.comp_size > m.payload.len() {
            Err(DecodeError::UnexpectedEnd)
        } else {
            let comp = m.payload.subrange(e.comp_off as int, e.comp_off + e.comp_size);
            let raw = if m.compression_level == 0 {
                Ok(comp)
            } else {
                block_decoded(m.codec, comp, e.uncomp_bytes)
            };
            match raw {
                Err(err) => Err(err),
                Ok(v) => if v.len() != e.uncomp_bytes {
                    Err(DecodeError::BlockSizeMismatch)
                } else if is_shuffled(m) {
                    Ok(unshuffled(v, m.elem_size as int))
                } else {
                    Ok(v)
                },
            }
        }
    }
}

/// The bytes of `elem_len` elements that start at the element offset
/// `global_elem_off` and lie in block `block_id`.
pub open spec fn slice_spec(m: ContainerModel, block_id: u32, global_elem_off: u64, elem_len: u32)
    -> Result<Seq<u8>, DecodeError> {
    if block_id >= m.dir.len() {
        Err(DecodeError::BlockIdOutOfRange)
    } else {
        let start = block_start(m.dir, m.elem_size, block_id as int);
        if global_elem_off < start {
            Err(DecodeError::OffsetBeforeBlock)
        } else {
            let byte_off = (global_elem_off - start) * m.elem_size;
            let end = byte_off + elem_len * m.elem_size;
            match block_plain(m, block_id as int) {
                Err(e) => Err(e),
                Ok(b) => if end > b.len() {
                    Err(DecodeError::SliceOutOfBlock)
                } else {
                    Ok(b.subrange(byte_off, end))
                },
            }
        }
    }
}

/// An opened container.
pub struct Container<'a> {
    /// The stored bytes behind the directory.
    pub compressed_region: &'a [u8],
    /// The block directory.
    pub dir: Vec<BlockDirEntry>,
    /// The element offset at which each block starts, and behind the last.
    pub block_start_elems: Vec<u64>,
    /// The blocks decoded so far.
    pub cache: Vec<Option<Vec<u8>>>,
    /// The codec code.
    pub codec: u8,
    /// The compression level; zero for blocks stored raw.
    pub compression_level: u8,
    /// The size of an element in bytes.
    pub elem_size: usize,
    /// The array filter code.
    pub array_filter: u8,
    /// Spare room for the byte-shuffle filter.
    pub scratch: Vec<u8>,
}

impl<'a> Container<'a> {
    /// The container as mathematical values.
    pub open spec fn model(&self) -> ContainerModel {
        ContainerModel {
            payload: self.compressed_region@,
            dir: self.dir@,
            codec: self.codec,
            compression_level: self.compression_level,
            elem_size: self.elem_size,
            array_filter: self.array_filter,
        }
    }

    /// Whether the parts of the container fit together: block starts are
    /// the running element counts, every block holds whole elements, and
    /// what is kept of a block is what decoding it gives.
    pub open spec fn wf(&self) -> bool {
        &&& self.elem_size >= 1
        &&& self.cache@.len() == self.dir@.len()
        &&& self.dir@.len() <= u32::MAX
        &&& self.block_start_elems@.len() == self.dir@.len() + 1
        &&& forall|i: int|
            0 <= i <= self.dir@.len() ==> #[trigger] self.block_start_elems@[i] == block_start(
                self.dir@,
                self.elem_size,
                i,
            )
        &&& whole_elements(self.dir@, self.elem_size, self.dir@.len() as int)
        &&& forall|i: int|
            0 <= i < self.cache@.len() ==> (#[trigger] self.cache@[i] matches Some(v)
                ==> block_plain(self.model(), i) == Ok::<Seq<u8>, DecodeError>(v@))
    }

    /// Makes the container without blocks.
    pub fn empty() -> (c: Container<'a>)
        ensures
            c.wf(),
            c.model() == empty_model(),
    {
        let mut starts: Vec<u64> = Vec::new();
        starts.push(0);
        let nothing: &'a [u8] = &[];
        let c = Container {
            compressed_region: nothing,
            dir: Vec::new(),
            block_start_elems: starts,
            cache: Vec::new(),
            codec: HDR_CODEC_ZLIB,
            compression_level: 0,
            elem_size: 1,
            array_filter: ARRAY_FILTER_NONE,
            scratch: Vec::new(),
        };
        assert(c.model().payload =~= Seq::<u8>::empty());
        assert(c.model().dir =~= Seq::<BlockDirEntry>::empty());
        c
    }

    /// Opens the container that occupies `size` bytes at `off` in `file`.
    pub fn new(
        file: &'a [u8],
        off: usize,
        size: usize,
        block_count: u32,
        codec: u8,
        compression_level: u8,
        elem_size: usize,
        array_filter: u8,
    ) -> (r: Result<Container<'a>, DecodeError>)
        ensures
            match r {
                Ok(c) => c.wf() && container_model(
                    file@,
                    off as int,
                    size as int,
                    block_count,
                    codec,
                    compression_level,
                    elem_size,
                    array_filter,
                ) == Ok::<ContainerModel, DecodeError>(c.model()),
                Err(e) => container_model(
                    file@,
                    off as int,
                    size as int,
                    block_count,
                    codec,
                    compression_level,
                    elem_size,
                    array_filter,
                ) == Err::<ContainerModel, DecodeError>(e),
            },
    {
        if size == 0 || block_count == 0 {
            return Ok(Self::empty());
        }
        if elem_size == 0 {
            return Err(DecodeError::BadFloatFormat);
        }
        let total = file.len();
        if off > total || size > total - off {
            return Err(DecodeError::UnexpectedEnd);
        }
        if block_count as u64 * 32 > size as u64 {
            return Err(DecodeError::UnexpectedEnd);
        }
        let bc: usize = block_count as usize;
        let dir_bytes: usize = bc * BLOCK_DIR_ENTRY_SIZE;
        let ghost want = Seq::new(block_count as nat, |i: int| dir_entry_at(file@, off as int, i));
        let mut dir: Vec<BlockDirEntry> = Vec::with_capacity(bc);
        let mut starts: Vec<u64> = Vec::with_capacity(bc + 1);
        let mut cache: Vec<Option<Vec<u8>>> = Vec::with_capacity(bc);
        starts.push(0);
        let mut acc: u64 = 0;
        let mut i: usize = 0;
        while i < bc
            invariant
                elem_size >= 1,
                total == file.len(),
                off + size <= total,
                bc == block_count,
                bc * 32 <= size,
                i <= bc,
                want == Seq::new(block_count as nat, |i: int| dir_entry_at(file@, off as int, i)),
                dir@ == want.take(i as int),
                whole_elements(want, elem_size, i as int),
                cache@.len() == i,
                forall|j: int| 0 <= j < i ==> #[trigger] cache@[j] is None,
                starts@.len() == i + 1,
                acc == block_start(want, elem_size, i as int),
                forall|j: int|
                    0 <= j <= i ==> #[trigger] starts@[j] == block_start(want, elem_size, j),
            decreases bc - i,
        {
            let base = off + i * BLOCK_DIR_ENTRY_SIZE;
            let e = BlockDirEntry {
                comp_off: le_u64_at(file, base),
                comp_size: le_u64_at(file, base + 8),
                uncomp_bytes: le_u64_at(file, base + 16),
            };
            assert(e == want[i as int]);
            if e.uncomp_bytes % (elem_size as u64) != 0 {
                assert(!whole_elements(want, elem_size, block_count as int));
                return Err(DecodeError::RaggedElements);
            }
            let elems = e.uncomp_bytes / (elem_size as u64);
            acc = acc.saturating_add(elems);
            dir.push(e);
            cache.push(None);
            starts.push(acc);
            assert(dir@ =~= want.take(i + 1));
            i = i + 1;
        }
        assert(dir@ =~= want);
        let region = slice_subrange(file, off + dir_bytes, off + size);
        let c = Container {
            compressed_region: region,
            dir,
            block_start_elems: starts,
            cache,
            codec,
            compression_level,
            elem_size,
            array_filter,
            scratch: Vec::new(),
        };
        Ok(c)
    }

    /// The number of blocks.
    pub fn block_count(&self) -> (n: usize)
        ensures
            n == self.dir@.len(),
    {
        self.dir.len()
    }

    /// Decodes block `block_id`, unless it is kept already, and keeps it.
    pub fn ensure_block(&mut self, block_id: u32) -> (r: Result<(), DecodeError>)
        requires
            old(self).wf(),
        ensures
            final(self).wf(),
            final(self).model() == old(self).model(),
            match r {
                Ok(()) => block_plain(old(self).model(), block_id as int) is Ok && (
                final(self).keeps(block_id as int) || final(self).stores_plain()),
                Err(e) => block_plain(old(self).model(), block_id as int) == Err::<
                    Seq<u8>,
                    DecodeError,
                >(e),
            },
    {
        let id = block_id as usize;
        if id >= self.dir.len() {
            return Err(DecodeError::BlockIdOutOfRange);
        }
        let e = self.dir[id];
        let n = self.compressed_region.len();
        if e.comp_off > n as u64 || e.comp_size > n as u64 - e.comp_off {
            return Err(DecodeError::UnexpectedEnd);
        }
        let start = e.comp_off as usize;
        let end = start + e.comp_size as usize;
        let shuffled = self.array_filter == ARRAY_FILTER_BYTE_SHUFFLE && self.elem_size > 1;
        if self.compression_level == 0 && !shuffled {
            if e.comp_size != e.uncomp_bytes {
                return Err(DecodeError::BlockSizeMismatch);
            }
            return Ok(());
        }
        if self.cache[id].is_some() {
            return Ok(());
        }
        let comp = slice_subrange(self.compressed_region, start, end);
        let mut block: Vec<u8> = if self.compression_level == 0 {
            slice_to_vec(comp)
        } else {
            match decode_block(self.codec, comp, e.uncomp_bytes) {
                Ok(v) => v,
                Err(err) => {
                    return Err(err);
                },
            }
        };
        if block.len() as u64 != e.uncomp_bytes {
            return Err(DecodeError::BlockSizeMismatch);
        }
        if shuffled {
            self.scratch.clear();
            self.scratch.resize(block.len(), 0u8);
            assert(e == self.dir@[id as int]);
            assert(block@.len() as int % self.elem_size as int == 0);
            match unshuffle_into(self.scratch.as_mut_slice(), block.as_slice(), self.elem_size) {
                Ok(()) => {},
                Err(_) => {
                    unreached::<()>();
                },
            }
            core::mem::swap(&mut block, &mut self.scratch);
        }
        let ghost plain = block@;
        self.cache[id] = Some(block);
        proof {
            assert(block_plain(self.model(), id as int) == Ok::<Seq<u8>, DecodeError>(plain));
            assert forall|i: int| 0 <= i < self.cache@.len() implies (
            #[trigger] self.cache@[i] matches Some(v) ==> block_plain(self.model(), i) == Ok::<
                Seq<u8>,
                DecodeError,
            >(v@)) by {
                if i != id {
                    assert(self.cache@[i] == old(self).cache@[i]);
                }
            }
        }
        Ok(())
    }

    /// Whether block `id` is kept decoded.
    pub open spec fn keeps(&self, id: int) -> bool {
        0 <= id < self.cache@.len() && self.cache@[id] is Some
    }

    /// Whether blocks are stored just as they are read.
    pub open spec fn stores_plain(&self) -> bool {
        self.compression_level == 0 && !is_shuffled(self.model())
    }

    /// Borrows the decoded bytes of a block that `ensure_block` accepted.
    pub fn peek_block(&self, block_id: u32) -> (b: &[u8])
        requires
            self.wf(),
            block_plain(self.model(), block_id as int) is Ok,
            self.keeps(block_id as int) || self.stores_plain(),
        ensures
            block_plain(self.model(), block_id as int) == Ok::<Seq<u8>, DecodeError>(b@),
    {
        let id = block_id as usize;
        let shuffled = self.array_filter == ARRAY_FILTER_BYTE_SHUFFLE && self.elem_size > 1;
        if self.compression_level == 0 && !shuffled {
            let e = self.dir[id];
            let n = self.compressed_region.len();
            let start = e.comp_off as usize;
            let end = start + e.comp_size as usize;
            slice_subrange(self.compressed_region, start, end)
        } else {
            match &self.cache[id] {
                Some(v) => v.as_slice(),
                None => unreached(),
            }
        }
    }

    /// Returns the decoded bytes of block `block_id`.  The block is kept,
    /// so that it is decoded once however often it is asked for.
    pub fn block_bytes(&mut self, block_id: u32) -> (r: Result<&[u8], DecodeError>)
        requires
            old(self).wf(),
        ensures
            final(self).wf(),
            final(self).model() == old(self).model(),
            match r {
                Ok(b) => block_plain(old(self).model(), block_id as int) == Ok::<
                    Seq<u8>,
                    DecodeError,
                >(b@) && (final(self).keeps(block_id as int) || final(self).stores_plain()),
                Err(e) => block_plain(old(self).model(), block_id as int) == Err::<
                    Seq<u8>,
                    DecodeError,
                >(e),
            },
    {
        match self.ensure_block(block_id) {
            Ok(()) => Ok(self.peek_block(block_id)),
            Err(e) => Err(e),
        }
    }

    /// Returns the bytes of `elem_len` elements that start at the element
    /// offset `global_elem_off` of the container and lie in block
    /// `block_id`.
    pub fn slice_elems(&mut self, block_id: u32, global_elem_off: u64, elem_len: u32) -> (r:
        Result<&[u8], DecodeError>)
        requires
            old(self).wf(),
        ensures
            final(self).wf(),
            final(self).model() == old(self).model(),
            match r {
                Ok(b) => slice_spec(old(self).model(), block_id, global_elem_off, elem_len) == Ok::<
                    Seq<u8>,
                    DecodeError,
                >(b@),
                Err(e) => slice_spec(old(self).model(), block_id, global_elem_off, elem_len)
                    == Err::<Seq<u8>, DecodeError>(e),
            },
    {
        let id = block_id as usize;
        if id >= self.dir.len() {
            return Err(DecodeError::BlockIdOutOfRange);
        }
        let block_start = self.block_start_elems[id];
        if global_elem_off < block_start {
            return Err(DecodeError::OffsetBeforeBlock);
        }
        let elem_size = self.elem_size;
        let local: u64 = global_elem_off - block_start;
        let block = match self.block_bytes(block_id) {
            Ok(b) => b,
            Err(e) => {
                return Err(e);
            },
        };
        let n = block.len();
        // Everything is compared in elements so that nothing can overflow.
        let whole: usize = n / elem_size;
        proof {
            vstd::arithmetic::div_mod::lemma_fundamental_div_mod(n as int, elem_size as int);
            lemma_fits(local as int, elem_len as int, elem_size as int, n as int);
        }
        if local > whole as u64 || elem_len as u64 > whole as u64 - local {
            return Err(DecodeError::SliceOutOfBlock);
        }
        let byte_off: usize = (local as usize) * elem_size;
        let end: usize = byte_off + (elem_len as usize) * elem_size;
        Ok(slice_subrange(block, byte_off, end))
    }
}

/// `len` elements at element offset `local` end inside `n` bytes exactly
/// when they end inside the whole elements that `n` bytes hold.
pub proof fn lemma_fits(local: int, len: int, elem: int, n: int)
    requires
        0 <= local,
        0 <= len,
        0 < elem,
        0 <= n,
    ensures
        (local * elem + len * elem <= n) <==> (local + len <= n / elem),
        local + len <= n / elem ==> 0 <= local * elem <= local * elem + len * elem <= n,
{
    vstd::arithmetic::div_mod::lemma_fundamental_div_mod(n, elem);
    let q = n / elem;
    assert(local * elem + len * elem == (local + len) * elem) by (nonlinear_arith);
    assert(elem * q == q * elem) by (nonlinear_arith);
    if local + len <= q {
        assert((local + len) * elem <= q * elem) by (nonlinear_arith)
            requires
                local + len <= q,
                0 < elem,
        ;
        assert(0 <= local * elem) by (nonlinear_arith)
            requires
                0 <= local,
                0 < elem,
        ;
        assert(0 <= len * elem) by (nonlinear_arith)
            requires
                0 <= len,
                0 < elem,
        ;
    } else {
        assert((local + len) * elem >= (q + 1) * elem) by (nonlinear_arith)
            requires
                local + len >= q + 1,
                0 < elem,
        ;
        assert((q + 1) * elem == q * elem + elem) by (nonlinear_arith);
    }
}

} // verus!
