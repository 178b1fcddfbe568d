//! Writing an array container: the block directory and the stored blocks.

use vstd::prelude::*;
use crate::bytes::{push_u64_le, u64_le_bytes};
use crate::codec::{compress_block, zstd_block_compressed};
use crate::error::EncodeError;
use crate::header::ARRAY_FILTER_BYTE_SHUFFLE;
use crate::packing::vecs_view;
use crate::shuffle::{shuffle, shuffled};

verus! {

/// The bytes that are stored for a block: the block with the byte-shuffle
/// filter applied where it is on, compressed with zstd where the level is
/// not zero.  `None` where the codec fails.
pub open spec fn stored_form(plain: Seq<u8>, elem: usize, level: u8, filter: u8) -> Option<
    Seq<u8>,
> {
    let filtered = if filter == ARRAY_FILTER_BYTE_SHUFFLE && elem > 1 {
        shuffled(plain, elem as int)
    } else {
        plain
    };
    if level == 0 {
        Some(filtered)
    } else {
        zstd_block_compressed(filtered, level as i32)
    }
}

/// Why the first `n` blocks cannot be stored, where they cannot: the
/// first block that is no whole number of elements, or that the codec
/// rejects.
pub open spec fn store_error(blocks: Seq<Seq<u8>>, elem: usize, level: u8, filter: u8, n: int)
    -> Option<EncodeError>
    decreases n,
{
    if n <= 0 {
        None
    } else {
        match store_error(blocks, elem, level, filter, n - 1) {
            Some(e) => Some(e),
            None => if blocks[n - 1].len() % (elem as nat) != 0 {
                Some(EncodeError::RaggedArray)
            } else if stored_form(blocks[n - 1], elem, level, filter) is None {
                Some(EncodeError::CodecFailed)
            } else {
                None
            },
        }
    }
}

/// The stored bytes of each block.
pub open spec fn stored_blocks(blocks: Seq<Seq<u8>>, elem: usize, level: u8, filter: u8) -> Seq<
    Seq<u8>,
> {
    Seq::new(blocks.len(), |i: int| stored_form(blocks[i], elem, level, filter).unwrap())
}

/// The stored bytes of the first `n` blocks, end to end.
pub open spec fn payload_of(stored: Seq<Seq<u8>>, n: int) -> Seq<u8>
    decreases n,
{
    if n <= 0 {
        Seq::empty()
    } else {
        payload_of(stored, n - 1) + stored[n - 1]
    }
}

/// The bytes of one directory entry.
pub open spec fn entry_bytes(comp_off: u64, comp_size: u64, uncomp_bytes: u64) -> Seq<u8> {
    u64_le_bytes(comp_off) + u64_le_bytes(comp_size) + u64_le_bytes(uncomp_bytes) + u64_le_bytes(
        0,
    )
}

/// The bytes of the directory entries of the first `n` blocks.  Each
/// entry gives where the stored bytes of its block start, how many there
/// are, and how long the block is.
pub open spec fn directory_of(blocks: Seq<Seq<u8>>, stored: Seq<Seq<u8>>, n: int) -> Seq<u8>
    decreases n,
{
    if n <= 0 {
        Seq::empty()
    } else {
        directory_of(blocks, stored, n - 1) + entry_bytes(
            payload_of(stored, n - 1).len() as u64,
            stored[n - 1].len() as u64,
            blocks[n - 1].len() as u64,
        )
    }
}

/// The bytes of a container: the directory, then the stored blocks.
pub open spec fn container_bytes(blocks: Seq<Seq<u8>>, stored: Seq<Seq<u8>>) -> Seq<u8> {
    directory_of(blocks, stored, blocks.len() as int) + payload_of(stored, blocks.len() as int)
}

/// Once the first `mid` blocks cannot be stored, neither can the first
/// `n`, and for the same reason.
proof fn lemma_store_fails(
    blocks: Seq<Seq<u8>>,
    elem: usize,
    level: u8,
    filter: u8,
    mid: int,
    n: int,
)
    requires
        0 <= mid <= n,
        store_error(blocks, elem, level, filter, mid) is Some,
    ensures
        store_error(blocks, elem, level, filter, n) == store_error(
            blocks,
            elem,
            level,
            filter,
            mid,
        ),
    decreases n - mid,
{
    if mid < n {
        lemma_store_fails(blocks, elem, level, filter, mid, n - 1);
    }
}

/// Writes a container from its blocks.
pub fn store_blocks(blocks: &Vec<Vec<u8>>, elem_size: usize, level: u8, filter: u8) -> (r: Result<
    Vec<u8>,
    EncodeError,
>)
    requires
        elem_size > 0,
    ensures
        match r {
            Ok(bytes) => store_error(
                vecs_view(blocks@),
                elem_size,
                level,
                filter,
                blocks@.len() as int,
            ) is None && bytes@ == container_bytes(
                vecs_view(blocks@),
                stored_blocks(vecs_view(blocks@), elem_size, level, filter),
            ),
            Err(e) => store_error(
                vecs_view(blocks@),
                elem_size,
                level,
                filter,
                blocks@.len() as int,
            ) == Some(e),
        },
{
    let ghost bv = vecs_view(blocks@);
    let ghost st = stored_blocks(bv, elem_size, level, filter);
    let mut dir: Vec<u8> = Vec::new();
    let mut payload: Vec<u8> = Vec::new();
    let mut i: usize = 0;
    while i < blocks.len()
        invariant
            elem_size > 0,
            bv == vecs_view(blocks@),
            st == stored_blocks(bv, elem_size, level, filter),
            i <= blocks@.len(),
            store_error(bv, elem_size, level, filter, i as int) is None,
            dir@ == directory_of(bv, st, i as int),
            payload@ == payload_of(st, i as int),
        decreases blocks@.len() - i,
    {
        let b = &blocks[i];
        assert(bv[i as int] == b@);
        if b.len() % elem_size != 0 {
            proof {
                lemma_store_fails(bv, elem_size, level, filter, i + 1, blocks@.len() as int);
            }
            return Err(EncodeError::RaggedArray);
        }
        let filtered: Vec<u8> = if filter == ARRAY_FILTER_BYTE_SHUFFLE && elem_size > 1 {
            shuffle(b.as_slice(), elem_size)
        } else {
            let mut copy: Vec<u8> = Vec::new();
            copy.extend_from_slice(b.as_slice());
            assert(copy@ =~= b@);
            copy
        };
        let stored: Vec<u8> = if level == 0 {
            filtered
        } else {
            match compress_block(filtered.as_slice(), level) {
                Some(v) => v,
                None => {
                    proof {
                        lemma_store_fails(
                            bv,
                            elem_size,
                            level,
                            filter,
                            i + 1,
                            blocks@.len() as int,
                        );
                    }
                    return Err(EncodeError::CodecFailed);
                },
            }
        };
        assert(stored_form(b@, elem_size, level, filter) == Some(stored@));
        assert(st[i as int] == stored@);
        push_u64_le(&mut dir, payload.len() as u64);
        push_u64_le(&mut dir, stored.len() as u64);
        push_u64_le(&mut dir, b.len() as u64);
        push_u64_le(&mut dir, 0);
        payload.extend_from_slice(stored.as_slice());
        proof {
            assert(dir@ =~= directory_of(bv, st, i as int) + entry_bytes(
                payload_of(st, i as int).len() as u64,
                stored@.len() as u64,
                b@.len() as u64,
            ));
        }
        i = i + 1;
    }
    dir.extend_from_slice(payload.as_slice());
    Ok(dir)
}

} // verus!
