//! What holds between a written container and what the reader makes of
//! it.

use vstd::prelude::*;
use crate::bytes::{in_bounds, le_u64, lemma_le_bytes_len, lemma_u64_round_trip, u64_le_bytes};
use crate::codec::block_decoded;
use crate::container::{
    block_plain, block_start, BlockDirEntry, container_model, ContainerModel, dir_entry_at,
    is_shuffled, slice_spec, whole_elements,
};
use crate::container_writer::{
    container_bytes, directory_of, entry_bytes, payload_of, stored_blocks, stored_form,
};
use crate::error::DecodeError;
use crate::header::ARRAY_FILTER_BYTE_SHUFFLE;
use crate::packing::{
    BLOCK_THRESHOLD, blocks_of, elems_prefix, entry_of_array, lemma_packing, lemma_places,
    open_in_use, packed, Packing,
};
use crate::shuffle::{lemma_shuffle_symmetry, shuffled};

verus! {

/// The directory entry that is written for block `i`.
pub open spec fn written_entry(blocks: Seq<Seq<u8>>, stored: Seq<Seq<u8>>, i: int)
    -> BlockDirEntry {
    BlockDirEntry {
        comp_off: payload_of(stored, i).len() as u64,
        comp_size: stored[i].len() as u64,
        uncomp_bytes: blocks[i].len() as u64,
    }
}

/// Reading the three numbers of a directory entry where its bytes lie
/// gives the numbers that were written.
pub proof fn lemma_entry_reads_back(all: Seq<u8>, o: int, off: u64, size: u64, uncomp: u64)
    requires
        0 <= o,
        o + 32 <= all.len(),
        all.subrange(o, o + 32) == entry_bytes(off, size, uncomp),
    ensures
        le_u64(all, o) == off,
        le_u64(all, o + 8) == size,
        le_u64(all, o + 16) == uncomp,
{
    lemma_le_bytes_len(0, off);
    lemma_le_bytes_len(0, size);
    lemma_le_bytes_len(0, uncomp);
    lemma_le_bytes_len(0, 0);
    let e = all.subrange(o, o + 32);
    assert(all.subrange(o, o + 8) =~= e.subrange(0, 8));
    assert(all.subrange(o + 8, o + 16) =~= e.subrange(8, 16));
    assert(all.subrange(o + 16, o + 24) =~= e.subrange(16, 24));
    assert(e.subrange(0, 8) =~= u64_le_bytes(off));
    assert(e.subrange(8, 16) =~= u64_le_bytes(size));
    assert(e.subrange(16, 24) =~= u64_le_bytes(uncomp));
    lemma_u64_round_trip(all, o, off);
    lemma_u64_round_trip(all, o + 8, size);
    lemma_u64_round_trip(all, o + 16, uncomp);
}

/// The directory of `n` blocks takes `32 n` bytes.
pub proof fn lemma_directory_len(blocks: Seq<Seq<u8>>, stored: Seq<Seq<u8>>, n: int)
    requires
        0 <= n,
    ensures
        directory_of(blocks, stored, n).len() == 32 * n,
    decreases n,
{
    if n > 0 {
        lemma_directory_len(blocks, stored, n - 1);
        lemma_le_bytes_len(0, 0);
        lemma_le_bytes_len(0, payload_of(stored, n - 1).len() as u64);
        lemma_le_bytes_len(0, stored[n - 1].len() as u64);
        lemma_le_bytes_len(0, blocks[n - 1].len() as u64);
    }
}

/// The stored bytes of the first blocks are a prefix of those of more
/// blocks, and block `i` lies behind it.
pub proof fn lemma_payload(stored: Seq<Seq<u8>>, n: int, i: int)
    requires
        0 <= i < n <= stored.len(),
    ensures
        payload_of(stored, i).len() + stored[i].len() <= payload_of(stored, n).len(),
        payload_of(stored, n).subrange(
            payload_of(stored, i).len() as int,
            (payload_of(stored, i).len() + stored[i].len()) as int,
        ) == stored[i],
    decreases n,
{
    if i < n - 1 {
        lemma_payload(stored, n - 1, i);
        let a = payload_of(stored, n - 1);
        let lo = payload_of(stored, i).len() as int;
        let hi = lo + stored[i].len() as int;
        assert((a + stored[n - 1]).subrange(lo, hi) =~= a.subrange(lo, hi));
    } else {
        let a = payload_of(stored, n - 1);
        assert((a + stored[i]).subrange(a.len() as int, (a.len() + stored[i].len()) as int)
            =~= stored[i]);
    }
}

/// Reading entry `i` of a written directory gives the entry that was
/// written, whatever follows the directory.
pub proof fn lemma_directory_reads_back(
    blocks: Seq<Seq<u8>>,
    stored: Seq<Seq<u8>>,
    n: int,
    rest: Seq<u8>,
    i: int,
)
    requires
        0 <= i < n,
        n <= blocks.len(),
        n <= stored.len(),
        payload_of(stored, n).len() <= u64::MAX,
        forall|k: int| 0 <= k < n ==> (#[trigger] blocks[k]).len() <= u64::MAX,
    ensures
        dir_entry_at(directory_of(blocks, stored, n) + rest, 0, i) == written_entry(
            blocks,
            stored,
            i,
        ),
    decreases n,
{
    let head = directory_of(blocks, stored, n - 1);
    lemma_directory_len(blocks, stored, n - 1);
    let e = written_entry(blocks, stored, n - 1);
    let eb = entry_bytes(e.comp_off, e.comp_size, e.uncomp_bytes);
    let all = directory_of(blocks, stored, n) + rest;
    assert(directory_of(blocks, stored, n) == head + eb);
    if i < n - 1 {
        lemma_payload(stored, n, n - 1);
        lemma_directory_reads_back(blocks, stored, n - 1, eb + rest, i);
        assert(all =~= head + (eb + rest));
    } else {
        let o = 32 * i;
        lemma_directory_len(blocks, stored, n);
        assert(all.subrange(o, o + 32) =~= eb);
        lemma_entry_reads_back(all, o, e.comp_off, e.comp_size, e.uncomp_bytes);
    }
}

/// Whether the blocks and what is stored for them can stand in a
/// container: there is a block, there are no more than 32 bits count,
/// each is a whole number of elements, and the sizes fit 64 bits.
pub open spec fn writable(blocks: Seq<Seq<u8>>, stored: Seq<Seq<u8>>, elem: usize) -> bool {
    &&& 0 < elem
    &&& 0 < blocks.len() <= u32::MAX
    &&& stored.len() == blocks.len()
    &&& payload_of(stored, blocks.len() as int).len() <= u64::MAX
    &&& directory_of(blocks, stored, blocks.len() as int).len() + payload_of(
        stored,
        blocks.len() as int,
    ).len() <= usize::MAX
    &&& forall|k: int|
        0 <= k < blocks.len() ==> (#[trigger] blocks[k]).len() <= u64::MAX && blocks[k].len() % (
        elem as nat) == 0
}

/// The container that a reader sees in written bytes.
pub open spec fn written_model(
    blocks: Seq<Seq<u8>>,
    stored: Seq<Seq<u8>>,
    codec: u8,
    level: u8,
    elem: usize,
    filter: u8,
) -> ContainerModel {
    ContainerModel {
        payload: payload_of(stored, blocks.len() as int),
        dir: Seq::new(blocks.len(), |i: int| written_entry(blocks, stored, i)),
        codec,
        compression_level: level,
        elem_size: elem,
        array_filter: filter,
    }
}

/// Opening the bytes of a written container gives a container whose
/// directory is the one written and whose block count is the number of
/// blocks.
pub proof fn lemma_written_container_opens(
    blocks: Seq<Seq<u8>>,
    stored: Seq<Seq<u8>>,
    codec: u8,
    level: u8,
    elem: usize,
    filter: u8,
)
    requires
        writable(blocks, stored, elem),
    ensures
        container_model(
            container_bytes(blocks, stored),
            0,
            container_bytes(blocks, stored).len() as int,
            blocks.len() as u32,
            codec,
            level,
            elem,
            filter,
        ) == Ok::<ContainerModel, DecodeError>(
            written_model(blocks, stored, codec, level, elem, filter),
        ),
{
    let n = blocks.len() as int;
    let bytes = container_bytes(blocks, stored);
    let dirb = directory_of(blocks, stored, n);
    let pay = payload_of(stored, n);
    lemma_directory_len(blocks, stored, n);
    let want = written_model(blocks, stored, codec, level, elem, filter);
    let dir = Seq::new(n as nat, |i: int| dir_entry_at(bytes, 0, i));
    assert forall|i: int| 0 <= i < n implies #[trigger] dir[i] == want.dir[i] by {
        lemma_directory_reads_back(blocks, stored, n, pay, i);
    }
    assert(dir =~= want.dir);
    assert(bytes.subrange(32 * n, bytes.len() as int) =~= pay);
    assert(whole_elements(dir, elem, n)) by {
        assert forall|i: int| 0 <= i < n implies (#[trigger] dir[i]).uncomp_bytes as int
            % elem as int == 0 by {
            assert(dir[i] == want.dir[i]);
        }
    }
}

/// Whether the codec gives back the filtered block `i` from what is
/// stored for it.  Blocks that are stored raw need no codec.
pub open spec fn codec_inverts(
    blocks: Seq<Seq<u8>>,
    stored: Seq<Seq<u8>>,
    codec: u8,
    level: u8,
    elem: usize,
    filter: u8,
    i: int,
) -> bool {
    level != 0 ==> block_decoded(codec, stored[i], blocks[i].len() as u64) == Ok::<
        Seq<u8>,
        DecodeError,
    >(
        if filter == ARRAY_FILTER_BYTE_SHUFFLE && elem > 1 {
            shuffled(blocks[i], elem as int)
        } else {
            blocks[i]
        },
    )
}

/// Decoding block `i` of a written container gives the block that was
/// written.  This holds outright for blocks stored raw, with or without
/// the byte-shuffle filter, and for compressed blocks wherever the codec
/// gives back what was compressed.
pub proof fn lemma_block_round_trip(
    blocks: Seq<Seq<u8>>,
    codec: u8,
    level: u8,
    elem: usize,
    filter: u8,
    i: int,
)
    requires
        0 <= i < blocks.len(),
        writable(blocks, stored_blocks(blocks, elem, level, filter), elem),
        stored_form(blocks[i], elem, level, filter) is Some,
        codec_inverts(
            blocks,
            stored_blocks(blocks, elem, level, filter),
            codec,
            level,
            elem,
            filter,
            i,
        ),
    ensures
        block_plain(
            written_model(
                blocks,
                stored_blocks(blocks, elem, level, filter),
                codec,
                level,
                elem,
                filter,
            ),
            i,
        ) == Ok::<Seq<u8>, DecodeError>(blocks[i]),
{
    let stored = stored_blocks(blocks, elem, level, filter);
    let m = written_model(blocks, stored, codec, level, elem, filter);
    lemma_payload(stored, blocks.len() as int, i);
    let e = m.dir[i];
    assert(e == written_entry(blocks, stored, i));
    let comp = m.payload.subrange(e.comp_off as int, e.comp_off + e.comp_size);
    assert(comp == stored[i]);
    if is_shuffled(m) {
        lemma_shuffle_symmetry(blocks[i], elem as int);
    }
}

/// The number of elements in the first `b` blocks.
pub open spec fn elems_before(blocks: Seq<Seq<u8>>, elem: int, b: int) -> int
    decreases b,
{
    if b <= 0 {
        0
    } else {
        elems_before(blocks, elem, b - 1) + blocks[b - 1].len() as int / elem
    }
}

/// The count of elements in the first blocks does not shrink as more
/// blocks are counted, and it does not depend on the blocks behind.
pub proof fn lemma_elems_before(blocks: Seq<Seq<u8>>, more: Seq<Seq<u8>>, elem: int, b: int, n: int)
    requires
        0 <= b <= n <= blocks.len(),
        0 < elem,
    ensures
        0 <= elems_before(blocks, elem, b) <= elems_before(blocks, elem, n),
        elems_before(blocks + more, elem, b) == elems_before(blocks, elem, b),
    decreases n,
{
    if n > 0 {
        let x = blocks[n - 1].len() as int;
        assert(0 <= x / elem) by (nonlinear_arith)
            requires
                0 <= x,
                0 < elem,
        ;
        if b < n {
            lemma_elems_before(blocks, more, elem, b, n - 1);
        } else {
            lemma_elems_before(blocks, more, elem, n - 1, n - 1);
            assert((blocks + more)[n - 1] == blocks[n - 1]);
        }
    }
}

/// The start of a block that the reader computes from a written
/// directory is the number of elements in the blocks before it.
pub proof fn lemma_block_starts(
    blocks: Seq<Seq<u8>>,
    stored: Seq<Seq<u8>>,
    codec: u8,
    level: u8,
    elem: usize,
    filter: u8,
    b: int,
)
    requires
        writable(blocks, stored, elem),
        0 <= b <= blocks.len(),
        elems_before(blocks, elem as int, blocks.len() as int) <= u64::MAX,
    ensures
        block_start(
            written_model(blocks, stored, codec, level, elem, filter).dir,
            elem,
            b,
        ) == elems_before(blocks, elem as int, b),
    decreases b,
{
    if b > 0 {
        lemma_block_starts(blocks, stored, codec, level, elem, filter, b - 1);
        lemma_elems_before(blocks, Seq::empty(), elem as int, b, blocks.len() as int);
        lemma_elems_before(blocks, Seq::empty(), elem as int, b - 1, blocks.len() as int);
        let m = written_model(blocks, stored, codec, level, elem, filter);
        assert(m.dir[b - 1] == written_entry(blocks, stored, b - 1));
    }
}

/// Whole numbers of elements add up: the elements of two runs laid end
/// to end are those of the one and those of the other.
pub proof fn lemma_whole_sum(x: int, y: int, elem: int)
    requires
        0 <= x,
        0 <= y,
        0 < elem,
        x % elem == 0,
        y % elem == 0,
    ensures
        (x + y) % elem == 0,
        (x + y) / elem == x / elem + y / elem,
        (x / elem) * elem == x,
{
    vstd::arithmetic::div_mod::lemma_fundamental_div_mod(x, elem);
    vstd::arithmetic::div_mod::lemma_fundamental_div_mod(y, elem);
    let q = x / elem + y / elem;
    assert(x + y == q * elem) by (nonlinear_arith)
        requires
            x == elem * (x / elem),
            y == elem * (y / elem),
            q == x / elem + y / elem,
    ;
    vstd::arithmetic::div_mod::lemma_fundamental_div_mod_converse(x + y, elem, q, 0);
    assert((x / elem) * elem == x) by (nonlinear_arith)
        requires
            x == elem * (x / elem),
    ;
}

/// Whether every array is a whole number of elements.
pub open spec fn whole_arrays(arrays: Seq<Seq<u8>>, elem: int) -> bool {
    forall|i: int| 0 <= i < arrays.len() ==> (#[trigger] arrays[i]).len() as int % elem == 0
}

/// What holds of the element counts in every state of packing whole
/// arrays: blocks hold whole elements, the elements packed so far are
/// those of the closed blocks and of the open one, and every array starts
/// at the element that its place gives.
pub open spec fn counting_inv(p: Packing, arrays: Seq<Seq<u8>>, elem: int) -> bool {
    &&& p.places.len() == arrays.len()
    &&& forall|b: int| 0 <= b < p.closed.len() ==> (#[trigger] p.closed[b]).len() as int % elem == 0
    &&& p.open.len() as int % elem == 0
    &&& elems_before(p.closed, elem, p.closed.len() as int) + p.open.len() as int / elem
        == elems_prefix(arrays, elem, arrays.len() as int)
    &&& forall|i: int|
        0 <= i < arrays.len() ==> {
            let pl = #[trigger] p.places[i];
            &&& pl.block <= p.closed.len()
            &&& pl.local as int % elem == 0
            &&& elems_prefix(arrays, elem, i) == elems_before(p.closed, elem, pl.block as int)
                + pl.local as int / elem
        }
}

/// The count of elements in a prefix does not depend on the arrays
/// behind it.
pub proof fn lemma_elems_prefix_take(arrays: Seq<Seq<u8>>, elem: int, n: int, i: int)
    requires
        0 <= i <= n <= arrays.len(),
    ensures
        elems_prefix(arrays.take(n), elem, i) == elems_prefix(arrays, elem, i),
    decreases i,
{
    if i > 0 {
        lemma_elems_prefix_take(arrays, elem, n, i - 1);
        assert(arrays.take(n)[i - 1] == arrays[i - 1]);
    }
}

/// Packing whole arrays keeps the counts in order.
pub proof fn lemma_counting(arrays: Seq<Seq<u8>>, elem: int, threshold: nat)
    requires
        0 < elem,
        whole_arrays(arrays, elem),
    ensures
        counting_inv(packed(arrays, threshold), arrays, elem),
    decreases arrays.len(),
{
    assert(0int % elem == 0 && 0int / elem == 0) by (nonlinear_arith)
        requires
            0 < elem,
    ;
    if arrays.len() > 0 {
        let n = arrays.len() as int;
        let head = arrays.drop_last();
        let a = arrays.last();
        assert(head =~= arrays.take(n - 1));
        assert forall|i: int| 0 <= i < head.len() implies (#[trigger] head[i]).len() as int
            % elem == 0 by {
            assert(head[i] == arrays[i]);
        }
        lemma_counting(head, elem, threshold);
        let before = packed(head, threshold);
        let after = packed(arrays, threshold);
        let grown = before.open + a;
        assert(a == arrays[n - 1]);
        lemma_whole_sum(before.open.len() as int, a.len() as int, elem);
        assert(grown.len() == before.open.len() + a.len());
        lemma_elems_prefix_take(arrays, elem, n - 1, n - 1);
        assert(elems_prefix(arrays, elem, n) == elems_prefix(arrays, elem, n - 1) + a.len() as int
            / elem);
        if grown.len() >= threshold {
            lemma_elems_before(before.closed, seq![grown], elem, before.closed.len() as int,
                before.closed.len() as int);
            assert(after.closed =~= before.closed + seq![grown]);
            assert(after.closed[after.closed.len() - 1] == grown);
            assert forall|b: int| 0 <= b < after.closed.len() implies (
            #[trigger] after.closed[b]).len() as int % elem == 0 by {
                if b < before.closed.len() {
                    assert(after.closed[b] == before.closed[b]);
                }
            }
        }
        assert forall|i: int| 0 <= i < arrays.len() implies {
            let pl = #[trigger] after.places[i];
            &&& pl.block <= after.closed.len()
            &&& pl.local as int % elem == 0
            &&& elems_prefix(arrays, elem, i) == elems_before(after.closed, elem, pl.block as int)
                + pl.local as int / elem
        } by {
            let pl = after.places[i];
            if i < n - 1 {
                assert(pl == before.places[i]);
                lemma_elems_prefix_take(arrays, elem, n - 1, i);
            } else {
                assert(pl.block == before.closed.len());
                assert(pl.local == before.open.len());
            }
            if grown.len() >= threshold {
                lemma_elems_before(before.closed, seq![grown], elem, pl.block as int,
                    before.closed.len() as int);
            }
        }
    }
}

/// Every array starts, counted in elements from the start of the
/// container, where the blocks before its block end plus where it starts
/// inside its block; and the blocks together hold the elements of all the
/// arrays.
pub proof fn lemma_entry_offsets(arrays: Seq<Seq<u8>>, elem: int, threshold: nat, i: int)
    requires
        0 < elem,
        whole_arrays(arrays, elem),
        0 <= i < arrays.len(),
    ensures
        ({
            let p = packed(arrays, threshold);
            let blocks = blocks_of(p);
            let pl = p.places[i];
            &&& pl.block < blocks.len()
            &&& pl.local as int % elem == 0
            &&& elems_prefix(arrays, elem, i) == elems_before(blocks, elem, pl.block as int)
                + pl.local as int / elem
            &&& elems_before(blocks, elem, blocks.len() as int) == elems_prefix(
                arrays,
                elem,
                arrays.len() as int,
            )
            &&& forall|b: int| 0 <= b < blocks.len() ==> (#[trigger] blocks[b]).len() as int % elem
                == 0
        }),
{
    let p = packed(arrays, threshold);
    let blocks = blocks_of(p);
    lemma_counting(arrays, elem, threshold);
    lemma_packing(arrays, threshold);
    lemma_places(arrays, threshold, i);
    let pl = p.places[i];
    let c = p.closed.len() as int;
    if open_in_use(p) {
        assert(blocks =~= p.closed + seq![p.open]);
        lemma_elems_before(p.closed, seq![p.open], elem, pl.block as int, c);
        lemma_elems_before(p.closed, seq![p.open], elem, c, c);
        assert(blocks[c] == p.open);
        assert forall|b: int| 0 <= b < blocks.len() implies (#[trigger] blocks[b]).len() as int
            % elem == 0 by {
            if b < c {
                assert(blocks[b] == p.closed[b]);
            }
        }
    } else {
        assert(p.open.len() == 0);
    }
}

/// Reading the array `i` of a written container through its index entry
/// gives the bytes of the array.  This holds outright where blocks are
/// stored raw, and where they are compressed it holds wherever the codec
/// gives back what was compressed.
pub proof fn lemma_slice_round_trip(
    arrays: Seq<Seq<u8>>,
    codec: u8,
    level: u8,
    elem: usize,
    filter: u8,
    i: int,
)
    requires
        0 <= i < arrays.len(),
        0 < elem,
        whole_arrays(arrays, elem as int),
        arrays[i].len() / (elem as nat) <= u32::MAX,
        elems_prefix(arrays, elem as int, arrays.len() as int) <= u64::MAX,
        ({
            let blocks = blocks_of(packed(arrays, BLOCK_THRESHOLD as nat));
            let stored = stored_blocks(blocks, elem, level, filter);
            let b = packed(arrays, BLOCK_THRESHOLD as nat).places[i].block as int;
            &&& writable(blocks, stored, elem)
            &&& stored_form(blocks[b], elem, level, filter) is Some
            &&& codec_inverts(blocks, stored, codec, level, elem, filter, b)
        }),
    ensures
        ({
            let blocks = blocks_of(packed(arrays, BLOCK_THRESHOLD as nat));
            let stored = stored_blocks(blocks, elem, level, filter);
            let e = entry_of_array(arrays, elem as int, i);
            slice_spec(
                written_model(blocks, stored, codec, level, elem, filter),
                e.2,
                e.0,
                e.1,
            ) == Ok::<Seq<u8>, DecodeError>(arrays[i])
        }),
{
    let t = BLOCK_THRESHOLD as nat;
    let p = packed(arrays, t);
    let blocks = blocks_of(p);
    let stored = stored_blocks(blocks, elem, level, filter);
    let m = written_model(blocks, stored, codec, level, elem, filter);
    let pl = p.places[i];
    let b = pl.block as int;
    let e = entry_of_array(arrays, elem as int, i);
    lemma_places(arrays, t, i);
    lemma_entry_offsets(arrays, elem as int, t, i);
    lemma_block_starts(blocks, stored, codec, level, elem, filter, b);
    lemma_block_round_trip(blocks, codec, level, elem, filter, b);
    crate::packing::lemma_elems_prefix(arrays, elem as int, arrays.len() as int, i);
    lemma_elems_before(blocks, Seq::empty(), elem as int, b, blocks.len() as int);
    lemma_whole_sum(pl.local as int, pl.len as int, elem as int);
    lemma_whole_sum(pl.len as int, 0, elem as int);
    let start = elems_before(blocks, elem as int, b);
    assert(e.0 == start + pl.local as int / elem as int);
    assert(e.1 == pl.len as int / elem as int);
    assert(e.2 == b);
    assert((e.0 - start) * elem == pl.local);
    assert(e.1 * elem == pl.len);
}

/// The elements that the directory of a written container accounts for
/// are the elements of all the arrays, and the index entries of two
/// arrays never overlap: each array ends where the next begins or
/// before.
pub proof fn lemma_entries_tile(arrays: Seq<Seq<u8>>, elem: int, i: int, j: int)
    requires
        0 < elem,
        whole_arrays(arrays, elem),
        0 <= i < j < arrays.len(),
    ensures
        ({
            let blocks = blocks_of(packed(arrays, BLOCK_THRESHOLD as nat));
            &&& elems_before(blocks, elem, blocks.len() as int) == elems_prefix(
                arrays,
                elem,
                arrays.len() as int,
            )
            &&& elems_prefix(arrays, elem, i) + arrays[i].len() as int / elem <= elems_prefix(
                arrays,
                elem,
                j,
            )
        }),
{
    lemma_entry_offsets(arrays, elem, BLOCK_THRESHOLD as nat, i);
    crate::packing::lemma_elems_prefix(arrays.take(j), elem, j, i + 1);
    lemma_elems_prefix_take(arrays, elem, j, i + 1);
    lemma_elems_prefix_take(arrays, elem, j, j);
}

/// The bytes of the first `n` arrays, counted together.
pub open spec fn bytes_prefix(arrays: Seq<Seq<u8>>, n: int) -> int
    decreases n,
{
    if n <= 0 {
        0
    } else {
        bytes_prefix(arrays, n - 1) + arrays[n - 1].len()
    }
}

/// The bytes of the first `n` blocks, counted together.
pub open spec fn bytes_before(blocks: Seq<Seq<u8>>, n: int) -> int
    decreases n,
{
    if n <= 0 {
        0
    } else {
        bytes_before(blocks, n - 1) + blocks[n - 1].len()
    }
}

/// The bytes of the first blocks do not depend on the blocks behind,
/// and no block holds more bytes than all the blocks together.
pub proof fn lemma_bytes_before(blocks: Seq<Seq<u8>>, more: Seq<Seq<u8>>, b: int, n: int)
    requires
        0 <= b <= n <= blocks.len(),
    ensures
        0 <= bytes_before(blocks, b) <= bytes_before(blocks, n),
        bytes_before(blocks + more, b) == bytes_before(blocks, b),
        b < n ==> blocks[b].len() <= bytes_before(blocks, n),
    decreases n,
{
    if n > 0 {
        if b < n {
            lemma_bytes_before(blocks, more, b, n - 1);
        } else {
            lemma_bytes_before(blocks, more, n - 1, n - 1);
            assert((blocks + more)[n - 1] == blocks[n - 1]);
        }
    }
}

/// The closed blocks and the open block of a packing hold the bytes of
/// the arrays that were packed.
pub proof fn lemma_packed_bytes(arrays: Seq<Seq<u8>>, threshold: nat)
    ensures
        ({
            let p = packed(arrays, threshold);
            bytes_before(p.closed, p.closed.len() as int) + p.open.len() == bytes_prefix(
                arrays,
                arrays.len() as int,
            )
        }),
    decreases arrays.len(),
{
    if arrays.len() > 0 {
        let head = arrays.drop_last();
        lemma_packed_bytes(head, threshold);
        lemma_bytes_prefix_take(arrays, arrays.len() - 1);
        assert(head =~= arrays.take(arrays.len() - 1));
        let before = packed(head, threshold);
        let after = packed(arrays, threshold);
        let grown = before.open + arrays.last();
        if grown.len() >= threshold {
            lemma_bytes_before(
                before.closed,
                seq![grown],
                before.closed.len() as int,
                before.closed.len() as int,
            );
            assert(after.closed =~= before.closed + seq![grown]);
        }
    }
}

/// The bytes of a prefix of the arrays do not depend on the arrays
/// behind it.
pub proof fn lemma_bytes_prefix_take(arrays: Seq<Seq<u8>>, n: int)
    requires
        0 <= n <= arrays.len(),
    ensures
        bytes_prefix(arrays.take(n), n) == bytes_prefix(arrays, n),
    decreases n,
{
    if n > 0 {
        lemma_bytes_prefix_take(arrays, n - 1);
        assert(arrays.take(n).take(n - 1) =~= arrays.take(n - 1));
        lemma_bytes_prefix_same(arrays.take(n), arrays.take(n - 1), n - 1);
        assert(arrays.take(n)[n - 1] == arrays[n - 1]);
    }
}

/// Arrays that agree on the first `n` have the same bytes in them.
pub proof fn lemma_bytes_prefix_same(a: Seq<Seq<u8>>, b: Seq<Seq<u8>>, n: int)
    requires
        0 <= n <= a.len(),
        n <= b.len(),
        forall|i: int| 0 <= i < n ==> a[i] == b[i],
    ensures
        bytes_prefix(a, n) == bytes_prefix(b, n),
    decreases n,
{
    if n > 0 {
        lemma_bytes_prefix_same(a, b, n - 1);
    }
}

/// No block of packed arrays holds more bytes than the arrays hold
/// together.
pub proof fn lemma_block_sizes(arrays: Seq<Seq<u8>>, threshold: nat, b: int)
    requires
        0 <= b < blocks_of(packed(arrays, threshold)).len(),
    ensures
        blocks_of(packed(arrays, threshold))[b].len() <= bytes_prefix(arrays, arrays.len() as int),
{
    let p = packed(arrays, threshold);
    let blocks = blocks_of(p);
    lemma_packed_bytes(arrays, threshold);
    let c = p.closed.len() as int;
    if b < c {
        lemma_bytes_before(p.closed, Seq::empty(), b, c);
        assert(blocks[b] == p.closed[b]);
    } else {
        lemma_bytes_before(p.closed, Seq::empty(), c, c);
    }
}

/// A container reads the same whether it stands alone or inside a file.
pub proof fn lemma_container_embedded(
    file: Seq<u8>,
    off: int,
    size: int,
    block_count: u32,
    codec: u8,
    level: u8,
    elem: usize,
    filter: u8,
)
    requires
        in_bounds(file.len(), off, size),
    ensures
        container_model(file, off, size, block_count, codec, level, elem, filter)
            == container_model(
            file.subrange(off, off + size),
            0,
            size,
            block_count,
            codec,
            level,
            elem,
            filter,
        ),
{
    let piece = file.subrange(off, off + size);
    let d1 = Seq::new(block_count as nat, |i: int| dir_entry_at(file, off, i));
    let d2 = Seq::new(block_count as nat, |i: int| dir_entry_at(piece, 0, i));
    if block_count * 32 <= size {
        let a = file.subrange(0, off);
        let c = file.subrange(off + size, file.len() as int);
        assert(file =~= a + piece + c);
        assert forall|i: int| 0 <= i < block_count implies #[trigger] d1[i] == d2[i] by {
            crate::bytes::lemma_le_u64_window(a, piece, c, i * 32);
            crate::bytes::lemma_le_u64_window(a, piece, c, i * 32 + 8);
            crate::bytes::lemma_le_u64_window(a, piece, c, i * 32 + 16);
        }
        assert(d1 =~= d2);
        assert(file.subrange(off + block_count * 32, off + size) =~= piece.subrange(
            0 + block_count * 32,
            0 + size,
        ));
    }
}

} // verus!
