//! Packing arrays into blocks.
//!
//! Arrays are laid end to end.  A block is closed as soon as it holds at
//! least a threshold of bytes, so that every array lies wholly inside one
//! block.

use vstd::prelude::*;
use crate::error::EncodeError;

verus! {

/// The number of bytes at which a block is closed.
pub const BLOCK_THRESHOLD: usize = 1_048_576;

/// Where an array lies: its block, the byte at which it starts inside the
/// block, and its length in bytes.
pub struct Place {
    pub block: nat,
    pub local: nat,
    pub len: nat,
}

/// The state of packing: the closed blocks, the block that is still open,
/// and the place of every array so far.
pub struct Packing {
    pub closed: Seq<Seq<u8>>,
    pub open: Seq<u8>,
    pub places: Seq<Place>,
}

/// The state after one more array: the array goes to the end of the open
/// block, which is closed where it has reached the threshold.
pub open spec fn pack_step(p: Packing, a: Seq<u8>, threshold: nat) -> Packing {
    let place = Place { block: p.closed.len(), local: p.open.len(), len: a.len() };
    let grown = p.open + a;
    if grown.len() >= threshold {
        Packing { closed: p.closed.push(grown), open: Seq::empty(), places: p.places.push(place) }
    } else {
        Packing { closed: p.closed, open: grown, places: p.places.push(place) }
    }
}

/// The state after packing the arrays in order.
pub open spec fn packed(arrays: Seq<Seq<u8>>, threshold: nat) -> Packing
    decreases arrays.len(),
{
    if arrays.len() == 0 {
        Packing { closed: Seq::empty(), open: Seq::empty(), places: Seq::empty() }
    } else {
        pack_step(packed(arrays.drop_last(), threshold), arrays.last(), threshold)
    }
}

/// Whether the open block holds an array and so has to be written.
pub open spec fn open_in_use(p: Packing) -> bool {
    p.places.len() > 0 && p.places.last().block == p.closed.len()
}

/// The blocks that packing ends with: the closed ones and, where an array
/// lies in it, the open one.
pub open spec fn blocks_of(p: Packing) -> Seq<Seq<u8>> {
    if open_in_use(p) {
        p.closed.push(p.open)
    } else {
        p.closed
    }
}

/// What holds of every state of packing: each array lies where its place
/// says, in a closed block or in the open one, and an open block that
/// holds bytes holds an array.
pub open spec fn packing_inv(p: Packing, arrays: Seq<Seq<u8>>) -> bool {
    &&& p.places.len() == arrays.len()
    &&& forall|i: int|
        0 <= i < arrays.len() ==> {
            let pl = #[trigger] p.places[i];
            &&& pl.len == arrays[i].len()
            &&& pl.block <= p.closed.len()
            &&& pl.block < p.closed.len() ==> pl.local + pl.len <= p.closed[pl.block as int].len()
                && p.closed[pl.block as int].subrange(
                pl.local as int,
                (pl.local + pl.len) as int,
            ) == arrays[i]
            &&& pl.block == p.closed.len() ==> pl.local + pl.len <= p.open.len()
                && p.open.subrange(pl.local as int, (pl.local + pl.len) as int) == arrays[i]
        }
    &&& p.open.len() > 0 ==> open_in_use(p)
}

/// Packing keeps its invariant.
pub proof fn lemma_packing(arrays: Seq<Seq<u8>>, threshold: nat)
    ensures
        packing_inv(packed(arrays, threshold), arrays),
    decreases arrays.len(),
{
    if arrays.len() > 0 {
        let head = arrays.drop_last();
        let a = arrays.last();
        let before = packed(head, threshold);
        let after = packed(arrays, threshold);
        lemma_packing(head, threshold);
        let grown = before.open + a;
        assert forall|i: int| 0 <= i < arrays.len() implies {
            let pl = #[trigger] after.places[i];
            &&& pl.len == arrays[i].len()
            &&& pl.block <= after.closed.len()
            &&& pl.block < after.closed.len() ==> pl.local + pl.len <= after.closed[pl.block as int].len()
                && after.closed[pl.block as int].subrange(
                pl.local as int,
                (pl.local + pl.len) as int,
            ) == arrays[i]
            &&& pl.block == after.closed.len() ==> pl.local + pl.len <= after.open.len()
                && after.open.subrange(pl.local as int, (pl.local + pl.len) as int) == arrays[i]
        } by {
            let pl = after.places[i];
            if i < head.len() {
                assert(pl == before.places[i]);
                assert(head[i] == arrays[i]);
                if pl.block == before.closed.len() {
                    assert(grown.subrange(pl.local as int, (pl.local + pl.len) as int)
                        =~= before.open.subrange(pl.local as int, (pl.local + pl.len) as int));
                }
            } else {
                assert(grown.subrange(pl.local as int, (pl.local + pl.len) as int) =~= a);
            }
        }
    }
}

/// Every array lies in one of the blocks that packing ends with, where
/// its place says.
pub proof fn lemma_places(arrays: Seq<Seq<u8>>, threshold: nat, i: int)
    requires
        0 <= i < arrays.len(),
    ensures
        ({
            let p = packed(arrays, threshold);
            let pl = p.places[i];
            let blocks = blocks_of(p);
            &&& pl.block < blocks.len()
            &&& pl.local + pl.len <= blocks[pl.block as int].len()
            &&& blocks[pl.block as int].subrange(pl.local as int, (pl.local + pl.len) as int)
                == arrays[i]
        }),
{
    lemma_packing(arrays, threshold);
    lemma_places_ascend(arrays, threshold);
    let p = packed(arrays, threshold);
    let pl = p.places[i];
    if pl.block == p.closed.len() {
        assert(p.places[i].block <= p.places.last().block);
    }
}

/// Later arrays lie in later blocks, or in the same one.
pub proof fn lemma_places_ascend(arrays: Seq<Seq<u8>>, threshold: nat)
    ensures
        ({
            let p = packed(arrays, threshold);
            &&& p.places.len() == arrays.len()
            &&& forall|i: int, j: int|
                0 <= i <= j < arrays.len() ==> (#[trigger] p.places[i]).block <= (
                #[trigger] p.places[j]).block
            &&& forall|i: int| 0 <= i < arrays.len() ==> (#[trigger] p.places[i]).block <= p.closed.len()
        }),
    decreases arrays.len(),
{
    if arrays.len() > 0 {
        let head = arrays.drop_last();
        lemma_places_ascend(head, threshold);
        let before = packed(head, threshold);
        let after = packed(arrays, threshold);
        assert forall|i: int, j: int| 0 <= i <= j < arrays.len() implies (
        #[trigger] after.places[i]).block <= (#[trigger] after.places[j]).block by {
            if j < head.len() {
                assert(after.places[i] == before.places[i]);
                assert(after.places[j] == before.places[j]);
            } else if i < head.len() {
                assert(after.places[i] == before.places[i]);
            }
        }
        assert forall|i: int| 0 <= i < arrays.len() implies (#[trigger] after.places[i]).block
            <= after.closed.len() by {
            if i < head.len() {
                assert(after.places[i] == before.places[i]);
            }
        }
    }
}

/// The number of elements in the first `i` arrays.
pub open spec fn elems_prefix(arrays: Seq<Seq<u8>>, elem: int, i: int) -> int
    decreases i,
{
    if i <= 0 {
        0
    } else {
        elems_prefix(arrays, elem, i - 1) + arrays[i - 1].len() as int / elem
    }
}

/// Why the arrays from place `i` on cannot be packed, where they cannot:
/// the first array that is no whole number of elements, holds more
/// elements than 32 bits count, or brings the total above what 64 bits
/// count.
pub open spec fn first_bad_array(arrays: Seq<Seq<u8>>, elem: int, i: int) -> Option<EncodeError>
    decreases arrays.len() - i,
{
    if i < 0 || i >= arrays.len() {
        None
    } else if arrays[i].len() as int % elem != 0 {
        Some(EncodeError::RaggedArray)
    } else if arrays[i].len() as int / elem > u32::MAX || elems_prefix(arrays, elem, i + 1)
        > u64::MAX {
        Some(EncodeError::TooLarge)
    } else {
        first_bad_array(arrays, elem, i + 1)
    }
}

/// Why the arrays cannot be packed, where they cannot.
pub open spec fn pack_error(arrays: Seq<Seq<u8>>, elem: usize) -> Option<EncodeError> {
    if elem == 0 {
        Some(EncodeError::BadElementSize)
    } else {
        match first_bad_array(arrays, elem as int, 0) {
            Some(e) => Some(e),
            None => if blocks_of(packed(arrays, BLOCK_THRESHOLD as nat)).len() > u32::MAX {
                Some(EncodeError::TooLarge)
            } else {
                None
            },
        }
    }
}

/// The index entry of array `i`: the element at which it starts, counted
/// from the start of the container, its number of elements, and its
/// block.
pub open spec fn entry_of_array(arrays: Seq<Seq<u8>>, elem: int, i: int) -> (u64, u32, u32) {
    (
        elems_prefix(arrays, elem, i) as u64,
        (arrays[i].len() as int / elem) as u32,
        packed(arrays, BLOCK_THRESHOLD as nat).places[i].block as u32,
    )
}

/// The index entries of the arrays.
pub open spec fn entries_of(arrays: Seq<Seq<u8>>, elem: int) -> Seq<(u64, u32, u32)> {
    Seq::new(arrays.len(), |i: int| entry_of_array(arrays, elem, i))
}

/// The bytes of vectors.
pub open spec fn vecs_view(v: Seq<Vec<u8>>) -> Seq<Seq<u8>> {
    Seq::new(v.len(), |i: int| v[i]@)
}

/// The place of an array does not change when more arrays follow.
pub proof fn lemma_places_stable(arrays: Seq<Seq<u8>>, threshold: nat, n: int, i: int)
    requires
        0 <= i < n <= arrays.len(),
    ensures
        packed(arrays.take(n), threshold).places.len() == n,
        packed(arrays, threshold).places.len() == arrays.len(),
        packed(arrays, threshold).places[i] == packed(arrays.take(n), threshold).places[i],
    decreases arrays.len() - n,
{
    lemma_places_ascend(arrays, threshold);
    lemma_places_ascend(arrays.take(n), threshold);
    if n < arrays.len() {
        lemma_places_stable(arrays, threshold, n + 1, i);
        lemma_places_ascend(arrays.take(n + 1), threshold);
        assert(arrays.take(n + 1).drop_last() =~= arrays.take(n));
    } else {
        assert(arrays.take(n) =~= arrays);
    }
}

/// The count of elements in a prefix does not shrink as the prefix
/// grows.
pub proof fn lemma_elems_prefix(arrays: Seq<Seq<u8>>, elem: int, n: int, i: int)
    requires
        0 <= i <= n <= arrays.len(),
        0 < elem,
    ensures
        0 <= elems_prefix(arrays, elem, i) <= elems_prefix(arrays, elem, n),
    decreases n,
{
    if n > 0 {
        let x = arrays[n - 1].len() as int;
        assert(0 <= x / elem) by (nonlinear_arith)
            requires
                0 <= x,
                0 < elem,
        ;
        if i < n {
            lemma_elems_prefix(arrays, elem, n - 1, i);
        } else {
            lemma_elems_prefix(arrays, elem, n - 1, n - 1);
        }
    }
}

/// The arrays packed into blocks, and the index entry of each array.
pub struct PackedArrays {
    /// The blocks, each the bytes of the arrays that lie in it.
    pub blocks: Vec<Vec<u8>>,
    /// For each array its element offset, its element count and its block.
    pub entries: Vec<(u64, u32, u32)>,
}

/// Checks that every array can be packed.
fn check_arrays(arrays: &Vec<Vec<u8>>, elem_size: usize) -> (r: Option<EncodeError>)
    requires
        elem_size > 0,
    ensures
        r == first_bad_array(vecs_view(arrays@), elem_size as int, 0),
        r is None ==> elems_prefix(vecs_view(arrays@), elem_size as int, arrays@.len() as int)
            <= u64::MAX,
        r is None ==> forall|i: int|
            0 <= i < arrays@.len() ==> (#[trigger] arrays@[i])@.len() % (elem_size as nat) == 0
                && arrays@[i]@.len() / (elem_size as nat) <= u32::MAX,
{
    let ghost av = vecs_view(arrays@);
    let mut total: u64 = 0;
    let mut i: usize = 0;
    while i < arrays.len()
        invariant
            elem_size > 0,
            av == vecs_view(arrays@),
            i <= arrays@.len(),
            first_bad_array(av, elem_size as int, 0) == first_bad_array(
                av,
                elem_size as int,
                i as int,
            ),
            total == elems_prefix(av, elem_size as int, i as int),
            forall|k: int|
                0 <= k < i ==> (#[trigger] arrays@[k])@.len() % (elem_size as nat) == 0
                    && arrays@[k]@.len() / (elem_size as nat) <= u32::MAX,
        decreases arrays@.len() - i,
    {
        let len = arrays[i].len();
        assert(av[i as int] == arrays@[i as int]@);
        if len % elem_size != 0 {
            return Some(EncodeError::RaggedArray);
        }
        let n = len / elem_size;
        if n > u32::MAX as usize {
            return Some(EncodeError::TooLarge);
        }
        match total.checked_add(n as u64) {
            Some(t) => {
                total = t;
            },
            None => {
                return Some(EncodeError::TooLarge);
            },
        }
        i = i + 1;
    }
    None
}

/// Packs arrays into blocks and gives each array its index entry.
///
/// Every array must be a whole number of elements of `elem_size` bytes
/// and hold no more elements than 32 bits count.
pub fn pack_arrays(arrays: &Vec<Vec<u8>>, elem_size: usize) -> (r: Result<
    PackedArrays,
    EncodeError,
>)
    ensures
        match r {
            Ok(p) => pack_error(vecs_view(arrays@), elem_size) is None && vecs_view(p.blocks@)
                == blocks_of(packed(vecs_view(arrays@), BLOCK_THRESHOLD as nat)) && p.entries@
                == entries_of(vecs_view(arrays@), elem_size as int),
            Err(e) => pack_error(vecs_view(arrays@), elem_size) == Some(e),
        },
{
    if elem_size == 0 {
        return Err(EncodeError::BadElementSize);
    }
    match check_arrays(arrays, elem_size) {
        Some(e) => {
            return Err(e);
        },
        None => {},
    }
    let ghost av = vecs_view(arrays@);
    let ghost t = BLOCK_THRESHOLD as nat;
    let mut blocks: Vec<Vec<u8>> = Vec::new();
    let mut open: Vec<u8> = Vec::new();
    let mut open_used: bool = false;
    let mut raw: Vec<(u64, u32, usize)> = Vec::with_capacity(arrays.len());
    let mut done: u64 = 0;
    let mut i: usize = 0;
    proof {
        assert(av.take(0) =~= Seq::<Seq<u8>>::empty());
        assert(vecs_view(blocks@) =~= packed(av.take(0), t).closed);
    }
    while i < arrays.len()
        invariant
            elem_size > 0,
            av == vecs_view(arrays@),
            t == BLOCK_THRESHOLD as nat,
            i <= arrays@.len(),
            elems_prefix(av, elem_size as int, arrays@.len() as int) <= u64::MAX,
            forall|k: int|
                0 <= k < arrays@.len() ==> (#[trigger] arrays@[k])@.len() % (elem_size as nat)
                    == 0 && arrays@[k]@.len() / (elem_size as nat) <= u32::MAX,
            vecs_view(blocks@) == packed(av.take(i as int), t).closed,
            open@ == packed(av.take(i as int), t).open,
            open_used == open_in_use(packed(av.take(i as int), t)),
            done == elems_prefix(av, elem_size as int, i as int),
            raw@.len() == i,
            forall|k: int|
                0 <= k < i ==> (#[trigger] raw@[k]).0 == elems_prefix(av, elem_size as int, k)
                    && raw@[k].1 == av[k].len() / (elem_size as nat) && raw@[k].2 == packed(
                    av.take(i as int),
                    t,
                ).places[k].block,
        decreases arrays@.len() - i,
    {
        let a = &arrays[i];
        let ghost before = packed(av.take(i as int), t);
        let ghost after = packed(av.take(i + 1), t);
        proof {
            assert(av.take(i + 1).drop_last() =~= av.take(i as int));
            assert(av.take(i + 1).last() == a@);
            assert(av[i as int] == a@);
            lemma_places_ascend(av.take(i as int), t);
            lemma_elems_prefix(av, elem_size as int, arrays@.len() as int, i + 1);
            assert forall|k: int| 0 <= k < i implies after.places[k] == before.places[k] by {}
        }
        let n = a.len() / elem_size;
        assert(after == pack_step(before, a@, t));
        assert(blocks@.len() == before.closed.len());
        raw.push((done, n as u32, blocks.len()));
        done = done + n as u64;
        open.extend_from_slice(a.as_slice());
        let ghost grown = before.open + a@;
        assert(open@ == grown);
        if open.len() >= BLOCK_THRESHOLD {
            let mut full: Vec<u8> = Vec::new();
            core::mem::swap(&mut full, &mut open);
            let ghost was = blocks@;
            blocks.push(full);
            assert(full@ == grown);
            assert(vecs_view(was) == before.closed);
            assert(vecs_view(blocks@) =~= vecs_view(was).push(full@));
            assert(after.closed == before.closed.push(grown));
            open_used = false;
        } else {
            assert(after.closed == before.closed);
            open_used = true;
        }
        assert(vecs_view(blocks@) =~= after.closed);
        assert(open@ =~= after.open);
        i = i + 1;
    }
    assert(av.take(i as int) =~= av);
    let ghost p = packed(av, t);
    if open_used {
        let ghost was = blocks@;
        blocks.push(open);
        assert(vecs_view(blocks@) =~= vecs_view(was).push(open@));
    }
    assert(vecs_view(blocks@) == blocks_of(p));
    if blocks.len() > u32::MAX as usize {
        return Err(EncodeError::TooLarge);
    }
    let mut entries: Vec<(u64, u32, u32)> = Vec::with_capacity(raw.len());
    let mut k: usize = 0;
    while k < raw.len()
        invariant
            k <= raw@.len(),
            raw@.len() == arrays@.len(),
            av == vecs_view(arrays@),
            p == packed(av, BLOCK_THRESHOLD as nat),
            blocks_of(p).len() <= u32::MAX,
            entries@.len() == k,
            forall|j: int|
                0 <= j < raw@.len() ==> (#[trigger] raw@[j]).0 == elems_prefix(
                    av,
                    elem_size as int,
                    j,
                ) && raw@[j].1 == av[j].len() / (elem_size as nat) && raw@[j].2
                    == p.places[j].block,
            forall|j: int|
                0 <= j < k ==> #[trigger] entries@[j] == entry_of_array(av, elem_size as int, j),
        decreases raw@.len() - k,
    {
        let e = raw[k];
        proof {
            lemma_places(av, BLOCK_THRESHOLD as nat, k as int);
        }
        entries.push((e.0, e.1, e.2 as u32));
        k = k + 1;
    }
    assert(entries@ =~= entries_of(av, elem_size as int));
    Ok(PackedArrays { blocks, entries })
}

} // verus!
