//! The byte-shuffle filter: a transposition between the interleaved layout of
//! fixed-width elements and a layout of one plane per byte position.

use vstd::arithmetic::div_mod::{lemma_fundamental_div_mod, lemma_fundamental_div_mod_converse};
use vstd::prelude::*;
use crate::error::DecodeError;

verus! {

/// The plane layout of `src`: plane `p` holds byte `p` of every element.
pub open spec fn shuffled(src: Seq<u8>, elem: int) -> Seq<u8> {
    let n = src.len() as int / elem;
    Seq::new(src.len(), |k: int| src[(k % n) * elem + k / n])
}

/// The interleaved layout recovered from the plane layout `src`.
pub open spec fn unshuffled(src: Seq<u8>, elem: int) -> Seq<u8> {
    let n = src.len() as int / elem;
    Seq::new(src.len(), |k: int| src[(k % elem) * n + k / elem])
}

/// The interleaved layout of the whole elements of `src`, with the bytes
/// behind the last whole element taken from `rest`.
pub open spec fn unshuffled_over(src: Seq<u8>, rest: Seq<u8>, elem: int) -> Seq<u8> {
    let n = src.len() as int / elem;
    Seq::new(
        rest.len(),
        |k: int|
            if k < n * elem {
                src[(k % elem) * n + k / elem]
            } else {
                rest[k]
            },
    )
}

/// A cell `(row, col)` of a grid with `cols` columns has a flat index inside
/// the grid, and that index splits back into the same row and column.
pub proof fn lemma_grid_index(row: int, col: int, rows: int, cols: int)
    requires
        0 <= row < rows,
        0 <= col < cols,
    ensures
        0 <= row * cols + col < rows * cols,
        (row * cols + col) / cols == row,
        (row * cols + col) % cols == col,
{
    assert(0 <= row * cols) by (nonlinear_arith)
        requires
            0 <= row,
            0 <= cols,
    ;
    assert(row * cols + cols <= rows * cols) by (nonlinear_arith)
        requires
            row + 1 <= rows,
            0 <= cols,
    ;
    lemma_fundamental_div_mod_converse(row * cols + col, cols, row, col);
}

/// A flat index below `rows * cols` splits into a row below `rows` and a
/// column below `cols`.
pub proof fn lemma_grid_split(k: int, rows: int, cols: int)
    requires
        0 <= k < rows * cols,
        0 < cols,
    ensures
        0 <= k / cols < rows,
        0 <= k % cols < cols,
        (k / cols) * cols + k % cols == k,
{
    lemma_fundamental_div_mod(k, cols);
    let q = k / cols;
    assert(cols * q == q * cols) by (nonlinear_arith);
    assert(0 <= q) by (nonlinear_arith)
        requires
            0 <= k,
            0 < cols,
            q == k / cols,
    ;
    if q >= rows {
        assert(q * cols >= rows * cols) by (nonlinear_arith)
            requires
                q >= rows,
                0 < cols,
        ;
    }
}

/// Shuffling and unshuffling undo each other on every buffer that holds a
/// whole number of elements.
pub proof fn lemma_shuffle_symmetry(b: Seq<u8>, elem: int)
    requires
        0 < elem,
        b.len() % (elem as nat) == 0,
    ensures
        unshuffled(shuffled(b, elem), elem) == b,
        shuffled(unshuffled(b, elem), elem) == b,
{
    let len = b.len() as int;
    let n = len / elem;
    lemma_fundamental_div_mod(len, elem);
    assert(len == n * elem) by (nonlinear_arith)
        requires
            len == elem * n + len % elem,
            len % elem == 0,
    ;
    assert(len == elem * n);
    let s = shuffled(b, elem);
    let u = unshuffled(b, elem);
    assert forall|k: int| 0 <= k < len implies #[trigger] unshuffled(s, elem)[k] == b[k] by {
        lemma_grid_split(k, n, elem);
        let col = k % elem;
        let row = k / elem;
        // position of byte (row, col) in the plane layout
        lemma_grid_index(col, row, elem, n);
        let j = col * n + row;
        assert(s[j] == b[(j % n) * elem + j / n]);
    }
    assert(unshuffled(s, elem) =~= b);
    assert forall|k: int| 0 <= k < len implies #[trigger] shuffled(u, elem)[k] == b[k] by {
        assert(0 < n) by {
            if n <= 0 {
                assert(n * elem <= 0) by (nonlinear_arith)
                    requires
                        n <= 0,
                        0 < elem,
                ;
            }
        }
        lemma_grid_split(k, elem, n);
        let plane = k / n;
        let item = k % n;
        lemma_grid_index(item, plane, n, elem);
        let j = item * elem + plane;
        assert(u[j] == b[(j % elem) * n + j / elem]);
    }
    assert(shuffled(u, elem) =~= b);
}

/// Writes the plane layout of `src` into a fresh buffer.
pub fn shuffle(src: &[u8], elem_size: usize) -> (out: Vec<u8>)
    requires
        0 < elem_size,
        src@.len() % (elem_size as nat) == 0,
    ensures
        out@ == shuffled(src@, elem_size as int),
{
    let len = src.len();
    let n = len / elem_size;
    let mut out: Vec<u8> = Vec::with_capacity(len);
    proof {
        lemma_fundamental_div_mod(len as int, elem_size as int);
        assert(len as int == (elem_size as int) * (n as int));
        assert((elem_size as int) * (n as int) == (n as int) * (elem_size as int))
            by (nonlinear_arith);
    }
    let mut p: usize = 0;
    while p < elem_size
        invariant
            0 < elem_size,
            len == src@.len(),
            n as int == len as int / elem_size as int,
            len as int == (elem_size as int) * (n as int),
            p <= elem_size,
            out@.len() == (p as int) * (n as int),
            forall|k: int|
                0 <= k < out@.len() ==> out@[k] == src@[(k % n as int) * elem_size as int + k / (
                n as int)],
        decreases elem_size - p,
    {
        let mut i: usize = 0;
        while i < n
            invariant
                0 < elem_size,
                len == src@.len(),
                n as int == len as int / elem_size as int,
                len as int == (elem_size as int) * (n as int),
                p < elem_size,
                i <= n,
                out@.len() == (p as int) * (n as int) + i,
                forall|k: int|
                    0 <= k < out@.len() ==> out@[k] == src@[(k % n as int) * elem_size as int + k
                        / (n as int)],
            decreases n - i,
        {
            proof {
                lemma_grid_index(i as int, p as int, n as int, elem_size as int);
                lemma_grid_index(p as int, i as int, elem_size as int, n as int);
                assert((n as int) * (elem_size as int) == (elem_size as int) * (n as int))
                    by (nonlinear_arith);
            }
            let b = src[i * elem_size + p];
            out.push(b);
            i = i + 1;
        }
        p = p + 1;
        proof {
            assert((p as int) * (n as int) == (p as int - 1) * (n as int) + (n as int))
                by (nonlinear_arith);
        }
    }
    proof {
        assert(out@.len() == len) by (nonlinear_arith)
            requires
                out@.len() == (p as int) * (n as int),
                p == elem_size,
                len as int == (elem_size as int) * (n as int),
        ;
        assert(out@ =~= shuffled(src@, elem_size as int));
    }
    out
}

/// What `unshuffle_into` answers for buffers of the given lengths.
pub open spec fn unshuffle_check(dst_len: nat, src_len: nat, elem: nat) -> Result<
    (),
    DecodeError,
> {
    if dst_len != src_len {
        Err(DecodeError::BlockSizeMismatch)
    } else if elem <= 1 {
        Ok(())
    } else if src_len % elem != 0 {
        Err(DecodeError::RaggedElements)
    } else {
        Ok(())
    }
}

/// Rebuilds interleaved elements in `dst` from the plane layout in `src`.
///
/// An element size of at most one leaves the bytes as they are.  On an
/// error `dst` is untouched.
pub fn unshuffle_into(dst: &mut [u8], src: &[u8], elem_size: usize) -> (r: Result<
    (),
    DecodeError,
>)
    ensures
        r == unshuffle_check(old(dst)@.len(), src@.len(), elem_size as nat),
        r is Err ==> final(dst)@ == old(dst)@,
        r is Ok && elem_size <= 1 ==> final(dst)@ == src@,
        r is Ok && elem_size > 1 ==> final(dst)@ == unshuffled(src@, elem_size as int),
{
    if dst.len() != src.len() {
        return Err(DecodeError::BlockSizeMismatch);
    }
    let len = src.len();
    if elem_size <= 1 {
        let mut k: usize = 0;
        while k < len
            invariant
                len == src@.len(),
                dst@.len() == len,
                k <= len,
                forall|j: int| 0 <= j < k ==> dst@[j] == src@[j],
            decreases len - k,
        {
            dst[k] = src[k];
            k = k + 1;
        }
        assert(dst@ =~= src@);
        return Ok(());
    }
    if len % elem_size != 0 {
        return Err(DecodeError::RaggedElements);
    }
    proof {
        lemma_fundamental_div_mod(len as int, elem_size as int);
        assert((len as int / elem_size as int) * (elem_size as int) == (elem_size as int) * (
        len as int / elem_size as int)) by (nonlinear_arith);
    }
    byte_unshuffle_into(src, dst, elem_size);
    proof {
        let n = len as int / elem_size as int;
        lemma_fundamental_div_mod(len as int, elem_size as int);
        assert(n * (elem_size as int) == (elem_size as int) * n) by (nonlinear_arith);
        assert(dst@ =~= unshuffled(src@, elem_size as int));
    }
    Ok(())
}

/// Rebuilds the whole elements of `input` in `output`, which must have
/// room for them; bytes of `output` behind the last whole element keep
/// their value.
pub fn byte_unshuffle_into(input: &[u8], output: &mut [u8], elem_size: usize)
    requires
        0 < elem_size,
        (input@.len() / (elem_size as nat)) * elem_size <= old(output)@.len(),
    ensures
        final(output)@ == unshuffled_over(input@, old(output)@, elem_size as int),
{
    let len = input.len();
    let olen = output.len();
    let count = len / elem_size;
    proof {
        lemma_fundamental_div_mod(len as int, elem_size as int);
        assert((elem_size as int) * (count as int) == (count as int) * (elem_size as int))
            by (nonlinear_arith);
    }
    let mut b: usize = 0;
    while b < elem_size
        invariant
            0 < elem_size,
            len == input@.len(),
            output@.len() == olen,
            (count as int) * (elem_size as int) <= olen,
            count as int == len as int / elem_size as int,
            (count as int) * (elem_size as int) <= len,
            b <= elem_size,
            forall|k: int|
                0 <= k < olen && k < (count as int) * (elem_size as int) && k % (elem_size as int)
                    < b ==> output@[k] == input@[(k % elem_size as int) * count as int + k / (
                elem_size as int)],
            forall|k: int|
                0 <= k < olen && !(k < (count as int) * (elem_size as int) && k % (
                elem_size as int) < b) ==> output@[k] == old(output)@[k],
        decreases elem_size - b,
    {
        let mut e: usize = 0;
        while e < count
            invariant
                0 < elem_size,
                len == input@.len(),
                output@.len() == olen,
            (count as int) * (elem_size as int) <= olen,
                count as int == len as int / elem_size as int,
                (count as int) * (elem_size as int) <= len,
                b < elem_size,
                e <= count,
                forall|k: int|
                    0 <= k < olen && k < (count as int) * (elem_size as int) && (k % (
                    elem_size as int) < b || (k % (elem_size as int) == b && k / (
                    elem_size as int) < e)) ==> output@[k] == input@[(k % elem_size as int)
                        * count as int + k / (elem_size as int)],
                forall|k: int|
                    0 <= k < olen && !(k < (count as int) * (elem_size as int) && (k % (
                    elem_size as int) < b || (k % (elem_size as int) == b && k / (
                    elem_size as int) < e))) ==> output@[k] == old(output)@[k],
            decreases count - e,
        {
            proof {
                lemma_grid_index(e as int, b as int, count as int, elem_size as int);
                lemma_grid_index(b as int, e as int, elem_size as int, count as int);
                assert((elem_size as int) * (count as int) == (count as int) * (elem_size as int))
                    by (nonlinear_arith);
            }
            let v = input[b * count + e];
            let ghost before = output@;
            output[e * elem_size + b] = v;
            proof {
                let at = (e as int) * (elem_size as int) + b as int;
                assert forall|k: int|
                    0 <= k < olen && k < (count as int) * (elem_size as int) && (k % (
                    elem_size as int) < b || (k % (elem_size as int) == b && k / (
                    elem_size as int) < e + 1)) implies #[trigger] output@[k] == input@[(k
                    % elem_size as int) * count as int + k / (elem_size as int)] by {
                    lemma_fundamental_div_mod(k, elem_size as int);
                    assert((elem_size as int) * (k / (elem_size as int)) == (k / (
                    elem_size as int)) * (elem_size as int)) by (nonlinear_arith);
                    if k != at {
                        assert(output@[k] == before[k]);
                    }
                }
                assert forall|k: int|
                    0 <= k < olen && !(k < (count as int) * (elem_size as int) && (k % (
                    elem_size as int) < b || (k % (elem_size as int) == b && k / (
                    elem_size as int) < e + 1))) implies #[trigger] output@[k] == old(
                    output,
                )@[k] by {
                    assert(k != at);
                    assert(output@[k] == before[k]);
                }
            }
            e = e + 1;
        }
        proof {
            assert forall|k: int|
                0 <= k < olen && k < (count as int) * (elem_size as int) && k % (elem_size as int)
                    < b + 1 implies #[trigger] output@[k] == input@[(k % elem_size as int)
                * count as int + k / (elem_size as int)] by {
                lemma_grid_split(k, count as int, elem_size as int);
            }
        }
        b = b + 1;
    }
    proof {
        let want = unshuffled_over(input@, old(output)@, elem_size as int);
        assert forall|k: int| 0 <= k < olen implies #[trigger] output@[k] == want[k] by {
            if k < (count as int) * (elem_size as int) {
                lemma_grid_split(k, count as int, elem_size as int);
            }
        }
        assert(output@ =~= want);
    }
}

} // verus!
