//! Reading a metadata block front to back with a moving position.

use vstd::prelude::*;
use crate::bytes::{in_bounds, le_u32_seq, le_u32_vec_at, le_u64_seq, le_u64_vec_at};
use crate::error::DecodeError;
use crate::metadata::KIND_TEXT;

verus! {

/// Reads `n` little-endian `u32` values at `*pos` and moves `*pos` behind
/// them.  On an error `*pos` stays where it was.
pub fn read_u32_vec(bytes: &[u8], pos: &mut usize, n: usize) -> (r: Result<Vec<u32>, DecodeError>)
    ensures
        match r {
            Ok(v) => in_bounds(bytes@.len(), *old(pos) as int, 4 * n) && v@ == le_u32_seq(
                bytes@,
                *old(pos) as int,
                n as nat,
            ) && *final(pos) == *old(pos) + 4 * n,
            Err(e) => !in_bounds(bytes@.len(), *old(pos) as int, 4 * n) && e
                == DecodeError::UnexpectedEnd && *final(pos) == *old(pos),
        },
{
    let start = *pos;
    let len = bytes.len();
    if start > len || n > (len - start) / 4 {
        return Err(DecodeError::UnexpectedEnd);
    }
    let out = le_u32_vec_at(bytes, start, n);
    *pos = start + 4 * n;
    Ok(out)
}

/// Reads `n` little-endian 64-bit values at `*pos` and moves `*pos` behind
/// them.  The values are the bit patterns of binary64 numbers.  On an
/// error `*pos` stays where it was.
pub fn read_f64_vec(bytes: &[u8], pos: &mut usize, n: usize) -> (r: Result<Vec<u64>, DecodeError>)
    ensures
        match r {
            Ok(v) => in_bounds(bytes@.len(), *old(pos) as int, 8 * n) && v@ == le_u64_seq(
                bytes@,
                *old(pos) as int,
                n as nat,
            ) && *final(pos) == *old(pos) + 8 * n,
            Err(e) => !in_bounds(bytes@.len(), *old(pos) as int, 8 * n) && e
                == DecodeError::UnexpectedEnd && *final(pos) == *old(pos),
        },
{
    let start = *pos;
    let len = bytes.len();
    if start > len || n > (len - start) / 8 {
        return Err(DecodeError::UnexpectedEnd);
    }
    let out = le_u64_vec_at(bytes, start, n);
    *pos = start + 8 * n;
    Ok(out)
}

/// How far the texts of the first `n` records reach into the string
/// bytes: the largest end of a text among the records of kind text.  A
/// text record whose index is outside the string table is an error, and so
/// is an end that the machine cannot address.
pub open spec fn text_span(
    vk: Seq<u8>,
    vi: Seq<u32>,
    voff: Seq<u32>,
    vlen: Seq<u32>,
    n: int,
) -> Result<usize, DecodeError>
    decreases n,
{
    if n <= 0 {
        Ok(0usize)
    } else {
        match text_span(vk, vi, voff, vlen, n - 1) {
            Err(e) => Err(e),
            Ok(max_end) => if vk[n - 1] != KIND_TEXT {
                Ok(max_end)
            } else {
                let idx = vi[n - 1] as int;
                if idx >= voff.len() || idx >= vlen.len() {
                    Err(DecodeError::ValueIndexOutOfRange)
                } else if voff[idx] + vlen[idx] > usize::MAX {
                    Err(DecodeError::TextOverflow)
                } else if voff[idx] + vlen[idx] > max_end {
                    Ok((voff[idx] + vlen[idx]) as usize)
                } else {
                    Ok(max_end)
                }
            },
        }
    }
}

/// Once the first `mid` records give an error, so do the first `n`.
proof fn lemma_text_span_fails(
    vk: Seq<u8>,
    vi: Seq<u32>,
    voff: Seq<u32>,
    vlen: Seq<u32>,
    mid: int,
    n: int,
)
    requires
        0 <= mid <= n,
        text_span(vk, vi, voff, vlen, mid) is Err,
    ensures
        text_span(vk, vi, voff, vlen, n) == text_span(vk, vi, voff, vlen, mid),
    decreases n - mid,
{
    if mid < n {
        lemma_text_span_fails(vk, vi, voff, vlen, mid, n - 1);
    }
}

/// Returns how many string bytes the text records need.
///
/// `vk` holds the value kinds, `vi` the value indices, `voff` and `vlen`
/// the string table.  Every record has a value index.
pub fn vs_len_bytes(vk: &[u8], vi: &[u32], voff: &[u32], vlen: &[u32]) -> (r: Result<
    usize,
    DecodeError,
>)
    requires
        vk@.len() <= vi@.len(),
    ensures
        r == text_span(vk@, vi@, voff@, vlen@, vk@.len() as int),
{
    let mut max_end: usize = 0;
    let mut j: usize = 0;
    while j < vk.len()
        invariant
            j <= vk@.len(),
            vk@.len() <= vi@.len(),
            text_span(vk@, vi@, voff@, vlen@, j as int) == Ok::<usize, DecodeError>(max_end),
        decreases vk@.len() - j,
    {
        if vk[j] == KIND_TEXT {
            let idx = vi[j] as usize;
            if idx >= voff.len() || idx >= vlen.len() {
                proof {
                    lemma_text_span_fails(vk@, vi@, voff@, vlen@, j + 1, vk@.len() as int);
                }
                return Err(DecodeError::ValueIndexOutOfRange);
            }
            let end = match (voff[idx] as usize).checked_add(vlen[idx] as usize) {
                Some(v) => v,
                None => {
                    proof {
                        lemma_text_span_fails(vk@, vi@, voff@, vlen@, j + 1, vk@.len() as int);
                    }
                    return Err(DecodeError::TextOverflow);
                },
            };
            if end > max_end {
                max_end = end;
            }
        }
        j = j + 1;
    }
    Ok(max_end)
}

} // verus!
