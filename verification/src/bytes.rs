//! Little-endian integers and bounded reads over byte slices.

use vstd::prelude::*;
use vstd::slice::slice_subrange;
use crate::error::DecodeError;

verus! {

/// The 32-bit little-endian integer whose four bytes start at `o`.
pub open spec fn le_u32(s: Seq<u8>, o: int) -> u32 {
    (s[o] as int + s[o + 1] as int * 0x100 + s[o + 2] as int * 0x1_0000 + s[o + 3] as int
        * 0x100_0000) as u32
}

/// The 64-bit little-endian integer whose eight bytes start at `o`.
pub open spec fn le_u64(s: Seq<u8>, o: int) -> u64 {
    (le_u32(s, o) as int + le_u32(s, o + 4) as int * 0x1_0000_0000) as u64
}

/// Whether `len` bytes starting at `o` lie inside a buffer of `total` bytes.
pub open spec fn in_bounds(total: nat, o: int, len: int) -> bool {
    0 <= o && 0 <= len && o + len <= total
}

/// Reads the little-endian `u32` at the start of `s`.
pub fn u32_from_le(s: &[u8]) -> (x: u32)
    requires
        s@.len() == 4,
    ensures
        x == le_u32(s@, 0),
{
    (s[0] as u32) + (s[1] as u32) * 0x100 + (s[2] as u32) * 0x1_0000 + (s[3] as u32) * 0x100_0000
}

/// Reads the little-endian `u64` at the start of `s`.
pub fn u64_from_le(s: &[u8]) -> (x: u64)
    requires
        s@.len() == 8,
    ensures
        x == le_u64(s@, 0),
{
    let lo: u32 = (s[0] as u32) + (s[1] as u32) * 0x100 + (s[2] as u32) * 0x1_0000 + (s[3] as u32)
        * 0x100_0000;
    let hi: u32 = (s[4] as u32) + (s[5] as u32) * 0x100 + (s[6] as u32) * 0x1_0000 + (s[7] as u32)
        * 0x100_0000;
    (lo as u64) + (hi as u64) * 0x1_0000_0000
}

/// Reads the little-endian `u32` at offset `o`, which must be in range.
pub fn le_u32_at(b: &[u8], o: usize) -> (x: u32)
    requires
        o + 4 <= b.len(),
    ensures
        x == le_u32(b@, o as int),
{
    u32_from_le(slice_subrange(b, o, o + 4))
}

/// Reads the little-endian `u64` at offset `o`, which must be in range.
pub fn le_u64_at(b: &[u8], o: usize) -> (x: u64)
    requires
        o + 8 <= b.len(),
    ensures
        x == le_u64(b@, o as int),
{
    u64_from_le(slice_subrange(b, o, o + 8))
}

/// The result of reading one byte at `o`.
pub open spec fn read_u8_spec(b: Seq<u8>, o: int) -> Result<u8, DecodeError> {
    if in_bounds(b.len(), o, 1) {
        Ok(b[o])
    } else {
        Err(DecodeError::UnexpectedEnd)
    }
}

/// The result of reading a little-endian `u32` at `o`.
pub open spec fn read_u32_spec(b: Seq<u8>, o: int) -> Result<u32, DecodeError> {
    if in_bounds(b.len(), o, 4) {
        Ok(le_u32(b, o))
    } else {
        Err(DecodeError::UnexpectedEnd)
    }
}

/// The result of reading a little-endian `u64` at `o`.
pub open spec fn read_u64_spec(b: Seq<u8>, o: int) -> Result<u64, DecodeError> {
    if in_bounds(b.len(), o, 8) {
        Ok(le_u64(b, o))
    } else {
        Err(DecodeError::UnexpectedEnd)
    }
}

/// The result of taking `l` bytes at `o`.
pub open spec fn read_slice_spec(b: Seq<u8>, o: int, l: int) -> Result<Seq<u8>, DecodeError> {
    if in_bounds(b.len(), o, l) {
        Ok(b.subrange(o, o + l))
    } else {
        Err(DecodeError::UnexpectedEnd)
    }
}

/// Reads the byte at offset `o`.
pub fn read_u8_at(b: &[u8], o: usize) -> (r: Result<u8, DecodeError>)
    ensures
        r == read_u8_spec(b@, o as int),
{
    if o < b.len() {
        Ok(b[o])
    } else {
        Err(DecodeError::UnexpectedEnd)
    }
}

/// Reads the little-endian `u32` at offset `o`.
pub fn read_u32_at(b: &[u8], o: usize) -> (r: Result<u32, DecodeError>)
    ensures
        r == read_u32_spec(b@, o as int),
{
    if b.len() >= 4 && o <= b.len() - 4 {
        Ok(le_u32_at(b, o))
    } else {
        Err(DecodeError::UnexpectedEnd)
    }
}

/// Reads the little-endian `u64` at offset `o`.
pub fn read_u64_at(b: &[u8], o: usize) -> (r: Result<u64, DecodeError>)
    ensures
        r == read_u64_spec(b@, o as int),
{
    if b.len() >= 8 && o <= b.len() - 8 {
        Ok(le_u64_at(b, o))
    } else {
        Err(DecodeError::UnexpectedEnd)
    }
}

/// Borrows the `l` bytes at offset `o`.
pub fn read_slice(b: &[u8], o: usize, l: usize) -> (r: Result<&[u8], DecodeError>)
    ensures
        match r {
            Ok(s) => read_slice_spec(b@, o as int, l as int) == Ok::<Seq<u8>, DecodeError>(s@),
            Err(e) => read_slice_spec(b@, o as int, l as int) == Err::<Seq<u8>, DecodeError>(e),
        },
{
    if o <= b.len() && l <= b.len() - o {
        Ok(slice_subrange(b, o, o + l))
    } else {
        Err(DecodeError::UnexpectedEnd)
    }
}

/// Borrows the `len` bytes at offset `off`, both given as 64-bit numbers.
pub fn slice_at<'a>(bytes: &'a [u8], off: u64, len: u64, field: &'static str) -> (r: Result<
    &'a [u8],
    DecodeError,
>)
    ensures
        match r {
            Ok(s) => read_slice_spec(bytes@, off as int, len as int) == Ok::<Seq<u8>, DecodeError>(
                s@,
            ),
            Err(e) => read_slice_spec(bytes@, off as int, len as int) == Err::<
                Seq<u8>,
                DecodeError,
            >(e),
        },
{
    let n = bytes.len();
    if off > n as u64 || len > n as u64 - off {
        return Err(DecodeError::UnexpectedEnd);
    }
    Ok(slice_subrange(bytes, off as usize, (off + len) as usize))
}

/// What `take` does at position `pos`: the bytes taken and the position
/// behind them.
pub open spec fn take_spec(bytes: Seq<u8>, pos: int, n: int) -> Result<(Seq<u8>, int), DecodeError> {
    if in_bounds(bytes.len(), pos, n) {
        Ok((bytes.subrange(pos, pos + n), pos + n))
    } else {
        Err(DecodeError::UnexpectedEnd)
    }
}

/// Takes the next `n` bytes at `*pos` and moves `*pos` behind them.  On an
/// error `*pos` stays where it was.  `field` names what is being read.
pub fn take<'a>(bytes: &'a [u8], pos: &mut usize, n: usize, field: &'static str) -> (r: Result<
    &'a [u8],
    DecodeError,
>)
    ensures
        match r {
            Ok(s) => take_spec(bytes@, *old(pos) as int, n as int) == Ok::<
                (Seq<u8>, int),
                DecodeError,
            >((s@, *final(pos) as int)),
            Err(e) => take_spec(bytes@, *old(pos) as int, n as int) == Err::<
                (Seq<u8>, int),
                DecodeError,
            >(e) && *final(pos) == *old(pos),
        },
{
    let start = *pos;
    if start > bytes.len() || n > bytes.len() - start {
        return Err(DecodeError::UnexpectedEnd);
    }
    let end = start + n;
    *pos = end;
    Ok(slice_subrange(bytes, start, end))
}

/// Takes a little-endian `u32` at `*pos`.
pub fn read_u32_le_at(bytes: &[u8], pos: &mut usize, field: &'static str) -> (r: Result<
    u32,
    DecodeError,
>)
    ensures
        r == read_u32_spec(bytes@, *old(pos) as int),
        r is Ok ==> *final(pos) == *old(pos) + 4,
        r is Err ==> *final(pos) == *old(pos),
{
    match take(bytes, pos, 4, field) {
        Ok(s) => Ok(u32_from_le(s)),
        Err(e) => Err(e),
    }
}

/// Takes a little-endian `u64` at `*pos`.
pub fn read_u64_le_at(bytes: &[u8], pos: &mut usize, field: &'static str) -> (r: Result<
    u64,
    DecodeError,
>)
    ensures
        r == read_u64_spec(bytes@, *old(pos) as int),
        r is Ok ==> *final(pos) == *old(pos) + 8,
        r is Err ==> *final(pos) == *old(pos),
{
    match take(bytes, pos, 8, field) {
        Ok(s) => Ok(u64_from_le(s)),
        Err(e) => Err(e),
    }
}

/// The `n` little-endian `u32` values that start at `o`.
pub open spec fn le_u32_seq(b: Seq<u8>, o: int, n: nat) -> Seq<u32> {
    Seq::new(n, |i: int| le_u32(b, o + 4 * i))
}

/// The `n` little-endian `u64` values that start at `o`.
pub open spec fn le_u64_seq(b: Seq<u8>, o: int, n: nat) -> Seq<u64> {
    Seq::new(n, |i: int| le_u64(b, o + 8 * i))
}

/// Reads `n` little-endian `u32` values at `o`, which must be in range.
pub fn le_u32_vec_at(b: &[u8], o: usize, n: usize) -> (out: Vec<u32>)
    requires
        o + 4 * n <= b.len(),
    ensures
        out@ == le_u32_seq(b@, o as int, n as nat),
{
    let mut out: Vec<u32> = Vec::with_capacity(n);
    let mut i: usize = 0;
    while i < n
        invariant
            o + 4 * n <= b.len(),
            i <= n,
            out@ == le_u32_seq(b@, o as int, i as nat),
        decreases n - i,
    {
        let v = le_u32_at(b, o + 4 * i);
        out.push(v);
        assert(out@ =~= le_u32_seq(b@, o as int, (i + 1) as nat));
        i = i + 1;
    }
    out
}

/// Reads `n` little-endian `u64` values at `o`, which must be in range.
pub fn le_u64_vec_at(b: &[u8], o: usize, n: usize) -> (out: Vec<u64>)
    requires
        o + 8 * n <= b.len(),
    ensures
        out@ == le_u64_seq(b@, o as int, n as nat),
{
    let mut out: Vec<u64> = Vec::with_capacity(n);
    let mut i: usize = 0;
    while i < n
        invariant
            o + 8 * n <= b.len(),
            i <= n,
            out@ == le_u64_seq(b@, o as int, i as nat),
        decreases n - i,
    {
        let v = le_u64_at(b, o + 8 * i);
        out.push(v);
        assert(out@ =~= le_u64_seq(b@, o as int, (i + 1) as nat));
        i = i + 1;
    }
    out
}

/// What reading `c` values of `width` bytes from the front of `b` gives.
pub open spec fn front_fits(b: Seq<u8>, c: int, width: int) -> bool {
    c * width <= b.len()
}

/// Reads `c` little-endian `u32` values from the front of `b`.
pub fn read_u32_vec(b: &[u8], c: usize) -> (r: Result<Vec<u32>, DecodeError>)
    ensures
        match r {
            Ok(v) => front_fits(b@, c as int, 4) && v@ == le_u32_seq(b@, 0, c as nat),
            Err(e) => !front_fits(b@, c as int, 4) && e == DecodeError::UnexpectedEnd,
        },
{
    if c > b.len() / 4 {
        return Err(DecodeError::UnexpectedEnd);
    }
    Ok(le_u32_vec_at(b, 0, c))
}

/// Reads `c` little-endian 64-bit values from the front of `b`.  The values
/// are the bit patterns of binary64 numbers.
pub fn read_f64_vec(b: &[u8], c: usize) -> (r: Result<Vec<u64>, DecodeError>)
    ensures
        match r {
            Ok(v) => front_fits(b@, c as int, 8) && v@ == le_u64_seq(b@, 0, c as nat),
            Err(e) => !front_fits(b@, c as int, 8) && e == DecodeError::UnexpectedEnd,
        },
{
    if c > b.len() / 8 {
        return Err(DecodeError::UnexpectedEnd);
    }
    Ok(le_u64_vec_at(b, 0, c))
}

/// The four bytes of a `u32`, least significant first.
#[verifier::opaque]
pub open spec fn u32_le_bytes(v: u32) -> Seq<u8> {
    seq![
        (v % 0x100) as u8,
        (v / 0x100 % 0x100) as u8,
        (v / 0x1_0000 % 0x100) as u8,
        (v / 0x100_0000 % 0x100) as u8,
    ]
}

/// The eight bytes of a `u64`, least significant first.
#[verifier::opaque]
pub open spec fn u64_le_bytes(v: u64) -> Seq<u8> {
    u32_le_bytes((v % 0x1_0000_0000) as u32) + u32_le_bytes((v / 0x1_0000_0000) as u32)
}

/// A `u32` takes four bytes and a `u64` eight.
pub proof fn lemma_le_bytes_len(a: u32, b: u64)
    ensures
        u32_le_bytes(a).len() == 4,
        u64_le_bytes(b).len() == 8,
{
    reveal(u32_le_bytes);
    reveal(u64_le_bytes);
}

/// Reading the bytes of a `u32` gives the `u32` back, wherever they lie.
pub proof fn lemma_u32_round_trip(s: Seq<u8>, o: int, v: u32)
    requires
        0 <= o,
        o + 4 <= s.len(),
        s.subrange(o, o + 4) == u32_le_bytes(v),
    ensures
        le_u32(s, o) == v,
{
    reveal(u32_le_bytes);
    let b = u32_le_bytes(v);
    assert(s[o] == s.subrange(o, o + 4)[0]);
    assert(s[o + 1] == s.subrange(o, o + 4)[1]);
    assert(s[o + 2] == s.subrange(o, o + 4)[2]);
    assert(s[o + 3] == s.subrange(o, o + 4)[3]);
}

/// Reading the bytes of a `u64` gives the `u64` back, wherever they lie.
pub proof fn lemma_u64_round_trip(s: Seq<u8>, o: int, v: u64)
    requires
        0 <= o,
        o + 8 <= s.len(),
        s.subrange(o, o + 8) == u64_le_bytes(v),
    ensures
        le_u64(s, o) == v,
{
    reveal(u64_le_bytes);
    lemma_le_bytes_len(0, v);
    let lo = (v % 0x1_0000_0000) as u32;
    lemma_le_bytes_len(lo, v);
    lemma_le_bytes_len((v / 0x1_0000_0000) as u32, v);
    let hi = (v / 0x1_0000_0000) as u32;
    assert(s.subrange(o, o + 4) =~= s.subrange(o, o + 8).subrange(0, 4));
    assert(s.subrange(o + 4, o + 8) =~= s.subrange(o, o + 8).subrange(4, 8));
    assert(u64_le_bytes(v).subrange(0, 4) =~= u32_le_bytes(lo));
    assert(u64_le_bytes(v).subrange(4, 8) =~= u32_le_bytes(hi));
    lemma_u32_round_trip(s, o, lo);
    lemma_u32_round_trip(s, o + 4, hi);
}

/// A `u32` read inside a prefix is the same when read in the whole.
pub proof fn lemma_le_u32_in_prefix(a: Seq<u8>, b: Seq<u8>, o: int)
    requires
        0 <= o,
        o + 4 <= a.len(),
    ensures
        le_u32(a + b, o) == le_u32(a, o),
{
}

/// A `u64` read inside a prefix is the same when read in the whole.
pub proof fn lemma_le_u64_in_prefix(a: Seq<u8>, b: Seq<u8>, o: int)
    requires
        0 <= o,
        o + 8 <= a.len(),
    ensures
        le_u64(a + b, o) == le_u64(a, o),
{
}

/// Appends the four bytes of a `u32`, least significant first.
pub fn push_u32_le(out: &mut Vec<u8>, v: u32)
    ensures
        final(out)@ == old(out)@ + u32_le_bytes(v),
{
    out.push((v % 0x100) as u8);
    out.push((v / 0x100 % 0x100) as u8);
    out.push((v / 0x1_0000 % 0x100) as u8);
    out.push((v / 0x100_0000 % 0x100) as u8);
    proof {
        reveal(u32_le_bytes);
    }
    assert(out@ =~= old(out)@ + u32_le_bytes(v));
}

/// Appends the eight bytes of a `u64`, least significant first.
pub fn push_u64_le(out: &mut Vec<u8>, v: u64)
    ensures
        final(out)@ == old(out)@ + u64_le_bytes(v),
{
    push_u32_le(out, (v % 0x1_0000_0000) as u32);
    push_u32_le(out, (v / 0x1_0000_0000) as u32);
    proof {
        reveal(u64_le_bytes);
    }
    assert(out@ =~= old(out)@ + u64_le_bytes(v));
}

/// The bytes of a run of 32-bit values, each least significant byte first.
pub open spec fn u32s_le_bytes(vs: Seq<u32>) -> Seq<u8>
    decreases vs.len(),
{
    if vs.len() == 0 {
        Seq::empty()
    } else {
        u32s_le_bytes(vs.drop_last()) + u32_le_bytes(vs.last())
    }
}

/// The bytes of a run of 64-bit values, each least significant byte first.
pub open spec fn u64s_le_bytes(vs: Seq<u64>) -> Seq<u8>
    decreases vs.len(),
{
    if vs.len() == 0 {
        Seq::empty()
    } else {
        u64s_le_bytes(vs.drop_last()) + u64_le_bytes(vs.last())
    }
}

/// A run of `n` values of 32 bits takes `4 n` bytes, and reading them
/// back gives the values.
pub proof fn lemma_u32s_round_trip(vs: Seq<u32>)
    ensures
        u32s_le_bytes(vs).len() == 4 * vs.len(),
        le_u32_seq(u32s_le_bytes(vs), 0, vs.len()) == vs,
    decreases vs.len(),
{
    if vs.len() > 0 {
        let head = vs.drop_last();
        lemma_u32s_round_trip(head);
        let a = u32s_le_bytes(head);
        let b = u32_le_bytes(vs.last());
        let all = a + b;
        lemma_le_bytes_len(vs.last(), 0);
        assert forall|i: int| 0 <= i < vs.len() implies le_u32(all, 4 * i) == vs[i] by {
            if i < head.len() {
                lemma_le_u32_in_prefix(a, b, 4 * i);
                assert(le_u32_seq(a, 0, head.len())[i] == head[i]);
            } else {
                assert(all.subrange(4 * i, 4 * i + 4) =~= b);
                lemma_u32_round_trip(all, 4 * i, vs.last());
            }
        }
        assert(le_u32_seq(all, 0, vs.len()) =~= vs);
    } else {
        assert(le_u32_seq(u32s_le_bytes(vs), 0, vs.len()) =~= vs);
    }
}

/// A run of `n` values of 64 bits takes `8 n` bytes, and reading them
/// back gives the values.
pub proof fn lemma_u64s_round_trip(vs: Seq<u64>)
    ensures
        u64s_le_bytes(vs).len() == 8 * vs.len(),
        le_u64_seq(u64s_le_bytes(vs), 0, vs.len()) == vs,
    decreases vs.len(),
{
    if vs.len() > 0 {
        let head = vs.drop_last();
        lemma_u64s_round_trip(head);
        let a = u64s_le_bytes(head);
        let b = u64_le_bytes(vs.last());
        let all = a + b;
        lemma_le_bytes_len(0, vs.last());
        assert forall|i: int| 0 <= i < vs.len() implies le_u64(all, 8 * i) == vs[i] by {
            if i < head.len() {
                lemma_le_u64_in_prefix(a, b, 8 * i);
                assert(le_u64_seq(a, 0, head.len())[i] == head[i]);
            } else {
                assert(all.subrange(8 * i, 8 * i + 8) =~= b);
                lemma_u64_round_trip(all, 8 * i, vs.last());
            }
        }
        assert(le_u64_seq(all, 0, vs.len()) =~= vs);
    } else {
        assert(le_u64_seq(u64s_le_bytes(vs), 0, vs.len()) =~= vs);
    }
}

/// Writes a run of 32-bit values as bytes.
pub fn u32s_to_le(vs: &[u32]) -> (out: Vec<u8>)
    ensures
        out@ == u32s_le_bytes(vs@),
{
    let mut out: Vec<u8> = Vec::new();
    let mut i: usize = 0;
    assert(vs@.take(0) =~= Seq::<u32>::empty());
    while i < vs.len()
        invariant
            i <= vs@.len(),
            out@ == u32s_le_bytes(vs@.take(i as int)),
        decreases vs@.len() - i,
    {
        proof {
            assert(vs@.take(i + 1).drop_last() =~= vs@.take(i as int));
        }
        push_u32_le(&mut out, vs[i]);
        i = i + 1;
    }
    assert(vs@.take(i as int) =~= vs@);
    out
}

/// Writes a run of 64-bit values as bytes.
pub fn u64s_to_le(vs: &[u64]) -> (out: Vec<u8>)
    ensures
        out@ == u64s_le_bytes(vs@),
{
    let mut out: Vec<u8> = Vec::new();
    let mut i: usize = 0;
    assert(vs@.take(0) =~= Seq::<u64>::empty());
    while i < vs.len()
        invariant
            i <= vs@.len(),
            out@ == u64s_le_bytes(vs@.take(i as int)),
        decreases vs@.len() - i,
    {
        proof {
            assert(vs@.take(i + 1).drop_last() =~= vs@.take(i as int));
        }
        push_u64_le(&mut out, vs[i]);
        i = i + 1;
    }
    assert(vs@.take(i as int) =~= vs@);
    out
}

/// A byte read inside the middle of three runs laid end to end is the
/// byte of the middle run.
pub proof fn lemma_byte_window(a: Seq<u8>, b: Seq<u8>, c: Seq<u8>, k: int)
    requires
        0 <= k < b.len(),
    ensures
        (a + b + c)[a.len() + k] == b[k],
{
}

/// A `u32` read inside the middle of three runs laid end to end is the
/// `u32` read in the middle run.
pub proof fn lemma_le_u32_window(a: Seq<u8>, b: Seq<u8>, c: Seq<u8>, o: int)
    requires
        0 <= o,
        o + 4 <= b.len(),
    ensures
        le_u32(a + b + c, a.len() + o) == le_u32(b, o),
{
}

/// A `u64` read inside the middle of three runs laid end to end is the
/// `u64` read in the middle run.
pub proof fn lemma_le_u64_window(a: Seq<u8>, b: Seq<u8>, c: Seq<u8>, o: int)
    requires
        0 <= o,
        o + 8 <= b.len(),
    ensures
        le_u64(a + b + c, a.len() + o) == le_u64(b, o),
{
}

/// Value `k` of a run of 32-bit values that lies between two runs of
/// bytes is read back where it was written.
pub proof fn lemma_u32s_window(a: Seq<u8>, vs: Seq<u32>, c: Seq<u8>, k: int)
    requires
        0 <= k < vs.len(),
    ensures
        u32s_le_bytes(vs).len() == 4 * vs.len(),
        le_u32(a + u32s_le_bytes(vs) + c, a.len() + 4 * k) == vs[k],
{
    lemma_u32s_round_trip(vs);
    lemma_le_u32_window(a, u32s_le_bytes(vs), c, 4 * k);
    assert(le_u32_seq(u32s_le_bytes(vs), 0, vs.len())[k] == vs[k]);
}

/// Value `k` of a run of 64-bit values that lies between two runs of
/// bytes is read back where it was written.
pub proof fn lemma_u64s_window(a: Seq<u8>, vs: Seq<u64>, c: Seq<u8>, k: int)
    requires
        0 <= k < vs.len(),
    ensures
        u64s_le_bytes(vs).len() == 8 * vs.len(),
        le_u64(a + u64s_le_bytes(vs) + c, a.len() + 8 * k) == vs[k],
{
    lemma_u64s_round_trip(vs);
    lemma_le_u64_window(a, u64s_le_bytes(vs), c, 8 * k);
    assert(le_u64_seq(u64s_le_bytes(vs), 0, vs.len())[k] == vs[k]);
}

} // verus!
