//! Decompression of metadata blocks and array blocks.
//!
//! The codecs themselves are outside code.  Each one is reached through a
//! single trusted function, and what it returns is given a name so that the
//! rest of the decoder can be stated exactly in terms of it.

use vstd::prelude::*;
use vstd::slice::slice_subrange;
use crate::error::DecodeError;

verus! {

/// Codec code of zlib in the low nibble of the codec flags.
pub const HDR_CODEC_ZLIB: u8 = 0;

/// Codec code of zstd in the low nibble of the codec flags.
pub const HDR_CODEC_ZSTD: u8 = 1;

/// How many trailing zero bytes may be dropped from a metadata stream.
pub const MAX_PADDING: usize = 7;

#[verifier::external_type_specification]
#[verifier::external_body]
pub struct ExDecompressError(miniz_oxide::inflate::DecompressError);

#[verifier::external_type_specification]
#[verifier::external_body]
pub struct ExIoError(std::io::Error);

/// The bytes that `miniz_oxide::inflate::decompress_to_vec_zlib` produces
/// from `input`, or `None` where it reports an error.
pub uninterp spec fn zlib_inflated(input: Seq<u8>) -> Option<Seq<u8>>;

/// The bytes that `zstd::stream::decode_all` produces from `input`, or
/// `None` where it reports an error.
pub uninterp spec fn zstd_stream_decoded(input: Seq<u8>) -> Option<Seq<u8>>;

/// The bytes that `zstd::bulk::decompress` produces from `input` with room
/// for `capacity` bytes, or `None` where it reports an error.
pub uninterp spec fn zstd_block_decoded(input: Seq<u8>, capacity: usize) -> Option<Seq<u8>>;

/// The bytes that `zstd::bulk::compress` produces from `data` at the given
/// level, or `None` where it reports an error.
pub uninterp spec fn zstd_block_compressed(data: Seq<u8>, level: i32) -> Option<Seq<u8>>;

/// Calls `zstd::bulk::compress`.  Trusted: the outcome is a function of
/// the data and the level, named `zstd_block_compressed`.
#[verifier::external_body]
fn encode_zstd_block(data: &[u8], level: i32) -> (r: Result<Vec<u8>, std::io::Error>)
    ensures
        match r {
            Ok(v) => zstd_block_compressed(data@, level) == Some(v@),
            Err(_) => zstd_block_compressed(data@, level) is None,
        },
{
    zstd::bulk::compress(data, level)
}

/// Compresses one block with zstd.
pub fn compress_block(data: &[u8], level: u8) -> (r: Option<Vec<u8>>)
    ensures
        match r {
            Some(v) => zstd_block_compressed(data@, level as i32) == Some(v@),
            None => zstd_block_compressed(data@, level as i32) is None,
        },
{
    match encode_zstd_block(data, level as i32) {
        Ok(v) => Some(v),
        Err(_) => None,
    }
}

/// Calls `miniz_oxide::inflate::decompress_to_vec_zlib`.  Trusted: the
/// outcome is a function of the input bytes alone, named `zlib_inflated`.
#[verifier::external_body]
fn inflate_zlib(input: &[u8]) -> (r: Result<Vec<u8>, miniz_oxide::inflate::DecompressError>)
    ensures
        match r {
            Ok(v) => zlib_inflated(input@) == Some(v@),
            Err(_) => zlib_inflated(input@) is None,
        },
{
    miniz_oxide::inflate::decompress_to_vec_zlib(input)
}

/// Calls `zstd::stream::decode_all`.  Trusted: the outcome is a function
/// of the input bytes alone, named `zstd_stream_decoded`.
#[verifier::external_body]
fn decode_zstd_stream(input: &[u8]) -> (r: Result<Vec<u8>, std::io::Error>)
    ensures
        match r {
            Ok(v) => zstd_stream_decoded(input@) == Some(v@),
            Err(_) => zstd_stream_decoded(input@) is None,
        },
{
    zstd::stream::decode_all(input)
}

/// Calls `zstd::bulk::decompress`.  Trusted: the outcome is a function of
/// the input bytes and the capacity, named `zstd_block_decoded`.  The
/// capacity is allocated up front, so it must be a size a vector can have.
#[verifier::external_body]
fn decode_zstd_block(input: &[u8], capacity: usize) -> (r: Result<Vec<u8>, std::io::Error>)
    requires
        capacity <= isize::MAX,
    ensures
        match r {
            Ok(v) => zstd_block_decoded(input@, capacity) == Some(v@),
            Err(_) => zstd_block_decoded(input@, capacity) is None,
        },
{
    zstd::bulk::decompress(input, capacity)
}

/// What the stream decoder of `codec` makes of `input`.
pub open spec fn stream_decoded(codec: u8, input: Seq<u8>) -> Option<Seq<u8>> {
    if codec == HDR_CODEC_ZLIB {
        zlib_inflated(input)
    } else {
        zstd_stream_decoded(input)
    }
}

/// The outcome of retrying after a failure on the first `end` bytes: while
/// tries are left and the last byte is zero, drop it and decode again.
pub open spec fn retry_trimmed(codec: u8, input: Seq<u8>, end: int, tries: nat) -> Option<
    Seq<u8>,
>
    decreases tries,
{
    if tries == 0 || end <= 0 || input[end - 1] != 0 {
        None
    } else {
        match stream_decoded(codec, input.subrange(0, end - 1)) {
            Some(v) => Some(v),
            None => retry_trimmed(codec, input, end - 1, (tries - 1) as nat),
        }
    }
}

/// The outcome of decoding `input` as a stream of `codec`, tolerating up to
/// seven bytes of zero padding behind the stream.
pub open spec fn decoded_allowing_padding(codec: u8, input: Seq<u8>) -> Option<Seq<u8>> {
    match stream_decoded(codec, input) {
        Some(v) => Some(v),
        None => retry_trimmed(codec, input, input.len() as int, MAX_PADDING as nat),
    }
}

/// Decodes `input` as one stream of `codec`, which is zlib or zstd.
fn decode_stream(codec: u8, input: &[u8]) -> (r: Option<Vec<u8>>)
    requires
        codec == HDR_CODEC_ZLIB || codec == HDR_CODEC_ZSTD,
    ensures
        match r {
            Some(v) => stream_decoded(codec, input@) == Some(v@),
            None => stream_decoded(codec, input@) is None,
        },
{
    if codec == HDR_CODEC_ZLIB {
        match inflate_zlib(input) {
            Ok(v) => Some(v),
            Err(_) => None,
        }
    } else {
        match decode_zstd_stream(input) {
            Ok(v) => Some(v),
            Err(_) => None,
        }
    }
}

/// Decodes `input`, retrying with trailing zero bytes removed one at a time.
fn decode_allowing_padding(codec: u8, input: &[u8]) -> (r: Result<Vec<u8>, DecodeError>)
    requires
        codec == HDR_CODEC_ZLIB || codec == HDR_CODEC_ZSTD,
    ensures
        match r {
            Ok(v) => decoded_allowing_padding(codec, input@) == Some(v@),
            Err(e) => decoded_allowing_padding(codec, input@) is None && e
                == DecodeError::CodecFailed,
        },
{
    if let Some(v) = decode_stream(codec, input) {
        return Ok(v);
    }
    let mut end: usize = input.len();
    let mut tries: usize = MAX_PADDING;
    while tries > 0
        invariant
            codec == HDR_CODEC_ZLIB || codec == HDR_CODEC_ZSTD,
            end <= input@.len(),
            tries <= MAX_PADDING,
            stream_decoded(codec, input@) is None,
            decoded_allowing_padding(codec, input@) == retry_trimmed(
                codec,
                input@,
                end as int,
                tries as nat,
            ),
        decreases tries,
    {
        if end == 0 || input[end - 1] != 0 {
            return Err(DecodeError::CodecFailed);
        }
        end = end - 1;
        tries = tries - 1;
        if let Some(v) = decode_stream(codec, slice_subrange(input, 0, end)) {
            return Ok(v);
        }
    }
    Err(DecodeError::CodecFailed)
}

/// Inflates a zlib stream that may be followed by up to seven zero bytes.
pub fn decompress_zlib_allow_pad0(input: &[u8]) -> (r: Result<Vec<u8>, DecodeError>)
    ensures
        match r {
            Ok(v) => decoded_allowing_padding(HDR_CODEC_ZLIB, input@) == Some(v@),
            Err(e) => decoded_allowing_padding(HDR_CODEC_ZLIB, input@) is None && e
                == DecodeError::CodecFailed,
        },
{
    decode_allowing_padding(HDR_CODEC_ZLIB, input)
}

/// Decodes a zstd stream that may be followed by up to seven zero bytes.
pub fn decompress_zstd_allow_pad0(input: &[u8]) -> (r: Result<Vec<u8>, DecodeError>)
    ensures
        match r {
            Ok(v) => decoded_allowing_padding(HDR_CODEC_ZSTD, input@) == Some(v@),
            Err(e) => decoded_allowing_padding(HDR_CODEC_ZSTD, input@) is None && e
                == DecodeError::CodecFailed,
        },
{
    decode_allowing_padding(HDR_CODEC_ZSTD, input)
}

/// Decodes a zstd stream that may be followed by up to seven zero bytes.
pub fn decompress_zstd_allow_aligned_padding(input: &[u8]) -> (r: Result<Vec<u8>, DecodeError>)
    ensures
        match r {
            Ok(v) => decoded_allowing_padding(HDR_CODEC_ZSTD, input@) == Some(v@),
            Err(e) => decoded_allowing_padding(HDR_CODEC_ZSTD, input@) is None && e
                == DecodeError::CodecFailed,
        },
{
    decode_allowing_padding(HDR_CODEC_ZSTD, input)
}

/// Decodes a whole zstd stream.
pub fn decompress_zstd(input: &[u8]) -> (r: Result<Vec<u8>, DecodeError>)
    ensures
        match r {
            Ok(v) => zstd_stream_decoded(input@) == Some(v@),
            Err(e) => zstd_stream_decoded(input@) is None && e == DecodeError::CodecFailed,
        },
{
    match decode_zstd_stream(input) {
        Ok(v) => Ok(v),
        Err(_) => Err(DecodeError::CodecFailed),
    }
}

/// Bytes that are either borrowed from the file or owned after decoding.
pub enum BytesMaybeOwned<'a> {
    Borrowed(&'a [u8]),
    Owned(Vec<u8>),
}

impl<'a> BytesMaybeOwned<'a> {
    /// The bytes held, whoever owns them.
    pub open spec fn bytes(&self) -> Seq<u8> {
        match self {
            BytesMaybeOwned::Borrowed(b) => b@,
            BytesMaybeOwned::Owned(v) => v@,
        }
    }

    /// Borrows the bytes held.
    pub fn as_slice(&self) -> (s: &[u8])
        ensures
            s@ == self.bytes(),
    {
        match self {
            BytesMaybeOwned::Borrowed(b) => b,
            BytesMaybeOwned::Owned(v) => v.as_slice(),
        }
    }
}

/// The plain bytes of a metadata region.
pub open spec fn meta_plain(codec: u8, is_compressed: bool, bytes: Seq<u8>) -> Result<
    Seq<u8>,
    DecodeError,
> {
    if !is_compressed {
        Ok(bytes)
    } else if codec != HDR_CODEC_ZLIB && codec != HDR_CODEC_ZSTD {
        Err(DecodeError::UnknownCodec)
    } else {
        match decoded_allowing_padding(codec, bytes) {
            Some(v) => Ok(v),
            None => Err(DecodeError::CodecFailed),
        }
    }
}

/// Returns the plain bytes of a metadata region: the region itself where
/// it is stored raw, else the decoded stream.
pub fn decompress_meta_if_needed<'a>(codec: u8, is_compressed: bool, bytes: &'a [u8]) -> (r:
    Result<BytesMaybeOwned<'a>, DecodeError>)
    ensures
        match r {
            Ok(b) => meta_plain(codec, is_compressed, bytes@) == Ok::<Seq<u8>, DecodeError>(
                b.bytes(),
            ),
            Err(e) => meta_plain(codec, is_compressed, bytes@) == Err::<Seq<u8>, DecodeError>(e),
        },
{
    if !is_compressed {
        return Ok(BytesMaybeOwned::Borrowed(bytes));
    }
    if codec != HDR_CODEC_ZLIB && codec != HDR_CODEC_ZSTD {
        return Err(DecodeError::UnknownCodec);
    }
    match decode_allowing_padding(codec, bytes) {
        Ok(v) => Ok(BytesMaybeOwned::Owned(v)),
        Err(e) => Err(e),
    }
}

/// What decoding one array block of `codec` gives when the directory
/// promises `expected` bytes.
pub open spec fn block_decoded(codec: u8, comp: Seq<u8>, expected: u64) -> Result<
    Seq<u8>,
    DecodeError,
> {
    if codec == HDR_CODEC_ZLIB {
        match zlib_inflated(comp) {
            Some(v) => Ok(v),
            None => Err(DecodeError::CodecFailed),
        }
    } else if codec == HDR_CODEC_ZSTD {
        if expected > isize::MAX {
            Err(DecodeError::SizeOverflow)
        } else {
            match zstd_block_decoded(comp, expected as usize) {
                Some(v) => Ok(v),
                None => Err(DecodeError::CodecFailed),
            }
        }
    } else {
        Err(DecodeError::UnknownCodec)
    }
}

/// Decodes one compressed array block.
pub fn decode_block(codec: u8, comp: &[u8], expected: u64) -> (r: Result<Vec<u8>, DecodeError>)
    ensures
        match r {
            Ok(v) => block_decoded(codec, comp@, expected) == Ok::<Seq<u8>, DecodeError>(v@),
            Err(e) => block_decoded(codec, comp@, expected) == Err::<Seq<u8>, DecodeError>(e),
        },
{
    if codec == HDR_CODEC_ZLIB {
        match inflate_zlib(comp) {
            Ok(v) => Ok(v),
            Err(_) => Err(DecodeError::CodecFailed),
        }
    } else if codec == HDR_CODEC_ZSTD {
        if expected > isize::MAX as u64 {
            return Err(DecodeError::SizeOverflow);
        }
        match decode_zstd_block(comp, expected as usize) {
            Ok(v) => Ok(v),
            Err(_) => Err(DecodeError::CodecFailed),
        }
    } else {
        Err(DecodeError::UnknownCodec)
    }
}

} // verus!
