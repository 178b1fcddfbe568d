//! Failure causes of the decoder and the kinds they are reported under.

use vstd::prelude::*;

verus! {

/// The flat kind under which a failure is reported.
#[derive(Clone, Copy, Debug, PartialEq, Eq, Structural)]
pub enum ErrorKind {
    /// The magic tag or the endianness byte is wrong.
    BadMagic,
    /// A read would pass the end of the bytes at hand.
    Truncated,
    /// Region offsets are out of order.
    InconsistentOffsets,
    /// A codec failed, is unknown, or produced the wrong number of bytes.
    BadCompression,
    /// An array does not lie inside the block it claims.
    BadArrayLayout,
    /// A metadata block refers outside its own tables.
    BadMetadata,
    /// A record does not fit the element it is filed under.
    SchemaViolation,
}

/// The precise cause of a failure.
#[derive(Clone, Copy, Debug, PartialEq, Eq, Structural)]
pub enum DecodeError {
    /// The buffer is shorter than a header.
    ShortHeader,
    /// A read or a region passes the end of the bytes it is taken from.
    UnexpectedEnd,
    /// The first four bytes are not `B000`.
    WrongMagic,
    /// The endianness byte is not zero.
    WrongEndianness,
    /// The metadata regions are not in ascending order.
    MetaOffsets,
    /// A numeric container starts before the end of the global metadata.
    ContainerOffsets,
    /// The codec code is neither zlib nor zstd.
    UnknownCodec,
    /// The codec rejected the stream.
    CodecFailed,
    /// A block does not have the length its directory entry claims.
    BlockSizeMismatch,
    /// An element format byte is neither 1 nor 2.
    BadFloatFormat,
    /// A block id is not in the directory.
    BlockIdOutOfRange,
    /// An element offset lies before the start of its block.
    OffsetBeforeBlock,
    /// An array reaches past the end of its block.
    SliceOutOfBlock,
    /// A byte count is not a whole number of elements.
    RaggedElements,
    /// A block is promised to be larger than the machine can hold.
    SizeOverflow,
    /// A value index points outside its table.
    ValueIndexOutOfRange,
    /// The per-item prefix sums decrease or do not end at the record count.
    ItemIndexNotMonotonic,
    /// The item counts of a block add up to more than a block can hold.
    TooManyItems,
    /// A text reaches past what the machine can address.
    TextOverflow,
    /// The start of a block is not known from the index.
    BlockStartUnknown,
    /// A text value is not valid UTF-8.
    InvalidUtf8,
    /// A record names an element that its parent does not allow.
    UnexpectedElement,
}

impl DecodeError {
    /// The kind this cause is reported under.
    pub open spec fn spec_kind(self) -> ErrorKind {
        match self {
            DecodeError::ShortHeader | DecodeError::UnexpectedEnd => ErrorKind::Truncated,
            DecodeError::WrongMagic | DecodeError::WrongEndianness => ErrorKind::BadMagic,
            DecodeError::MetaOffsets | DecodeError::ContainerOffsets => ErrorKind::InconsistentOffsets,
            DecodeError::UnknownCodec
            | DecodeError::CodecFailed
            | DecodeError::BlockSizeMismatch
            | DecodeError::SizeOverflow => ErrorKind::BadCompression,
            DecodeError::BadFloatFormat
            | DecodeError::BlockIdOutOfRange
            | DecodeError::OffsetBeforeBlock
            | DecodeError::SliceOutOfBlock
            | DecodeError::RaggedElements
            | DecodeError::BlockStartUnknown => ErrorKind::BadArrayLayout,
            DecodeError::ValueIndexOutOfRange
            | DecodeError::ItemIndexNotMonotonic
            | DecodeError::TooManyItems
            | DecodeError::TextOverflow
            | DecodeError::InvalidUtf8 => ErrorKind::BadMetadata,
            DecodeError::UnexpectedElement => ErrorKind::SchemaViolation,
        }
    }

    /// The text shown for this cause.
    pub open spec fn spec_message(self) -> Seq<char> {
        match self {
            DecodeError::ShortHeader => "buffer too small for header"@,
            DecodeError::UnexpectedEnd => "unexpected end of data"@,
            DecodeError::WrongMagic => "invalid binary magic number"@,
            DecodeError::WrongEndianness => "unsupported endianness flag"@,
            DecodeError::MetaOffsets => "invalid meta offsets"@,
            DecodeError::ContainerOffsets => "invalid global meta/container offsets"@,
            DecodeError::UnknownCodec => "unsupported codec"@,
            DecodeError::CodecFailed => "decompression failed"@,
            DecodeError::BlockSizeMismatch => "block size mismatch"@,
            DecodeError::BadFloatFormat => "invalid float format"@,
            DecodeError::BlockIdOutOfRange => "invalid block id"@,
            DecodeError::OffsetBeforeBlock => "element offset before block start"@,
            DecodeError::SliceOutOfBlock => "array slice out of bounds"@,
            DecodeError::RaggedElements => "byte length is not a multiple of the element size"@,
            DecodeError::SizeOverflow => "size overflow"@,
            DecodeError::ValueIndexOutOfRange => "value index out of range"@,
            DecodeError::ItemIndexNotMonotonic => "item index is not monotonic"@,
            DecodeError::TooManyItems => "too many items"@,
            DecodeError::TextOverflow => "text offset and length overflow"@,
            DecodeError::BlockStartUnknown => "block start unknown"@,
            DecodeError::InvalidUtf8 => "text is not valid UTF-8"@,
            DecodeError::UnexpectedElement => "element not allowed here"@,
        }
    }

    /// Returns the kind this cause is reported under.
    pub fn kind(&self) -> (k: ErrorKind)
        ensures
            k == self.spec_kind(),
    {
        match self {
            DecodeError::ShortHeader | DecodeError::UnexpectedEnd => ErrorKind::Truncated,
            DecodeError::WrongMagic | DecodeError::WrongEndianness => ErrorKind::BadMagic,
            DecodeError::MetaOffsets | DecodeError::ContainerOffsets => ErrorKind::InconsistentOffsets,
            DecodeError::UnknownCodec
            | DecodeError::CodecFailed
            | DecodeError::BlockSizeMismatch
            | DecodeError::SizeOverflow => ErrorKind::BadCompression,
            DecodeError::BadFloatFormat
            | DecodeError::BlockIdOutOfRange
            | DecodeError::OffsetBeforeBlock
            | DecodeError::SliceOutOfBlock
            | DecodeError::RaggedElements
            | DecodeError::BlockStartUnknown => ErrorKind::BadArrayLayout,
            DecodeError::ValueIndexOutOfRange
            | DecodeError::ItemIndexNotMonotonic
            | DecodeError::TooManyItems
            | DecodeError::TextOverflow
            | DecodeError::InvalidUtf8 => ErrorKind::BadMetadata,
            DecodeError::UnexpectedElement => ErrorKind::SchemaViolation,
        }
    }

    /// Returns the text shown for this cause.
    pub fn message(&self) -> (m: String)
        ensures
            m@ == self.spec_message(),
    {
        let text: &str = match self {
            DecodeError::ShortHeader => "buffer too small for header",
            DecodeError::UnexpectedEnd => "unexpected end of data",
            DecodeError::WrongMagic => "invalid binary magic number",
            DecodeError::WrongEndianness => "unsupported endianness flag",
            DecodeError::MetaOffsets => "invalid meta offsets",
            DecodeError::ContainerOffsets => "invalid global meta/container offsets",
            DecodeError::UnknownCodec => "unsupported codec",
            DecodeError::CodecFailed => "decompression failed",
            DecodeError::BlockSizeMismatch => "block size mismatch",
            DecodeError::BadFloatFormat => "invalid float format",
            DecodeError::BlockIdOutOfRange => "invalid block id",
            DecodeError::OffsetBeforeBlock => "element offset before block start",
            DecodeError::SliceOutOfBlock => "array slice out of bounds",
            DecodeError::RaggedElements => "byte length is not a multiple of the element size",
            DecodeError::SizeOverflow => "size overflow",
            DecodeError::ValueIndexOutOfRange => "value index out of range",
            DecodeError::ItemIndexNotMonotonic => "item index is not monotonic",
            DecodeError::TooManyItems => "too many items",
            DecodeError::TextOverflow => "text offset and length overflow",
            DecodeError::BlockStartUnknown => "block start unknown",
            DecodeError::InvalidUtf8 => "text is not valid UTF-8",
            DecodeError::UnexpectedElement => "element not allowed here",
        };
        text.to_owned()
    }
}

/// Why a document could not be encoded.
#[derive(Clone, Copy, Debug, PartialEq, Eq, Structural)]
pub enum EncodeError {
    /// The element size is zero.
    BadElementSize,
    /// The bytes of an array are not a whole number of elements.
    RaggedArray,
    /// A count or a size does not fit the field it is written to.
    TooLarge,
    /// The codec rejected a block.
    CodecFailed,
    /// The parts of the input do not have the lengths that belong
    /// together.
    UnevenParts,
    /// An array holds elements only in the vector of the other width.
    MissingElements,
}

impl EncodeError {
    /// The text shown for this cause.
    pub open spec fn spec_message(self) -> Seq<char> {
        match self {
            EncodeError::BadElementSize => "element size is zero"@,
            EncodeError::RaggedArray => "array is not a whole number of elements"@,
            EncodeError::TooLarge => "count does not fit its field"@,
            EncodeError::CodecFailed => "compression failed"@,
            EncodeError::UnevenParts => "parts of the input do not match in length"@,
            EncodeError::MissingElements => "elements of the chosen width are missing"@,
        }
    }

    /// Returns the text shown for this cause.
    pub fn message(&self) -> (m: String)
        ensures
            m@ == self.spec_message(),
    {
        let text: &str = match self {
            EncodeError::BadElementSize => "element size is zero",
            EncodeError::RaggedArray => "array is not a whole number of elements",
            EncodeError::TooLarge => "count does not fit its field",
            EncodeError::CodecFailed => "compression failed",
            EncodeError::UnevenParts => "parts of the input do not match in length",
            EncodeError::MissingElements => "elements of the chosen width are missing",
        };
        text.to_owned()
    }
}

} // verus!
