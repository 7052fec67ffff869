//! Error types for JBIG2 decoding.

use vstd::prelude::*;

verus! {

/// The main error type for JBIG2 decoding operations.
#[derive(Debug, Clone, Copy, PartialEq, Eq, Structural)]
pub enum DecodeError {
    /// Errors related to reading/parsing data.
    Parse(ParseError),
    /// Errors related to file structure.
    Format(FormatError),
    /// Errors related to segment processing.
    Segment(SegmentError),
    /// Errors related to Huffman decoding.
    Huffman(HuffmanError),
    /// Errors related to region parameters.
    Region(RegionError),
    /// Errors related to template configuration.
    Template(TemplateError),
    /// Arithmetic overflow in calculations.
    Overflow(OverflowError),
}

/// Errors related to reading/parsing data.
#[derive(Debug, Clone, Copy, PartialEq, Eq, Structural)]
pub enum ParseError {
    /// Unexpected end of input.
    UnexpectedEof,
}

/// Errors related to file structure.
#[derive(Debug, Clone, Copy, PartialEq, Eq, Structural)]
pub enum FormatError {
    /// Reserved bits are not zero.
    ReservedBits,
    /// Missing required page information segment.
    MissingPageInfo,
    /// The segments break a rule of the PDF embedding.
    InvalidPdfEmbedding,
}

/// Errors related to segment processing.
#[derive(Debug, Clone, Copy, PartialEq, Eq, Structural)]
pub enum SegmentError {
    /// Unknown or reserved segment type.
    UnknownType,
    /// Invalid referred-to segment count.
    InvalidReferredCount,
    /// Segment refers to a segment it must not refer to.
    InvalidReference,
    /// Missing end marker for unknown-length region.
    MissingEndMarker,
}

/// Errors related to Huffman decoding.
#[derive(Debug, Clone, Copy, PartialEq, Eq, Structural)]
pub enum HuffmanError {
    /// Invalid Huffman code sequence.
    InvalidCode,
    /// Unexpected out-of-band value.
    UnexpectedOob,
    /// The prefix codes do not fit into the code space.
    ConflictingCodes,
    /// A prefix is longer than a table line can declare.
    PrefixLengthTooLarge,
}

/// Errors related to region parameters.
#[derive(Debug, Clone, Copy, PartialEq, Eq, Structural)]
pub enum RegionError {
    /// Invalid combination operator value.
    InvalidCombinationOperator,
    /// Region with invalid dimension.
    InvalidDimension,
}

/// Errors related to template configuration.
#[derive(Debug, Clone, Copy, PartialEq, Eq, Structural)]
pub enum TemplateError {
    /// Invalid adaptive template pixel location.
    InvalidAtPixel,
}

/// Arithmetic overflow errors.
#[derive(Debug, Clone, Copy, PartialEq, Eq, Structural)]
pub enum OverflowError {
    /// Bitmap dimension computation overflowed.
    BitmapDimension,
}

/// Result type for JBIG2 decoding operations.
pub type Result<T> = core::result::Result<T, DecodeError>;

/// The error for data that ends too early.
pub open spec fn eof_error() -> DecodeError {
    DecodeError::Parse(ParseError::UnexpectedEof)
}

/// The error for a code that no table line has, or a value outside of its range.
pub open spec fn invalid_code_error() -> DecodeError {
    DecodeError::Huffman(HuffmanError::InvalidCode)
}

/// The error for a set of lines whose codes do not fit into the code space.
pub open spec fn conflicting_codes_error() -> DecodeError {
    DecodeError::Huffman(HuffmanError::ConflictingCodes)
}

/// The error for reserved bits that are set.
pub open spec fn reserved_bits_error() -> DecodeError {
    DecodeError::Format(FormatError::ReservedBits)
}

} // verus!
