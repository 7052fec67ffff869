//! Error types for JPEG 2000 decoding.

use vstd::prelude::*;

verus! {

/// The main error type for JPEG 2000 decoding operations.
#[derive(Debug, Clone, Copy, PartialEq, Eq, Structural)]
pub enum DecodeError {
    /// Errors related to the JP2 file format and box parsing.
    Format(FormatError),
    /// Errors related to image properties and validation.
    Validation(ValidationError),
}

/// Errors related to the JP2 file format and box parsing.
#[derive(Debug, Clone, Copy, PartialEq, Eq, Structural)]
pub enum FormatError {
    /// Invalid JP2 signature.
    InvalidSignature,
    /// Invalid JP2 file type.
    InvalidFileType,
    /// Invalid or malformed JP2 box.
    InvalidBox,
    /// Missing codestream data.
    MissingCodestream,
    /// Unsupported JP2 image format.
    Unsupported,
}

/// Errors related to image properties and validation.
#[derive(Debug, Clone, Copy, PartialEq, Eq, Structural)]
pub enum ValidationError {
    /// Invalid component metadata.
    InvalidComponentMetadata,
    /// Too many channels in the image.
    TooManyChannels,
}

pub type Result<T> = core::result::Result<T, DecodeError>;

/// A malformed box.
pub open spec fn invalid_box() -> DecodeError {
    DecodeError::Format(FormatError::InvalidBox)
}

/// Invalid component metadata.
pub open spec fn invalid_metadata() -> DecodeError {
    DecodeError::Validation(ValidationError::InvalidComponentMetadata)
}

} // verus!
