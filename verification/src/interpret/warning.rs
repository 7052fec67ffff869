//! Warnings of the interpreter.

use crate::ocg::resolve::OptionalContentError;
use vstd::prelude::*;

verus! {

/// An image color-space declaration or selected default could not be resolved.
#[derive(Copy, Clone, Debug, PartialEq, Eq, Structural)]
#[non_exhaustive]
pub enum ImageColorSpaceError {
    /// The declaration is not a color space.
    Invalid,
}

/// An explicit color conversion could not be represented exactly.
#[derive(Copy, Clone, Debug, PartialEq, Eq, Structural)]
#[non_exhaustive]
pub enum ColorConversionError {
    /// The operand of a rendering intent is not a name.
    InvalidIntent,
}

/// An error in the appearance of an annotation, by a code of the host that resolves it.
#[derive(Copy, Clone, Debug, PartialEq, Eq, Structural)]
pub struct AnnotationError(pub u32);

/// Warnings that can occur while interpreting a PDF file.
#[derive(Copy, Clone, Debug, PartialEq, Eq, Structural)]
pub enum InterpreterWarning {
    /// An unsupported font kind was encountered.
    ///
    /// Currently, only CID fonts with non-identity encoding are unsupported.
    UnsupportedFont,
    /// An image failed to decode.
    ImageDecodeFailure,
    /// An image color-space declaration or selected default could not be resolved.
    ImageColorSpace(ImageColorSpaceError),
    /// A selected paint or shading color space could not be resolved exactly.
    ColorSpaceFailure,
    /// An unknown intent name was replaced with the PDF relative default.
    RenderingIntentUnknown,
    /// An explicit color conversion could not be represented exactly.
    ColorConversion(ColorConversionError),
    /// A stroke parameter could not be read.
    StrokeParameterFailure,
    /// A transfer function could not be resolved exactly.
    TransferFunctionFailure,
    /// An optional-content membership dictionary could not be converted into an owned visibility
    /// expression.
    OptionalContentExpressionFailure,
    /// An annotation membership failed bounded expression resolution.
    AnnotationOptionalContentFailure(OptionalContentError),
    /// A visible annotation's normal appearance could not be selected or mapped exactly.
    AnnotationAppearanceFailure(AnnotationError),
    /// A Link annotation's synthesized border could not be resolved exactly.
    LinkBorderFailure(AnnotationError),
    /// A synthesized text-markup appearance could not be resolved exactly.
    TextMarkupFailure(AnnotationError),
    /// A synthesized geometric annotation could not be resolved exactly.
    GeometricAnnotationFailure(AnnotationError),
    /// An `EMC` operator had no matching `BMC` or `BDC` in this content scope and was ignored.
    UnmatchedMarkedContentEnd,
    /// A marked-content sequence reached the end of its content scope without an `EMC` and was
    /// closed there.
    UnterminatedMarkedContent,
    /// An `ET` operator had no matching `BT` in this content scope and was ignored.
    UnmatchedTextObjectEnd,
    /// A text object reached the next graphics object or the end of its content scope without an
    /// `ET` and was closed at that boundary.
    UnterminatedTextObject,
    /// A nested `BT` closed the already active text object before beginning a new one.
    NestedTextObject,
}

} // verus!
