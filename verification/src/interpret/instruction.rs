//! Instructions of content streams, and what they ask of the host.

use crate::function::double::{magnitude, rank, rank_of};
use crate::interpret::warning::InterpreterWarning;
use crate::types::FillRule;
use vstd::prelude::*;

verus! {

/// A point, given by the bits of its coordinates in double precision.
#[derive(Copy, Clone, Debug, PartialEq, Eq, Structural)]
pub struct Point {
    pub x: u64,
    pub y: u64,
}

/// A number is not undefined.
pub open spec fn is_defined(bits: u64) -> bool {
    magnitude(bits) <= 0x7FF0_0000_0000_0000
}

/// Two points are the same place.
pub open spec fn same_place(a: Point, b: Point) -> bool {
    &&& is_defined(a.x) && is_defined(a.y) && is_defined(b.x) && is_defined(b.y)
    &&& rank(a.x) == rank(b.x)
    &&& rank(a.y) == rank(b.y)
}

fn defined(bits: u64) -> (result: bool)
    ensures
        result == is_defined(bits),
{
    bits % 0x8000_0000_0000_0000 <= 0x7FF0_0000_0000_0000
}

/// Whether two points are the same place.
pub fn coincide(a: Point, b: Point) -> (result: bool)
    ensures
        result == same_place(a, b),
{
    defined(a.x) && defined(a.y) && defined(b.x) && defined(b.y) && rank_of(a.x) == rank_of(b.x)
        && rank_of(a.y) == rank_of(b.y)
}

/// What a color is for.
#[derive(Copy, Clone, Debug, PartialEq, Eq, Structural)]
pub enum Target {
    Stroke,
    NonStroke,
}

/// The device color spaces.
#[derive(Copy, Clone, Debug, PartialEq, Eq, Structural)]
pub enum DeviceSpace {
    Gray,
    Rgb,
    Cmyk,
}

/// Numbers of the graphics state.
#[derive(Copy, Clone, Debug, PartialEq, Eq, Structural)]
pub enum Parameter {
    LineWidth,
    LineCap,
    LineJoin,
    MiterLimit,
    DashPattern,
    RenderingIntent,
    HorizontalScaling,
    TextLeading,
    CharacterSpacing,
    WordSpacing,
    TextRise,
}

/// How text is drawn.
#[derive(Copy, Clone, Debug, PartialEq, Eq, Structural)]
pub enum TextRenderingMode {
    Fill,
    Stroke,
    FillStroke,
    Invisible,
    FillAndClip,
    StrokeAndClip,
    FillAndStrokeAndClip,
    Clip,
}

/// The text rendering mode of a code. Unknown codes fill.
pub open spec fn rendering_mode(code: i64) -> TextRenderingMode {
    if code == 1 {
        TextRenderingMode::Stroke
    } else if code == 2 {
        TextRenderingMode::FillStroke
    } else if code == 3 {
        TextRenderingMode::Invisible
    } else if code == 4 {
        TextRenderingMode::FillAndClip
    } else if code == 5 {
        TextRenderingMode::StrokeAndClip
    } else if code == 6 {
        TextRenderingMode::FillAndStrokeAndClip
    } else if code == 7 {
        TextRenderingMode::Clip
    } else {
        TextRenderingMode::Fill
    }
}

impl TextRenderingMode {
    /// The text rendering mode of a code. Unknown codes fill.
    pub fn from_code(code: i64) -> (mode: Self)
        ensures
            mode == rendering_mode(code),
    {
        match code {
            1 => TextRenderingMode::Stroke,
            2 => TextRenderingMode::FillStroke,
            3 => TextRenderingMode::Invisible,
            4 => TextRenderingMode::FillAndClip,
            5 => TextRenderingMode::StrokeAndClip,
            6 => TextRenderingMode::FillAndStrokeAndClip,
            7 => TextRenderingMode::Clip,
            _ => TextRenderingMode::Fill,
        }
    }
}

/// An instruction of a content stream.
///
/// Operands that only go to the host stay with it.
#[derive(Copy, Clone, Debug, PartialEq, Eq, Structural)]
pub enum Instruction {
    SaveState,
    RestoreState,
    Transform,
    /// `G`, `RG`, `K`, `g`, `rg` and `k`.
    DeviceColor(Target, DeviceSpace),
    /// `SC` and `sc`.
    Color(Target),
    /// `SCN` and `scn`.
    NamedColor(Target),
    /// `CS` and `cs`, and whether the space is the pattern space.
    ColorSpace(Target, bool),
    /// `w`, `J`, `j`, `M`, `d`, `Tz`, `TL`, `Tc`, `Tw` and `Ts`.
    Parameter(Parameter),
    /// `ri`, and whether the name is not known.
    RenderingIntent(bool),
    FlatnessTolerance,
    SetGraphicsState,
    RectPath(Point, Point),
    MoveTo(Point),
    LineTo(Point),
    CubicTo(Point, Point, Point),
    CubicStartTo(Point, Point),
    CubicEndTo(Point, Point),
    ClosePath,
    /// `f` and `f*`.
    FillPath(FillRule),
    FillPathNonZeroCompatibility,
    StrokePath,
    CloseAndStrokePath,
    /// `B` and `B*`.
    FillAndStroke(FillRule),
    /// `b` and `b*`.
    CloseFillAndStroke(FillRule),
    EndPath,
    /// `W` and `W*`.
    Clip(FillRule),
    BeginMarkedContent,
    BeginMarkedContentWithProperties,
    MarkedContentPoint,
    MarkedContentPointWithProperties,
    EndMarkedContent,
    BeginText,
    EndText,
    SetTextMatrix,
    TextFont,
    ShowText,
    ShowTexts,
    NextLine,
    NextLineUsingLeading,
    NextLineAndShowText,
    NextLineAndSetLeading,
    ShowTextWithParameters,
    TextRenderingMode(i64),
    ShapeGlyph,
    ColorGlyph,
    XObject,
    InlineImage,
    Shading,
    BeginCompatibility,
    EndCompatibility,
    /// An operator with operands that it does not take, and whether it is `ri`.
    Fallback(bool),
}

/// What the interpreter asks of the host.
#[derive(Copy, Clone, Debug, PartialEq, Eq, Structural)]
pub enum Action {
    Warn(InterpreterWarning),
    SaveState,
    RestoreState,
    ConcatTransform,
    /// Take a device space and the operands, and no pattern.
    SetDeviceColor(Target, DeviceSpace),
    /// Take the operands, and no pattern.
    SetColor(Target),
    /// Take the operands, and the named pattern.
    SetNamedColor(Target),
    /// Forget the pattern.
    ClearPattern(Target),
    /// Take the color space and its initial color.
    SelectColorSpace(Target),
    SetParameter(Parameter),
    ApplyGraphicsState,
    AppendRect(Point, Point),
    SetLastPoint(Point),
    SetSubPathStart(Point),
    MoveTo(Point),
    LineTo(Point),
    /// A line to a point a little to the right, so that a line of no length has a round stroke.
    LineToBeside(Point),
    CurveTo(Point, Point, Point),
    ClosePath,
    FillPath(FillRule),
    StrokePath,
    FillStrokePath(FillRule),
    SetClip(FillRule),
    PushClipPath(FillRule),
    ClearClip,
    TruncatePath,
    BeginMarkedContent,
    BeginMarkedContentWithProperties,
    EndOptionalContent,
    EndMarkedContent,
    ResetTextMatrices,
    BeginTextObject,
    EndTextObject,
    /// Clip to the outlines of the text.
    PushTextClip,
    ClearTextClip,
    SetTextMatrix,
    /// Set the font and its size.
    SelectFont(FontChoice),
    UseFallbackFont,
    ShowTextString,
    ShowGlyphRun,
    /// Move by the operands.
    NextLine,
    /// Move by the leading.
    NextLineByLeading,
    /// Take the vertical operand as the leading.
    SetLeadingFromOffset,
    SetRenderMode(TextRenderingMode),
    DrawXObject,
    DrawInlineImage,
    PaintShading,
}

/// Where the font of a name comes from.
#[derive(Copy, Clone, Debug, PartialEq, Eq, Structural)]
pub enum FontChoice {
    /// Resolve the font dictionary that was kept for the name. If that fails, there is no font:
    /// no text is better than garbage text.
    ResolveCached,
    /// Keep the font dictionary of the resources for the name, and resolve it.
    KeepAndResolve,
    /// Assume Helvetica: there is no such font.
    Fallback,
}

/// Choose where the font of a name comes from: whether a font dictionary was kept for the name
/// goes before whether the resources have one.
pub fn select_font(cached: bool, in_resources: bool) -> (choice: FontChoice)
    ensures
        choice == (if cached {
            FontChoice::ResolveCached
        } else if in_resources {
            FontChoice::KeepAndResolve
        } else {
            FontChoice::Fallback
        }),
{
    if cached {
        FontChoice::ResolveCached
    } else if in_resources {
        FontChoice::KeepAndResolve
    } else {
        FontChoice::Fallback
    }
}

/// An instruction starts a graphics object, which no text object contains.
pub open spec fn starts_graphics(instruction: Instruction) -> bool {
    match instruction {
        Instruction::SaveState
        | Instruction::RestoreState
        | Instruction::Transform
        | Instruction::MoveTo(_)
        | Instruction::LineTo(_)
        | Instruction::CubicTo(_, _, _)
        | Instruction::CubicStartTo(_, _)
        | Instruction::CubicEndTo(_, _)
        | Instruction::RectPath(_, _)
        | Instruction::ClosePath
        | Instruction::StrokePath
        | Instruction::CloseAndStrokePath
        | Instruction::FillPath(_)
        | Instruction::FillPathNonZeroCompatibility
        | Instruction::FillAndStroke(_)
        | Instruction::CloseFillAndStroke(_)
        | Instruction::EndPath
        | Instruction::Clip(_)
        | Instruction::XObject
        | Instruction::InlineImage
        | Instruction::Shading
        | Instruction::ShapeGlyph
        | Instruction::ColorGlyph => true,
        _ => false,
    }
}

/// Whether an instruction starts a graphics object, which no text object contains.
pub fn starts_graphics_object(instruction: Instruction) -> (result: bool)
    ensures
        result == starts_graphics(instruction),
{
    match instruction {
        Instruction::SaveState
        | Instruction::RestoreState
        | Instruction::Transform
        | Instruction::MoveTo(_)
        | Instruction::LineTo(_)
        | Instruction::CubicTo(_, _, _)
        | Instruction::CubicStartTo(_, _)
        | Instruction::CubicEndTo(_, _)
        | Instruction::RectPath(_, _)
        | Instruction::ClosePath
        | Instruction::StrokePath
        | Instruction::CloseAndStrokePath
        | Instruction::FillPath(_)
        | Instruction::FillPathNonZeroCompatibility
        | Instruction::FillAndStroke(_)
        | Instruction::CloseFillAndStroke(_)
        | Instruction::EndPath
        | Instruction::Clip(_)
        | Instruction::XObject
        | Instruction::InlineImage
        | Instruction::Shading
        | Instruction::ShapeGlyph
        | Instruction::ColorGlyph => true,
        _ => false,
    }
}

} // verus!
