//! Patterns.

use crate::function::single::{rank, rank_of};
use crate::function::transfer::{selected_transfer, selected_transfer_function};
use crate::image::dictionary::{byte_of, read_byte};
use crate::object::{Array, Dict, Document, Object, Stream};
use crate::x_object::form::{matrix_of, number_at, read_matrix, Matrix};
use vstd::prelude::*;

verus! {

/// A rectangle with its corners in order, given by their bits in single precision.
#[derive(Clone, Copy, Debug, PartialEq, Eq, Structural)]
pub struct Rectangle {
    pub x0: u32,
    pub y0: u32,
    pub x1: u32,
    pub y1: u32,
}

/// The lesser of two numbers.
pub open spec fn lesser(a: u32, b: u32) -> u32 {
    if rank(b) < rank(a) {
        b
    } else {
        a
    }
}

/// The greater of two numbers.
pub open spec fn greater(a: u32, b: u32) -> u32 {
    if rank(b) > rank(a) {
        b
    } else {
        a
    }
}

fn least(a: u32, b: u32) -> (result: u32)
    ensures
        result == lesser(a, b),
{
    if rank_of(b) < rank_of(a) {
        b
    } else {
        a
    }
}

fn greatest(a: u32, b: u32) -> (result: u32)
    ensures
        result == greater(a, b),
{
    if rank_of(b) > rank_of(a) {
        b
    } else {
        a
    }
}

/// The rectangle of the first four numbers of an array.
pub open spec fn rectangle_of(doc: Document, dict: Dict, key: Seq<char>) -> Option<Rectangle> {
    match doc.value(dict, key) {
        Some(Object::Array(array)) => match (
            number_at(doc, array.items@, 0),
            number_at(doc, array.items@, 1),
            number_at(doc, array.items@, 2),
            number_at(doc, array.items@, 3),
        ) {
            (Some((a, _)), Some((b, _)), Some((c, _)), Some((d, _))) => Some(
                Rectangle {
                    x0: lesser(a, c),
                    y0: lesser(b, d),
                    x1: greater(c, a),
                    y1: greater(d, b),
                },
            ),
            _ => None,
        },
        _ => None,
    }
}

fn read_single(doc: &Document, array: &Array, i: usize) -> (number: Option<u32>)
    ensures
        match number_at(*doc, array.items@, i as int) {
            Some((single, _)) => number == Some(single),
            None => number is None,
        },
{
    if i < array.items.len() {
        match doc.resolve(&array.items[i]) {
            Some(Object::Number(number)) => Some(number.narrowed),
            _ => None,
        }
    } else {
        None
    }
}

fn read_rectangle(doc: &Document, dict: &Dict, key: &str) -> (result: Option<Rectangle>)
    ensures
        result == rectangle_of(*doc, *dict, key@),
{
    match doc.lookup(dict, key) {
        Some(Object::Array(array)) => match (
            read_single(doc, array, 0),
            read_single(doc, array, 1),
            read_single(doc, array, 2),
            read_single(doc, array, 3),
        ) {
            (Some(a), Some(b), Some(c), Some(d)) => Some(
                Rectangle {
                    x0: least(a, c),
                    y0: least(b, d),
                    x1: greatest(c, a),
                    y1: greatest(d, b),
                },
            ),
            _ => None,
        },
        _ => None,
    }
}

/// The corners of a rectangle are in order.
pub proof fn lemma_rectangle_in_order(doc: Document, dict: Dict, key: Seq<char>)
    ensures
        rectangle_of(doc, dict, key) matches Some(r) ==> rank(r.x0) <= rank(r.x1) && rank(r.y0)
            <= rank(r.y1),
{
}

/// A number that a key leads to.
pub open spec fn single_of(doc: Document, dict: Dict, key: Seq<char>) -> Option<u32> {
    match doc.value(dict, key) {
        Some(Object::Number(number)) => Some(number.narrowed),
        _ => None,
    }
}

fn read_step(doc: &Document, dict: &Dict, key: &str) -> (step: Option<u32>)
    ensures
        step == single_of(*doc, *dict, key@),
{
    match doc.lookup(dict, key) {
        Some(Object::Number(number)) => Some(number.narrowed),
        _ => None,
    }
}

/// How a host judges steps and boxes.
pub struct Degenerate<S, B> {
    /// Whether a step is nearly zero.
    pub step: S,
    /// Whether a box has no area.
    pub area: B,
}

/// What a host's judgements of steps and boxes are.
pub struct Degeneracy {
    pub step: spec_fn(u32) -> bool,
    pub area: spec_fn(Rectangle) -> bool,
}

impl<S: Fn(u32) -> bool, B: Fn(Rectangle) -> bool> Degenerate<S, B> {
    /// All steps and boxes are judged.
    pub open spec fn is_total(&self) -> bool {
        &&& forall|step: u32| call_requires(self.step, (step,))
        &&& forall|area: Rectangle| call_requires(self.area, (area,))
    }

    /// Steps and boxes are judged in a given way.
    pub open spec fn gives(&self, judged: Degeneracy) -> bool {
        &&& forall|step: u32, result: bool| #[trigger]
            call_ensures(self.step, (step,), result) ==> result == (judged.step)(step)
        &&& forall|area: Rectangle, result: bool| #[trigger]
            call_ensures(self.area, (area,), result) ==> result == (judged.area)(area)
    }
}

/// A tiling pattern, as its dictionary describes it.
#[derive(Clone, Copy, Debug, PartialEq, Eq, Structural)]
pub struct TilingPattern {
    pub bbox: Rectangle,
    /// The step in the x direction, given by its bits in single precision.
    pub x_step: u32,
    /// The step in the y direction, given by its bits in single precision.
    pub y_step: u32,
    /// The matrix; without one it is the identity.
    pub matrix: Option<Matrix>,
    pub is_color: bool,
    pub tiling_type: u8,
}

/// The tiling pattern of a dictionary.
pub open spec fn tiling_pattern(doc: Document, dict: Dict, judged: Degeneracy) -> Option<
    TilingPattern,
> {
    match (
        rectangle_of(doc, dict, "BBox"@),
        single_of(doc, dict, "XStep"@),
        single_of(doc, dict, "YStep"@),
        byte_of(doc, dict, "PaintType"@),
        byte_of(doc, dict, "TilingType"@),
    ) {
        (Some(bbox), Some(x_step), Some(y_step), Some(paint_type), Some(tiling_type)) => if (
        judged.step)(x_step) || (judged.step)(y_step) || (judged.area)(bbox) || !(paint_type == 1
            || paint_type == 2) || !(1 <= tiling_type <= 3) {
            None
        } else {
            Some(
                TilingPattern {
                    bbox,
                    x_step,
                    y_step,
                    matrix: matrix_of(doc, dict),
                    is_color: paint_type == 1,
                    tiling_type,
                },
            )
        },
        _ => None,
    }
}

/// What the host does to interpret the cell of a pattern.
#[derive(Clone, Copy, Debug, PartialEq, Eq, Structural)]
pub enum CellAction {
    /// Clip to the bounding box.
    PushClip,
    /// Interpret the content with its own colors.
    Interpret,
    /// Interpret the content with the stroke color of the selection.
    InterpretWithStroke,
    /// Interpret the content with the other color of the selection.
    InterpretWithFill,
    PopClip,
}

/// How the host interprets the content of a cell.
pub open spec fn cell_content(is_color: bool, is_stroke: bool) -> CellAction {
    if is_color {
        CellAction::Interpret
    } else if is_stroke {
        CellAction::InterpretWithStroke
    } else {
        CellAction::InterpretWithFill
    }
}

impl TilingPattern {
    /// A tiling pattern.
    pub fn new<S: Fn(u32) -> bool, B: Fn(Rectangle) -> bool>(
        doc: &Document,
        stream: &Stream,
        degenerate: &Degenerate<S, B>,
    ) -> (pattern: Option<Self>)
        requires
            degenerate.is_total(),
        ensures
            forall|judged: Degeneracy| #[trigger]
                degenerate.gives(judged) ==> pattern == tiling_pattern(*doc, stream.dict, judged),
    {
        let dict = &stream.dict;
        let bbox = match read_rectangle(doc, dict, "BBox") {
            Some(bbox) => bbox,
            None => {
                return None;
            },
        };
        let x_step: u32 = match read_step(doc, dict, "XStep") {
            Some(step) => step,
            None => {
                return None;
            },
        };
        let y_step: u32 = match read_step(doc, dict, "YStep") {
            Some(step) => step,
            None => {
                return None;
            },
        };
        let x_degenerate = (degenerate.step)(x_step);
        let y_degenerate = (degenerate.step)(y_step);
        let no_area = (degenerate.area)(bbox);
        if x_degenerate || y_degenerate || no_area {
            return None;
        }
        let paint_type: u8 = match read_byte(doc, dict, "PaintType") {
            Some(paint_type) => paint_type,
            None => {
                return None;
            },
        };
        if !(paint_type == 1 || paint_type == 2) {
            return None;
        }
        let tiling_type: u8 = match read_byte(doc, dict, "TilingType") {
            Some(tiling_type) => tiling_type,
            None => {
                return None;
            },
        };
        if tiling_type < 1 || tiling_type > 3 {
            return None;
        }
        let matrix = read_matrix(doc, dict);
        Some(TilingPattern { bbox, x_step, y_step, matrix, is_color: paint_type == 1, tiling_type })
    }

    /// Whether the pattern's content stream supplies its own colors (`/PaintType 1`) instead of
    /// using the selecting graphics-state paint.
    pub fn is_colored(&self) -> (result: bool)
        ensures
            result == self.is_color,
    {
        self.is_color
    }

    /// The validated `/TilingType` value (1, 2, or 3).
    pub fn tiling_type(&self) -> (tiling_type: u8)
        ensures
            tiling_type == self.tiling_type,
    {
        self.tiling_type
    }

    /// The selecting graphics-state color for an uncolored (`/PaintType 2`) cell.
    ///
    /// Colored patterns have none because their content stream owns its paints.
    pub fn uncolored_base_color<'a, C>(
        &self,
        is_stroke: bool,
        stroke_paint: &'a C,
        non_stroking_paint: &'a C,
    ) -> (color: Option<&'a C>)
        ensures
            color == (if self.is_color {
                None
            } else if is_stroke {
                Some(stroke_paint)
            } else {
                Some(non_stroking_paint)
            }),
    {
        if self.is_color {
            None
        } else if is_stroke {
            Some(stroke_paint)
        } else {
            Some(non_stroking_paint)
        }
    }

    /// What the host does to interpret the cell.
    ///
    /// Without a clip, every possible mark has to be contained by the cell box already.
    pub fn interpret_with_bbox_clip(&self, is_stroke: bool, clip_bbox: bool) -> (actions: Vec<
        CellAction,
    >)
        ensures
            actions@ == (if clip_bbox {
                seq![
                    CellAction::PushClip,
                    cell_content(self.is_color, is_stroke),
                    CellAction::PopClip,
                ]
            } else {
                seq![cell_content(self.is_color, is_stroke)]
            }),
    {
        let mut actions: Vec<CellAction> = Vec::new();
        if clip_bbox {
            actions.push(CellAction::PushClip);
        }
        if self.is_color {
            actions.push(CellAction::Interpret);
        } else if is_stroke {
            actions.push(CellAction::InterpretWithStroke);
        } else {
            actions.push(CellAction::InterpretWithFill);
        }
        if clip_bbox {
            actions.push(CellAction::PopClip);
        }
        proof {
            let content = cell_content(self.is_color, is_stroke);
            if clip_bbox {
                assert(actions@ =~= seq![CellAction::PushClip, content, CellAction::PopClip]);
            } else {
                assert(actions@ =~= seq![content]);
            }
        }
        actions
    }

    /// What the transfer function of a selection does to the pattern.
    ///
    /// Colored patterns use the initial state of the content stream around them.
    pub fn select_transfer(&self, defers: bool, has_transfer: bool) -> (effect: TransferEffect)
        ensures
            effect == transfer_effect(self.is_color, defers, has_transfer),
    {
        if defers {
            if self.is_color {
                TransferEffect::ForgetDeferred
            } else {
                TransferEffect::Defer
            }
        } else if !self.is_color && has_transfer {
            TransferEffect::ApplyToPaints
        } else {
            TransferEffect::Nothing
        }
    }
}

/// What the transfer function of a selection does to a pattern.
#[derive(Clone, Copy, Debug, PartialEq, Eq, Structural)]
pub enum TransferEffect {
    Nothing,
    /// Take it as the deferred function of the base paint, if there is one.
    Defer,
    /// There is no deferred function.
    ForgetDeferred,
    /// Apply it to the paints of the selection.
    ApplyToPaints,
}

/// What the transfer function of a selection does to a tiling pattern.
pub open spec fn transfer_effect(is_color: bool, defers: bool, has_transfer: bool) -> TransferEffect {
    if defers && is_color {
        TransferEffect::ForgetDeferred
    } else if defers {
        TransferEffect::Defer
    } else if !is_color && has_transfer {
        TransferEffect::ApplyToPaints
    } else {
        TransferEffect::Nothing
    }
}

/// A shading pattern, as its dictionary describes it.
#[derive(Debug)]
pub struct ShadingPattern<'a> {
    /// The shading, a dictionary or a stream.
    pub shading: &'a Object,
    /// The matrix; without one it is the identity.
    pub matrix: Option<Matrix>,
    /// The transfer entry of the pattern's own graphics state, with its key.
    pub transfer: Option<(&'static str, &'a Object)>,
    /// Whether the `/Background` entry of the shading applies.
    ///
    /// It applies only when a shading is selected through a pattern color space.
    pub background_applies: bool,
}

/// The shading of a pattern.
pub open spec fn shading_of(doc: Document, dict: Dict) -> Option<Object> {
    match doc.value(dict, "Shading"@) {
        Some(object) => match object {
            Object::Dict(_) | Object::Stream(_) => Some(object),
            _ => None,
        },
        None => None,
    }
}

/// The transfer entry of a pattern's own graphics state.
pub open spec fn pattern_transfer(doc: Document, dict: Dict) -> Option<(Seq<char>, Object)> {
    match doc.value(dict, "ExtGState"@) {
        Some(Object::Dict(state)) => selected_transfer(doc, state),
        _ => None,
    }
}

/// A pattern is the shading pattern that a dictionary describes.
pub open spec fn describes_shading(
    pattern: Option<ShadingPattern>,
    doc: Document,
    dict: Dict,
) -> bool {
    match shading_of(doc, dict) {
        None => pattern is None,
        Some(shading) => {
            &&& pattern matches Some(pattern)
            &&& *pattern.shading == shading
            &&& pattern.matrix == matrix_of(doc, dict)
            &&& pattern.background_applies
            &&& match pattern_transfer(doc, dict) {
                Some((key, object)) => pattern.transfer matches Some((given, value)) && given@
                    == key && *value == object,
                None => pattern.transfer is None,
            }
        },
    }
}

impl<'a> ShadingPattern<'a> {
    /// A shading pattern.
    pub fn new(doc: &'a Document, dict: &'a Dict) -> (pattern: Option<Self>)
        ensures
            describes_shading(pattern, *doc, *dict),
    {
        let shading = match doc.lookup(dict, "Shading") {
            Some(object) => match object {
                Object::Dict(_) => object,
                Object::Stream(_) => object,
                _ => {
                    return None;
                },
            },
            None => {
                return None;
            },
        };
        let transfer = match doc.lookup(dict, "ExtGState") {
            Some(Object::Dict(state)) => selected_transfer_function(doc, state),
            _ => None,
        };
        let matrix = read_matrix(doc, dict);
        Some(ShadingPattern { shading, matrix, transfer, background_applies: true })
    }
}

/// A PDF pattern.
#[derive(Debug)]
pub enum Pattern<'a> {
    /// A shading pattern.
    Shading(ShadingPattern<'a>),
    /// A tiling pattern.
    Tiling(TilingPattern),
}

/// What a rendering intent does to a pattern.
#[derive(Clone, Copy, Debug, PartialEq, Eq, Structural)]
pub enum IntentEffect {
    /// It converts the color space of the shading.
    Convert,
    /// The content is interpreted with it.
    Select,
    /// The content is interpreted with it, and it converts the paints of the selection.
    SelectAndConvertPaints,
}

impl<'a> Pattern<'a> {
    /// A pattern: a shading pattern is a dictionary, a tiling pattern is a stream.
    pub fn new<S: Fn(u32) -> bool, B: Fn(Rectangle) -> bool>(
        doc: &'a Document,
        object: &'a Object,
        degenerate: &Degenerate<S, B>,
    ) -> (pattern: Option<Self>)
        requires
            degenerate.is_total(),
        ensures
            match *object {
                Object::Dict(dict) => match pattern {
                    Some(Pattern::Shading(shading)) => describes_shading(
                        Some(shading),
                        *doc,
                        dict,
                    ),
                    Some(_) => false,
                    None => describes_shading(None, *doc, dict),
                },
                Object::Stream(stream) => forall|judged: Degeneracy| #[trigger]
                    degenerate.gives(judged) ==> pattern == match tiling_pattern(
                        *doc,
                        stream.dict,
                        judged,
                    ) {
                        Some(tiling) => Some(Pattern::Tiling(tiling)),
                        None => None,
                    },
                _ => pattern is None,
            },
    {
        match object {
            Object::Dict(dict) => match ShadingPattern::new(doc, dict) {
                Some(pattern) => Some(Pattern::Shading(pattern)),
                None => None,
            },
            Object::Stream(stream) => match TilingPattern::new(doc, stream, degenerate) {
                Some(pattern) => Some(Pattern::Tiling(pattern)),
                None => None,
            },
            _ => None,
        }
    }

    /// What a rendering intent does to the pattern.
    pub fn select_intent(&self) -> (effect: IntentEffect)
        ensures
            effect == match *self {
                Pattern::Shading(_) => IntentEffect::Convert,
                Pattern::Tiling(pattern) => if pattern.is_color {
                    IntentEffect::Select
                } else {
                    IntentEffect::SelectAndConvertPaints
                },
            },
    {
        match self {
            Pattern::Shading(_) => IntentEffect::Convert,
            Pattern::Tiling(pattern) => if pattern.is_color {
                IntentEffect::Select
            } else {
                IntentEffect::SelectAndConvertPaints
            },
        }
    }

    /// What the transfer function of a selection does to the pattern.
    ///
    /// Colored patterns use the initial state of the content stream around them.
    pub fn select_transfer(&self, defers: bool, has_transfer: bool) -> (effect: TransferEffect)
        ensures
            effect == match *self {
                Pattern::Shading(_) => TransferEffect::Nothing,
                Pattern::Tiling(pattern) => transfer_effect(pattern.is_color, defers, has_transfer),
            },
    {
        match self {
            Pattern::Shading(_) => TransferEffect::Nothing,
            Pattern::Tiling(pattern) => pattern.select_transfer(defers, has_transfer),
        }
    }
}

/// What an uncolored pattern lets through to the device.
#[derive(Clone, Copy, Debug, PartialEq, Eq, Structural)]
pub enum DeviceCall {
    DrawPath,
    DrawGlyphRun,
    DrawStencil,
    DrawRaster,
    PushTransparencyGroup,
    PopTransparencyGroup,
    /// Clips, text objects and combined fills and strokes.
    Structure,
}

/// How a call goes through to the device.
#[derive(Clone, Copy, Debug, PartialEq, Eq, Structural)]
pub enum Passage {
    /// As it is.
    Unchanged,
    /// With the paint and the deferred transfer function of the selection.
    Repainted,
    /// Not at all.
    Dropped,
}

/// How a call of an uncolored pattern goes through: only paths and stencil masks are painted, and
/// there are no groups.
pub fn stencil_passage(call: DeviceCall) -> (passage: Passage)
    ensures
        passage == match call {
            DeviceCall::DrawPath | DeviceCall::DrawStencil => Passage::Repainted,
            DeviceCall::DrawRaster
            | DeviceCall::PushTransparencyGroup
            | DeviceCall::PopTransparencyGroup => Passage::Dropped,
            DeviceCall::DrawGlyphRun | DeviceCall::Structure => Passage::Unchanged,
        },
{
    match call {
        DeviceCall::DrawPath | DeviceCall::DrawStencil => Passage::Repainted,
        DeviceCall::DrawRaster
        | DeviceCall::PushTransparencyGroup
        | DeviceCall::PopTransparencyGroup => Passage::Dropped,
        DeviceCall::DrawGlyphRun | DeviceCall::Structure => Passage::Unchanged,
    }
}

} // verus!
