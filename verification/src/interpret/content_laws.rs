//! What each instruction of a content stream does.

use crate::function::double::rank;
use crate::interpret::instruction::{
    is_defined, rendering_mode, Action, Instruction, Parameter, Point, TextRenderingMode,
};
use crate::interpret::scope::{
    after_instruction, boundary_actions, final_actions, frames_after, instruction_actions,
    sequences_closed, Facts, Scope,
};
use crate::interpret::warning::{ColorConversionError, InterpreterWarning};
use crate::ocg::state::VisibilityFrame;
use crate::types::FillRule;
use vstd::prelude::*;

verus! {

/// A path as a host builds it.
#[verifier::ext_equal]
pub struct Outline {
    pub last: Point,
    pub start: Point,
    pub segments: Seq<Segment>,
}

/// A part of a path.
pub enum Segment {
    Move(Point),
    Line(Point),
    Curve(Point, Point, Point),
    Close,
    Rect(Point, Point),
}

/// A path after a host has carried out an action.
pub open spec fn drawn(outline: Outline, action: Action) -> Outline {
    match action {
        Action::SetLastPoint(p) => Outline { last: p, ..outline },
        Action::SetSubPathStart(p) => Outline { start: p, ..outline },
        Action::MoveTo(p) => Outline {
            segments: outline.segments.push(Segment::Move(p)),
            ..outline
        },
        Action::LineTo(p) => Outline {
            segments: outline.segments.push(Segment::Line(p)),
            ..outline
        },
        Action::LineToBeside(p) => Outline {
            segments: outline.segments.push(Segment::Line(p)),
            ..outline
        },
        Action::CurveTo(p1, p2, p3) => Outline {
            segments: outline.segments.push(Segment::Curve(p1, p2, p3)),
            ..outline
        },
        Action::ClosePath => Outline { segments: outline.segments.push(Segment::Close), ..outline },
        Action::AppendRect(corner, size) => Outline {
            segments: outline.segments.push(Segment::Rect(corner, size)),
            ..outline
        },
        Action::TruncatePath => Outline { segments: Seq::empty(), ..outline },
        _ => outline,
    }
}

/// A path after a host has carried out actions.
pub open spec fn all_drawn(outline: Outline, actions: Seq<Action>) -> Outline
    decreases actions.len(),
{
    if actions.len() == 0 {
        outline
    } else {
        drawn(all_drawn(outline, actions.drop_last()), actions.last())
    }
}

proof fn lemma_drawn_one(outline: Outline, a: Action)
    ensures
        all_drawn(outline, Seq::<Action>::empty() + seq![a]) == drawn(outline, a),
{
    let actions = Seq::<Action>::empty() + seq![a];
    reveal_with_fuel(all_drawn, 2);
    assert(actions.drop_last() =~= Seq::empty());
}

proof fn lemma_drawn_two(outline: Outline, a: Action, b: Action)
    ensures
        all_drawn(outline, Seq::<Action>::empty() + seq![a, b]) == drawn(drawn(outline, a), b),
{
    let actions = Seq::<Action>::empty() + seq![a, b];
    reveal_with_fuel(all_drawn, 3);
    assert(actions.drop_last() =~= seq![a]);
    assert(seq![a].drop_last() =~= Seq::empty());
}

proof fn lemma_drawn_three(outline: Outline, a: Action, b: Action, c: Action)
    ensures
        all_drawn(outline, Seq::<Action>::empty() + seq![a, b, c]) == drawn(
            drawn(drawn(outline, a), b),
            c,
        ),
{
    let actions = Seq::<Action>::empty() + seq![a, b, c];
    reveal_with_fuel(all_drawn, 4);
    assert(actions.drop_last() =~= seq![a, b]);
    assert(seq![a, b].drop_last() =~= seq![a]);
    assert(seq![a].drop_last() =~= Seq::empty());
}

/// What an instruction outside of text objects asks of the host.
pub open spec fn asked(scope: Scope, op: Instruction, facts: Facts) -> Seq<Action> {
    instruction_actions(
        Scope { text_object_active: false, ..scope },
        Seq::empty(),
        true,
        op,
        facts,
    )
}

/// The instructions that build paths append to the path what their operands say, in their order,
/// and move the current point to its end. On an empty path there is no point to go on from.
pub proof fn lemma_path_built(
    scope: Scope,
    facts: Facts,
    outline: Outline,
    p1: Point,
    p2: Point,
    p3: Point,
)
    requires
        !facts.path_is_empty,
        outline.last == facts.last_point,
    ensures
        all_drawn(outline, asked(scope, Instruction::CubicTo(p1, p2, p3), facts)) == (Outline {
            last: p3,
            segments: outline.segments.push(Segment::Curve(p1, p2, p3)),
            ..outline
        }),
        all_drawn(outline, asked(scope, Instruction::CubicStartTo(p2, p3), facts)) == (Outline {
            last: p3,
            segments: outline.segments.push(Segment::Curve(outline.last, p2, p3)),
            ..outline
        }),
        all_drawn(outline, asked(scope, Instruction::CubicEndTo(p1, p3), facts)) == (Outline {
            last: p3,
            segments: outline.segments.push(Segment::Curve(p1, p3, p3)),
            ..outline
        }),
        all_drawn(outline, asked(scope, Instruction::LineTo(p1), facts)) == (Outline {
            last: p1,
            segments: outline.segments.push(Segment::Line(p1)),
            ..outline
        }),
        all_drawn(outline, asked(scope, Instruction::MoveTo(p1), facts)) == (Outline {
            last: p1,
            start: p1,
            segments: outline.segments.push(Segment::Move(p1)),
        }),
        all_drawn(outline, asked(scope, Instruction::RectPath(p1, p2), facts)) == (Outline {
            segments: outline.segments.push(Segment::Rect(p1, p2)),
            ..outline
        }),
        all_drawn(outline, asked(scope, Instruction::ClosePath, facts)) == (Outline {
            segments: outline.segments.push(Segment::Close),
            ..outline
        }),
{
    lemma_drawn_two(outline, Action::SetLastPoint(p3), Action::CurveTo(p1, p2, p3));
    lemma_drawn_two(outline, Action::SetLastPoint(p3), Action::CurveTo(outline.last, p2, p3));
    lemma_drawn_two(outline, Action::SetLastPoint(p3), Action::CurveTo(p1, p3, p3));
    lemma_drawn_two(outline, Action::SetLastPoint(p1), Action::LineTo(p1));
    lemma_drawn_two(outline, Action::SetLastPoint(p1), Action::LineToBeside(p1));
    lemma_drawn_three(
        outline,
        Action::SetLastPoint(p1),
        Action::SetSubPathStart(p1),
        Action::MoveTo(p1),
    );
    lemma_drawn_one(outline, Action::AppendRect(p1, p2));
    lemma_drawn_one(outline, Action::ClosePath);
}

/// A curve with an implied control point is the curve with that point written out: the current
/// point as the first one, or the end as the second one.
pub proof fn lemma_short_curves(scope: Scope, facts: Facts, a: Point, b: Point)
    ensures
        asked(scope, Instruction::CubicStartTo(a, b), facts) == asked(
            scope,
            Instruction::CubicTo(facts.last_point, a, b),
            facts,
        ),
        asked(scope, Instruction::CubicEndTo(a, b), facts) == asked(
            scope,
            Instruction::CubicTo(a, b, b),
            facts,
        ),
        facts.path_is_empty ==> asked(scope, Instruction::CubicTo(a, a, b), facts).len() == 0
            && asked(scope, Instruction::LineTo(b), facts).len() == 0,
{
}

/// A line goes beside its end if and only if it would have no length.
pub proof fn lemma_line_of_no_length(scope: Scope, facts: Facts, p: Point)
    requires
        !facts.path_is_empty,
    ensures
        asked(scope, Instruction::LineTo(p), facts).contains(Action::LineToBeside(p)) <==> {
            &&& is_defined(p.x) && is_defined(p.y)
            &&& is_defined(facts.last_point.x) && is_defined(facts.last_point.y)
            &&& rank(p.x) == rank(facts.last_point.x)
            &&& rank(p.y) == rank(facts.last_point.y)
        },
        asked(scope, Instruction::LineTo(p), facts).contains(Action::LineTo(p)) <==> !asked(
            scope,
            Instruction::LineTo(p),
            facts,
        ).contains(Action::LineToBeside(p)),
{
    let actions = asked(scope, Instruction::LineTo(p), facts);
    assert(actions[1] == Action::LineToBeside(p) || actions[1] == Action::LineTo(p));
    assert(actions[0] == Action::SetLastPoint(p));
    assert(actions.len() == 2);
}

/// An instruction that closes a path before it paints is the closing and then the painting. The
/// old name for filling fills with the nonzero rule.
pub proof fn lemma_close_and_paint(scope: Scope, facts: Facts, rule: FillRule)
    ensures
        asked(scope, Instruction::CloseAndStrokePath, facts) == asked(
            scope,
            Instruction::ClosePath,
            facts,
        ) + asked(scope, Instruction::StrokePath, facts),
        asked(scope, Instruction::CloseFillAndStroke(rule), facts) == asked(
            scope,
            Instruction::ClosePath,
            facts,
        ) + asked(scope, Instruction::FillAndStroke(rule), facts),
        asked(scope, Instruction::FillPathNonZeroCompatibility, facts) == asked(
            scope,
            Instruction::FillPath(FillRule::NonZero),
            facts,
        ),
{
    assert(asked(scope, Instruction::CloseAndStrokePath, facts) =~= asked(
        scope,
        Instruction::ClosePath,
        facts,
    ) + asked(scope, Instruction::StrokePath, facts));
    assert(asked(scope, Instruction::CloseFillAndStroke(rule), facts) =~= asked(
        scope,
        Instruction::ClosePath,
        facts,
    ) + asked(scope, Instruction::FillAndStroke(rule), facts));
}

/// An action paints the inside of the path by a rule.
pub open spec fn fills(action: Action, rule: FillRule) -> bool {
    action == Action::FillPath(rule) || action == Action::FillStrokePath(rule)
}

/// An action paints the outline of the path.
pub open spec fn strokes(action: Action) -> bool {
    action is StrokePath || action is FillStrokePath
}

/// Painting instructions fill, by the rule that they name, or stroke, or both, once each.
pub proof fn lemma_painted(scope: Scope, facts: Facts, rule: FillRule)
    ensures
        ({
            let actions = asked(scope, Instruction::FillPath(rule), facts);
            actions.len() == 1 && fills(actions[0], rule) && !strokes(actions[0])
        }),
        ({
            let actions = asked(scope, Instruction::StrokePath, facts);
            actions.len() == 1 && strokes(actions[0]) && !(actions[0] is FillStrokePath)
        }),
        ({
            let actions = asked(scope, Instruction::FillAndStroke(rule), facts);
            actions.len() == 1 && fills(actions[0], rule) && strokes(actions[0])
        }),
{
}

/// A clip is set by its instruction, by the rule that it names, and takes effect when the path
/// ends, unless the path is empty. The end forgets the path.
pub proof fn lemma_clipped(scope: Scope, facts: Facts, rule: FillRule)
    ensures
        asked(scope, Instruction::Clip(rule), facts) == seq![Action::SetClip(rule)],
        ({
            let actions = asked(scope, Instruction::EndPath, facts);
            &&& actions.contains(Action::PushClipPath(rule)) <==> facts.clip == Some(rule)
                && !facts.path_is_empty
            &&& actions.contains(Action::ClearClip) <==> facts.clip is Some && !facts.path_is_empty
            &&& actions.len() > 0 && actions.last() is TruncatePath
            &&& forall|i: int|
                0 <= i < actions.len() ==> !fills(#[trigger] actions[i], rule) && !strokes(
                    actions[i],
                )
        }),
{
    assert(asked(scope, Instruction::Clip(rule), facts) =~= seq![Action::SetClip(rule)]);
    let actions = asked(scope, Instruction::EndPath, facts);
    if facts.clip is Some && !facts.path_is_empty {
        assert(actions =~= seq![
            Action::PushClipPath(facts.clip->0),
            Action::ClearClip,
            Action::TruncatePath,
        ]);
        assert(actions[0] == Action::PushClipPath(facts.clip->0));
        assert(actions[1] == Action::ClearClip);
    } else {
        assert(actions =~= seq![Action::TruncatePath]);
    }
}

/// Graphics states are saved, restored and transformed by their own instructions only.
pub proof fn lemma_graphics_states(scope: Scope, facts: Facts, op: Instruction)
    ensures
        asked(scope, op, facts).contains(Action::SaveState) <==> op is SaveState,
        asked(scope, op, facts).contains(Action::RestoreState) <==> op is RestoreState,
        asked(scope, op, facts).contains(Action::ConcatTransform) <==> op is Transform,
        asked(scope, op, facts).contains(Action::ApplyGraphicsState) <==> op is SetGraphicsState,
        asked(scope, op, facts).contains(Action::DrawXObject) <==> op is XObject,
        asked(scope, op, facts).contains(Action::DrawInlineImage) <==> op is InlineImage,
        asked(scope, op, facts).contains(Action::PaintShading) <==> op is Shading,
        asked(scope, op, facts).contains(Action::SetTextMatrix) <==> op is SetTextMatrix,
{
    let actions = asked(scope, op, facts);
    if op is SaveState || op is RestoreState || op is Transform || op is SetGraphicsState
        || op is XObject || op is InlineImage || op is Shading || op is SetTextMatrix {
        assert(actions.len() == 1);
        assert(actions.contains(actions[0]));
    }
}

/// Colors go to the target that the instruction names, and forget its pattern unless they select
/// one.
pub proof fn lemma_colors(
    scope: Scope,
    facts: Facts,
    target: crate::interpret::instruction::Target,
    space: crate::interpret::instruction::DeviceSpace,
    is_pattern: bool,
)
    ensures
        asked(scope, Instruction::DeviceColor(target, space), facts) == seq![
            Action::SetDeviceColor(target, space),
        ],
        asked(scope, Instruction::Color(target), facts) == seq![Action::SetColor(target)],
        asked(scope, Instruction::NamedColor(target), facts) == seq![Action::SetNamedColor(target)],
        ({
            let actions = asked(scope, Instruction::ColorSpace(target, is_pattern), facts);
            &&& actions.contains(Action::ClearPattern(target)) <==> !is_pattern
            &&& actions.last() == Action::SelectColorSpace(target)
            &&& actions.len() <= 2
        }),
{
    assert(asked(scope, Instruction::DeviceColor(target, space), facts) =~= seq![
        Action::SetDeviceColor(target, space),
    ]);
    assert(asked(scope, Instruction::Color(target), facts) =~= seq![Action::SetColor(target)]);
    assert(asked(scope, Instruction::NamedColor(target), facts) =~= seq![
        Action::SetNamedColor(target),
    ]);
    let actions = asked(scope, Instruction::ColorSpace(target, is_pattern), facts);
    if !is_pattern {
        assert(actions[0] == Action::ClearPattern(target));
    } else {
        assert(actions =~= seq![Action::SelectColorSpace(target)]);
    }
}

/// The parameters of the graphics state are set by their own instructions. An unknown intent is
/// set too, with a warning; an intent that is no name is only warned about.
pub proof fn lemma_parameters(scope: Scope, facts: Facts, parameter: Parameter, flag: bool)
    ensures
        asked(scope, Instruction::Parameter(parameter), facts) == seq![
            Action::SetParameter(parameter),
        ],
        ({
            let actions = asked(scope, Instruction::RenderingIntent(flag), facts);
            &&& actions[0] == Action::SetParameter(Parameter::RenderingIntent)
            &&& actions.contains(Action::Warn(InterpreterWarning::RenderingIntentUnknown)) <==> flag
            &&& actions.len() == if flag {
                2nat
            } else {
                1nat
            }
        }),
        asked(scope, Instruction::Fallback(flag), facts) == if flag {
            seq![
                Action::Warn(
                    InterpreterWarning::ColorConversion(ColorConversionError::InvalidIntent),
                ),
            ]
        } else {
            Seq::empty()
        },
{
    assert(asked(scope, Instruction::Parameter(parameter), facts) =~= seq![
        Action::SetParameter(parameter),
    ]);
    assert(asked(scope, Instruction::Fallback(flag), facts) =~= if flag {
        seq![Action::Warn(InterpreterWarning::ColorConversion(ColorConversionError::InvalidIntent))]
    } else {
        Seq::empty()
    });
    let actions = asked(scope, Instruction::RenderingIntent(flag), facts);
    if flag {
        assert(actions[1] == Action::Warn(InterpreterWarning::RenderingIntentUnknown));
    }
}

/// A text instruction that stands for several is those in turn: moving to the next line and
/// showing, setting the leading and moving, and setting the spacings first.
pub proof fn lemma_combined_text(scope: Scope, facts: Facts)
    requires
        facts.has_font,
    ensures
        asked(scope, Instruction::NextLineAndShowText, facts) == asked(
            scope,
            Instruction::NextLineUsingLeading,
            facts,
        ) + asked(scope, Instruction::ShowText, facts),
        asked(scope, Instruction::ShowTextWithParameters, facts) == asked(
            scope,
            Instruction::Parameter(Parameter::WordSpacing),
            facts,
        ) + asked(scope, Instruction::Parameter(Parameter::CharacterSpacing), facts) + asked(
            scope,
            Instruction::NextLineAndShowText,
            facts,
        ),
        asked(scope, Instruction::NextLineAndSetLeading, facts) == seq![
            Action::SetLeadingFromOffset,
        ] + asked(scope, Instruction::NextLine, facts),
        asked(scope, Instruction::NextLine, facts) == seq![Action::NextLine],
        asked(scope, Instruction::NextLineUsingLeading, facts) == seq![Action::NextLineByLeading],
{
    assert(asked(scope, Instruction::NextLineAndShowText, facts) =~= asked(
        scope,
        Instruction::NextLineUsingLeading,
        facts,
    ) + asked(scope, Instruction::ShowText, facts));
    assert(asked(scope, Instruction::ShowTextWithParameters, facts) =~= asked(
        scope,
        Instruction::Parameter(Parameter::WordSpacing),
        facts,
    ) + asked(scope, Instruction::Parameter(Parameter::CharacterSpacing), facts) + asked(
        scope,
        Instruction::NextLineAndShowText,
        facts,
    ));
    assert(asked(scope, Instruction::NextLineAndSetLeading, facts) =~= seq![
        Action::SetLeadingFromOffset,
    ] + asked(scope, Instruction::NextLine, facts));
    assert(asked(scope, Instruction::NextLine, facts) =~= seq![Action::NextLine]);
    assert(asked(scope, Instruction::NextLineUsingLeading, facts) =~= seq![
        Action::NextLineByLeading,
    ]);
}

/// Text is shown once by each showing instruction, after a fallback font was set if and only if
/// there was no font.
pub proof fn lemma_text_shown(scope: Scope, facts: Facts)
    ensures
        ({
            let actions = asked(scope, Instruction::ShowText, facts);
            &&& actions.last() is ShowTextString
            &&& actions.contains(Action::UseFallbackFont) <==> !facts.has_font
            &&& actions.len() == if facts.has_font {
                1nat
            } else {
                2nat
            }
        }),
        ({
            let actions = asked(scope, Instruction::ShowTexts, facts);
            &&& actions.last() is ShowGlyphRun
            &&& actions.contains(Action::UseFallbackFont) <==> !facts.has_font
            &&& actions.len() == if facts.has_font {
                1nat
            } else {
                2nat
            }
        }),
{
    let a = asked(scope, Instruction::ShowText, facts);
    let b = asked(scope, Instruction::ShowTexts, facts);
    if !facts.has_font {
        assert(a[0] is UseFallbackFont);
        assert(b[0] is UseFallbackFont);
    } else {
        assert(a =~= seq![Action::ShowTextString]);
        assert(b =~= seq![Action::ShowGlyphRun]);
    }
}

/// A font that was found before is resolved from there, one that is found in the resources is kept
/// for later, and only a name without a font stands for Helvetica.
pub proof fn lemma_font_selected(scope: Scope, facts: Facts)
    ensures
        ({
            let actions = asked(scope, Instruction::TextFont, facts);
            &&& actions.len() == 1
            &&& actions[0] matches Action::SelectFont(choice)
            &&& choice is Fallback <==> !facts.font_is_cached && !facts.font_in_resources
            &&& choice is ResolveCached <==> facts.font_is_cached
            &&& choice is KeepAndResolve <==> !facts.font_is_cached && facts.font_in_resources
        }),
{
}

/// A mode of text fills.
pub open spec fn fills_text(mode: TextRenderingMode) -> bool {
    mode is Fill || mode is FillStroke || mode is FillAndClip || mode is FillAndStrokeAndClip
}

/// A mode of text strokes.
pub open spec fn strokes_text(mode: TextRenderingMode) -> bool {
    mode is Stroke || mode is FillStroke || mode is StrokeAndClip || mode is FillAndStrokeAndClip
}

/// A mode of text clips.
pub open spec fn clips_text(mode: TextRenderingMode) -> bool {
    mode is FillAndClip || mode is StrokeAndClip || mode is FillAndStrokeAndClip || mode is Clip
}

/// The code of a text rendering mode: the last four of the eight clip, and paint as the first four
/// do. Codes beyond them fill.
pub proof fn lemma_rendering_modes(scope: Scope, facts: Facts, code: i64)
    ensures
        0 <= code < 8 ==> {
            &&& clips_text(rendering_mode(code)) <==> code >= 4
            &&& fills_text(rendering_mode(code)) <==> code % 4 == 0 || code % 4 == 2
            &&& strokes_text(rendering_mode(code)) <==> code % 4 == 1 || code % 4 == 2
        },
        !(0 <= code < 8) ==> rendering_mode(code) == rendering_mode(0),
        asked(scope, Instruction::TextRenderingMode(code), facts) == seq![
            Action::SetRenderMode(rendering_mode(code)),
        ],
{
    assert(asked(scope, Instruction::TextRenderingMode(code), facts) =~= seq![
        Action::SetRenderMode(rendering_mode(code)),
    ]);
}

/// What is not visible is not shaded.
pub proof fn lemma_shading(
    scope: Scope,
    frames: Seq<VisibilityFrame>,
    visible: bool,
    facts: Facts,
)
    ensures
        instruction_actions(scope, frames, visible, Instruction::Shading, facts).contains(
            Action::PaintShading,
        ) <==> visible,
{
    let actions = instruction_actions(scope, frames, visible, Instruction::Shading, facts);
    if visible {
        assert(actions.last() is PaintShading);
        assert(actions[actions.len() - 1] is PaintShading);
    }
}

/// An instruction belongs to text, to colors, to parameters or to marked content.
pub open spec fn stays_in_text(op: Instruction) -> bool {
    match op {
        Instruction::DeviceColor(_, _)
        | Instruction::Color(_)
        | Instruction::NamedColor(_)
        | Instruction::ColorSpace(_, _)
        | Instruction::Parameter(_)
        | Instruction::RenderingIntent(_)
        | Instruction::FlatnessTolerance
        | Instruction::SetGraphicsState
        | Instruction::BeginMarkedContent
        | Instruction::BeginMarkedContentWithProperties
        | Instruction::MarkedContentPoint
        | Instruction::MarkedContentPointWithProperties
        | Instruction::EndMarkedContent
        | Instruction::SetTextMatrix
        | Instruction::TextFont
        | Instruction::ShowText
        | Instruction::ShowTexts
        | Instruction::NextLine
        | Instruction::NextLineUsingLeading
        | Instruction::NextLineAndShowText
        | Instruction::NextLineAndSetLeading
        | Instruction::ShowTextWithParameters
        | Instruction::TextRenderingMode(_)
        | Instruction::BeginCompatibility
        | Instruction::EndCompatibility
        | Instruction::Fallback(_) => true,
        _ => false,
    }
}

/// In a text object an instruction either stays in it, and asks for what it asks for outside; or
/// ends it; or leaves it first, with a warning once, and then asks for what it asks for outside.
pub proof fn lemma_text_object_left(scope: Scope, facts: Facts, op: Instruction)
    requires
        scope.text_object_active,
    ensures
        ({
            let actions = instruction_actions(scope, Seq::empty(), true, op, facts);
            let outside = asked(scope, op, facts);
            let after = after_instruction(scope, Seq::empty(), op);
            if stays_in_text(op) {
                actions == outside && after.text_object_active
            } else if op is EndText {
                &&& !after.text_object_active
                &&& actions.first() is EndTextObject
                &&& actions.contains(Action::PushTextClip) <==> facts.has_text_outline
                &&& actions.last() is ClearTextClip
            } else {
                &&& after.text_object_active == (op is BeginText)
                &&& exists|before: Seq<Action>|
                    {
                        &&& actions == #[trigger] (before + outside)
                        &&& before.contains(Action::EndTextObject)
                        &&& before.contains(Action::PushTextClip) <==> facts.has_text_outline
                        &&& before.last() is ClearTextClip
                    }
            }
        }),
{
    let actions = instruction_actions(scope, Seq::empty(), true, op, facts);
    let outside = asked(scope, op, facts);
    let boundary = boundary_actions(scope, op, facts);
    if stays_in_text(op) {
        assert(actions =~= outside);
    } else if op is EndText {
        if facts.has_text_outline {
            assert(actions =~= seq![
                Action::EndTextObject,
                Action::PushTextClip,
                Action::ClearTextClip,
            ]);
            assert(actions[1] is PushTextClip);
        } else {
            assert(actions =~= seq![Action::EndTextObject, Action::ClearTextClip]);
        }
    } else {
        let own = outside;
        assert(actions =~= boundary + own);
        let at = boundary.len() - if facts.has_text_outline {
            3int
        } else {
            2int
        };
        assert(boundary[at] is EndTextObject);
        if facts.has_text_outline {
            assert(boundary[at + 1] is PushTextClip);
        }
    }
}

/// Outside of a text object a beginning opens one, after the text matrices were reset, and an end
/// is only warned about, once.
pub proof fn lemma_text_object_opened(scope: Scope, facts: Facts)
    requires
        !scope.text_object_active,
    ensures
        asked(scope, Instruction::BeginText, facts) == seq![
            Action::ResetTextMatrices,
            Action::BeginTextObject,
        ],
        after_instruction(scope, Seq::empty(), Instruction::BeginText).text_object_active,
        asked(scope, Instruction::EndText, facts) == if scope.warned_unmatched_text_object_end {
            Seq::empty()
        } else {
            seq![Action::Warn(InterpreterWarning::UnmatchedTextObjectEnd)]
        },
        !after_instruction(scope, Seq::empty(), Instruction::EndText).text_object_active,
{
    assert(asked(scope, Instruction::BeginText, facts) =~= seq![
        Action::ResetTextMatrices,
        Action::BeginTextObject,
    ]);
    assert(asked(scope, Instruction::EndText, facts) =~= if scope.warned_unmatched_text_object_end {
        Seq::empty()
    } else {
        seq![Action::Warn(InterpreterWarning::UnmatchedTextObjectEnd)]
    });
}

/// A plain sequence is as visible as what surrounds it and is not reported, and the end of a
/// sequence brings back what was before it. The sequences around the scope are not touched.
pub proof fn lemma_sequences(
    scope: Scope,
    frames: Seq<VisibilityFrame>,
    facts: Facts,
    visible: bool,
)
    requires
        scope.initial_marked_content_depth <= frames.len(),
    ensures
        ({
            let begun = frames_after(scope, frames, Instruction::BeginMarkedContent);
            &&& begun.len() == frames.len() + 1
            &&& begun.last().visible == (frames.len() == 0 || frames.last().visible)
            &&& !begun.last().emit_optional_callback
            &&& frames_after(scope, begun, Instruction::EndMarkedContent) == frames
        }),
        frames.len() == scope.initial_marked_content_depth ==> frames_after(
            scope,
            frames,
            Instruction::EndMarkedContent,
        ) == frames,
        frames.len() > scope.initial_marked_content_depth ==> {
            let actions = instruction_actions(
                scope,
                frames,
                visible,
                Instruction::EndMarkedContent,
                facts,
            );
            &&& actions.last() is EndMarkedContent
            &&& actions.contains(Action::EndOptionalContent)
                <==> frames.last().emit_optional_callback
        },
{
    let begun = frames_after(scope, frames, Instruction::BeginMarkedContent);
    assert(frames_after(scope, begun, Instruction::EndMarkedContent) =~= frames);
    if frames.len() > scope.initial_marked_content_depth {
        let actions = instruction_actions(
            scope,
            frames,
            visible,
            Instruction::EndMarkedContent,
            facts,
        );
        if frames.last().emit_optional_callback {
            assert(actions[0] is EndOptionalContent);
        } else {
            assert(actions =~= seq![Action::EndMarkedContent]);
        }
    }
}

/// Instructions that mark points, begin and end compatibility, set the flatness or describe glyphs
/// ask for nothing.
pub proof fn lemma_ignored(scope: Scope, facts: Facts)
    ensures
        asked(scope, Instruction::MarkedContentPoint, facts).len() == 0,
        asked(scope, Instruction::MarkedContentPointWithProperties, facts).len() == 0,
        asked(scope, Instruction::BeginCompatibility, facts).len() == 0,
        asked(scope, Instruction::EndCompatibility, facts).len() == 0,
        asked(scope, Instruction::FlatnessTolerance, facts).len() == 0,
        asked(scope, Instruction::ShapeGlyph, facts).len() == 0,
        asked(scope, Instruction::ColorGlyph, facts).len() == 0,
{
}

/// At the end, what is still open is warned about unless the host has asked to stop or it was
/// warned about before: a text object before the sequences.
pub proof fn lemma_left_open(
    scope: Scope,
    frames: Seq<VisibilityFrame>,
    facts: Facts,
    num_states: usize,
)
    requires
        scope.initial_marked_content_depth <= frames.len(),
    ensures
        ({
            let actions = final_actions(scope, frames, facts, num_states);
            &&& actions.contains(Action::Warn(InterpreterWarning::UnterminatedTextObject)) <==> {
                &&& scope.text_object_active
                &&& !facts.cancelled
                &&& !scope.warned_unterminated_text_object
            }
            &&& actions.contains(Action::Warn(InterpreterWarning::UnterminatedMarkedContent)) <==> {
                &&& frames.len() > scope.initial_marked_content_depth
                &&& !facts.cancelled
                &&& !scope.warned_unterminated_marked_content
            }
        }),
{
    let actions = final_actions(scope, frames, facts, num_states);
    let depth = scope.initial_marked_content_depth as int;
    let closed = sequences_closed(frames, depth);
    lemma_closed_no_warning(frames, depth);
    let text = if scope.text_object_active {
        crate::interpret::scope::warning_once(
            facts.cancelled || scope.warned_unterminated_text_object,
            InterpreterWarning::UnterminatedTextObject,
        ) + crate::interpret::scope::text_object_closed(facts.has_text_outline)
    } else {
        Seq::empty()
    };
    let warned = crate::interpret::scope::warning_once(
        facts.cancelled || scope.warned_unterminated_marked_content,
        InterpreterWarning::UnterminatedMarkedContent,
    );
    let marked = if frames.len() > depth {
        warned + closed
    } else {
        Seq::empty()
    };
    let restored = crate::interpret::scope::restored(num_states - scope.num_states);
    assert(actions =~= text + marked + restored);
    assert forall|i: int| 0 <= i < marked.len() implies marked[i]
        != #[trigger] text_warning(i) by {
        if i >= warned.len() {
            assert(marked[i] == closed[i - warned.len()]);
        }
    }
    if scope.text_object_active && !facts.cancelled && !scope.warned_unterminated_text_object {
        assert(actions[0] == Action::Warn(InterpreterWarning::UnterminatedTextObject));
    }
    if actions.contains(Action::Warn(InterpreterWarning::UnterminatedTextObject)) {
        let i = actions.index_of(Action::Warn(InterpreterWarning::UnterminatedTextObject));
        assert(actions[i] == Action::Warn(InterpreterWarning::UnterminatedTextObject));
        if i >= text.len() {
            if i < text.len() + marked.len() {
                assert(marked[i - text.len()] != text_warning(i - text.len()));
            }
        }
    }
    if frames.len() > depth && !facts.cancelled && !scope.warned_unterminated_marked_content {
        assert(marked[0] == Action::Warn(InterpreterWarning::UnterminatedMarkedContent));
        assert(actions[text.len() as int] == marked[0]);
    }
    if actions.contains(Action::Warn(InterpreterWarning::UnterminatedMarkedContent)) {
        let i = actions.index_of(Action::Warn(InterpreterWarning::UnterminatedMarkedContent));
        assert(actions[i] == Action::Warn(InterpreterWarning::UnterminatedMarkedContent));
        if i >= text.len() && i < text.len() + marked.len() {
            let k = i - text.len();
            assert(marked[k] == actions[i]);
            if k >= warned.len() {
                assert(closed[k - warned.len()] == marked[k]);
            }
        }
    }
}

spec fn text_warning(i: int) -> Action {
    Action::Warn(InterpreterWarning::UnterminatedTextObject)
}

proof fn lemma_closed_no_warning(frames: Seq<VisibilityFrame>, depth: int)
    ensures
        forall|i: int|
            0 <= i < sequences_closed(frames, depth).len() ==> !((#[trigger] sequences_closed(
                frames,
                depth,
            )[i]) is Warn),
    decreases frames.len(),
{
    if frames.len() > depth && frames.len() > 0 {
        lemma_closed_no_warning(frames.drop_last(), depth);
        let first = crate::interpret::scope::sequence_closed(frames.last());
        let rest = sequences_closed(frames.drop_last(), depth);
        let all = first + rest;
        assert forall|i: int| 0 <= i < all.len() implies !((#[trigger] all[i]) is Warn) by {
            if i >= first.len() {
                assert(all[i] == rest[i - first.len()]);
            }
        }
    }
}

} // verus!
