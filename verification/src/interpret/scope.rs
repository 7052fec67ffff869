//! The content scopes of the interpreter.
//!
//! A scope decides what each instruction asks of the host. The host draws, and keeps the
//! graphics state and the path.

use crate::interpret::instruction::{
    coincide, rendering_mode, same_place, select_font, starts_graphics, starts_graphics_object,
    Action, FontChoice, Instruction, Parameter, Point, TextRenderingMode,
};
use crate::interpret::warning::{ColorConversionError, InterpreterWarning};
use crate::ocg::state::{OcgState, VisibilityFrame};
use crate::types::FillRule;
use vstd::prelude::*;

verus! {

/// What the host knows before an instruction.
#[derive(Copy, Clone, Debug, PartialEq, Eq, Structural)]
pub struct Facts {
    /// Whether the host has asked to stop.
    pub cancelled: bool,
    pub path_is_empty: bool,
    pub last_point: Point,
    /// The fill rule of a clip that the next path sets.
    pub clip: Option<FillRule>,
    /// Whether the text object has added outlines to its clip.
    pub has_text_outline: bool,
    pub has_font: bool,
    /// Whether a font dictionary was kept for the name that the instruction selects.
    pub font_is_cached: bool,
    /// Whether the resources have a font of the name that the instruction selects.
    pub font_in_resources: bool,
}

/// A content scope.
#[derive(Copy, Clone, Debug, PartialEq, Eq, Structural)]
pub struct Scope {
    /// The graphics states around the scope.
    pub num_states: usize,
    /// The marked-content sequences around the scope.
    pub initial_marked_content_depth: usize,
    pub text_object_active: bool,
    pub warned_unmatched_marked_content_end: bool,
    pub warned_unterminated_marked_content: bool,
    pub warned_unmatched_text_object_end: bool,
    pub warned_unterminated_text_object: bool,
    pub warned_nested_text_object: bool,
}

/// A warning, unless it has been given.
pub open spec fn warning_once(given: bool, warning: InterpreterWarning) -> Seq<Action> {
    if given {
        Seq::empty()
    } else {
        seq![Action::Warn(warning)]
    }
}

/// What closing a text object asks of the host.
///
/// The text object's implicit knockout group contains only its glyph paints. A clipping text
/// mode takes effect after the text object.
pub open spec fn text_object_closed(has_outline: bool) -> Seq<Action> {
    if has_outline {
        seq![Action::EndTextObject, Action::PushTextClip, Action::ClearTextClip]
    } else {
        seq![Action::EndTextObject, Action::ClearTextClip]
    }
}

/// What leaving a text object before an instruction asks of the host.
pub open spec fn boundary_actions(scope: Scope, op: Instruction, facts: Facts) -> Seq<Action> {
    if scope.text_object_active && op == Instruction::BeginText {
        warning_once(scope.warned_nested_text_object, InterpreterWarning::NestedTextObject)
            + text_object_closed(facts.has_text_outline)
    } else if scope.text_object_active && starts_graphics(op) {
        warning_once(
            scope.warned_unterminated_text_object,
            InterpreterWarning::UnterminatedTextObject,
        ) + text_object_closed(facts.has_text_outline)
    } else {
        Seq::empty()
    }
}

/// The scope after it has left a text object before an instruction.
pub open spec fn after_boundary(scope: Scope, op: Instruction) -> Scope {
    if scope.text_object_active && op == Instruction::BeginText {
        Scope { text_object_active: false, warned_nested_text_object: true, ..scope }
    } else if scope.text_object_active && starts_graphics(op) {
        Scope { text_object_active: false, warned_unterminated_text_object: true, ..scope }
    } else {
        scope
    }
}

/// A marked-content sequence of the scope is open.
pub open spec fn has_open_sequence(scope: Scope, frames: Seq<VisibilityFrame>) -> bool {
    frames.len() > scope.initial_marked_content_depth
}

/// What closing a marked-content sequence asks of the host.
pub open spec fn sequence_closed(frame: VisibilityFrame) -> Seq<Action> {
    if frame.emit_optional_callback {
        seq![Action::EndOptionalContent, Action::EndMarkedContent]
    } else {
        seq![Action::EndMarkedContent]
    }
}

/// What an instruction asks of the host, after text objects were left.
pub open spec fn own_actions(
    scope: Scope,
    frames: Seq<VisibilityFrame>,
    visible: bool,
    op: Instruction,
    facts: Facts,
) -> Seq<Action> {
    match op {
        Instruction::SaveState => seq![Action::SaveState],
        Instruction::RestoreState => seq![Action::RestoreState],
        Instruction::Transform => seq![Action::ConcatTransform],
        Instruction::DeviceColor(target, space) => seq![Action::SetDeviceColor(target, space)],
        Instruction::Color(target) => seq![Action::SetColor(target)],
        Instruction::NamedColor(target) => seq![Action::SetNamedColor(target)],
        Instruction::ColorSpace(target, is_pattern) => if is_pattern {
            seq![Action::SelectColorSpace(target)]
        } else {
            seq![Action::ClearPattern(target), Action::SelectColorSpace(target)]
        },
        Instruction::Parameter(parameter) => seq![Action::SetParameter(parameter)],
        Instruction::RenderingIntent(unknown) => if unknown {
            seq![
                Action::SetParameter(Parameter::RenderingIntent),
                Action::Warn(InterpreterWarning::RenderingIntentUnknown),
            ]
        } else {
            seq![Action::SetParameter(Parameter::RenderingIntent)]
        },
        Instruction::SetGraphicsState => seq![Action::ApplyGraphicsState],
        Instruction::RectPath(corner, size) => seq![Action::AppendRect(corner, size)],
        Instruction::MoveTo(p) => seq![
            Action::SetLastPoint(p),
            Action::SetSubPathStart(p),
            Action::MoveTo(p),
        ],
        Instruction::LineTo(p) => if facts.path_is_empty {
            Seq::empty()
        } else if same_place(facts.last_point, p) {
            seq![Action::SetLastPoint(p), Action::LineToBeside(p)]
        } else {
            seq![Action::SetLastPoint(p), Action::LineTo(p)]
        },
        Instruction::CubicTo(p1, p2, p3) => if facts.path_is_empty {
            Seq::empty()
        } else {
            seq![Action::SetLastPoint(p3), Action::CurveTo(p1, p2, p3)]
        },
        Instruction::CubicStartTo(p2, p3) => if facts.path_is_empty {
            Seq::empty()
        } else {
            seq![Action::SetLastPoint(p3), Action::CurveTo(facts.last_point, p2, p3)]
        },
        Instruction::CubicEndTo(p2, p3) => if facts.path_is_empty {
            Seq::empty()
        } else {
            seq![Action::SetLastPoint(p3), Action::CurveTo(p2, p3, p3)]
        },
        Instruction::ClosePath => seq![Action::ClosePath],
        Instruction::FillPath(rule) => seq![Action::FillPath(rule)],
        Instruction::FillPathNonZeroCompatibility => seq![Action::FillPath(FillRule::NonZero)],
        Instruction::StrokePath => seq![Action::StrokePath],
        Instruction::CloseAndStrokePath => seq![Action::ClosePath, Action::StrokePath],
        Instruction::FillAndStroke(rule) => seq![Action::FillStrokePath(rule)],
        Instruction::CloseFillAndStroke(rule) => seq![
            Action::ClosePath,
            Action::FillStrokePath(rule),
        ],
        Instruction::EndPath => match facts.clip {
            Some(rule) if !facts.path_is_empty => seq![
                Action::PushClipPath(rule),
                Action::ClearClip,
                Action::TruncatePath,
            ],
            _ => seq![Action::TruncatePath],
        },
        Instruction::Clip(rule) => seq![Action::SetClip(rule)],
        Instruction::BeginMarkedContent => seq![Action::BeginMarkedContent],
        Instruction::BeginMarkedContentWithProperties => seq![
            Action::BeginMarkedContentWithProperties,
        ],
        Instruction::EndMarkedContent => if has_open_sequence(scope, frames) {
            sequence_closed(frames.last())
        } else {
            warning_once(
                scope.warned_unmatched_marked_content_end,
                InterpreterWarning::UnmatchedMarkedContentEnd,
            )
        },
        Instruction::BeginText => seq![Action::ResetTextMatrices, Action::BeginTextObject],
        Instruction::EndText => if scope.text_object_active {
            text_object_closed(facts.has_text_outline)
        } else {
            warning_once(
                scope.warned_unmatched_text_object_end,
                InterpreterWarning::UnmatchedTextObjectEnd,
            )
        },
        Instruction::SetTextMatrix => seq![Action::SetTextMatrix],
        Instruction::TextFont => seq![
            Action::SelectFont(
                if facts.font_is_cached {
                    FontChoice::ResolveCached
                } else if facts.font_in_resources {
                    FontChoice::KeepAndResolve
                } else {
                    FontChoice::Fallback
                },
            ),
        ],
        Instruction::ShowText => if facts.has_font {
            seq![Action::ShowTextString]
        } else {
            seq![Action::UseFallbackFont, Action::ShowTextString]
        },
        Instruction::ShowTexts => if facts.has_font {
            seq![Action::ShowGlyphRun]
        } else {
            seq![Action::UseFallbackFont, Action::ShowGlyphRun]
        },
        Instruction::NextLine => seq![Action::NextLine],
        Instruction::NextLineUsingLeading => seq![Action::NextLineByLeading],
        Instruction::NextLineAndShowText => seq![
            Action::NextLineByLeading,
            Action::ShowTextString,
        ],
        Instruction::NextLineAndSetLeading => seq![
            Action::SetLeadingFromOffset,
            Action::NextLine,
        ],
        Instruction::ShowTextWithParameters => seq![
            Action::SetParameter(Parameter::WordSpacing),
            Action::SetParameter(Parameter::CharacterSpacing),
            Action::NextLineByLeading,
            Action::ShowTextString,
        ],
        Instruction::TextRenderingMode(code) => seq![Action::SetRenderMode(rendering_mode(code))],
        Instruction::XObject => seq![Action::DrawXObject],
        Instruction::InlineImage => seq![Action::DrawInlineImage],
        Instruction::Shading => if visible {
            seq![Action::PaintShading]
        } else {
            Seq::empty()
        },
        Instruction::Fallback(is_intent) => if is_intent {
            seq![
                Action::Warn(
                    InterpreterWarning::ColorConversion(ColorConversionError::InvalidIntent),
                ),
            ]
        } else {
            Seq::empty()
        },
        Instruction::FlatnessTolerance
        | Instruction::MarkedContentPoint
        | Instruction::MarkedContentPointWithProperties
        | Instruction::ShapeGlyph
        | Instruction::ColorGlyph
        | Instruction::BeginCompatibility
        | Instruction::EndCompatibility => Seq::empty(),
    }
}

/// The scope after an instruction.
pub open spec fn after_own(scope: Scope, frames: Seq<VisibilityFrame>, op: Instruction) -> Scope {
    match op {
        Instruction::BeginText => Scope { text_object_active: true, ..scope },
        Instruction::EndText => if scope.text_object_active {
            Scope { text_object_active: false, ..scope }
        } else {
            Scope { warned_unmatched_text_object_end: true, ..scope }
        },
        Instruction::EndMarkedContent => if has_open_sequence(scope, frames) {
            scope
        } else {
            Scope { warned_unmatched_marked_content_end: true, ..scope }
        },
        _ => scope,
    }
}

/// What an instruction asks of the host.
pub open spec fn instruction_actions(
    scope: Scope,
    frames: Seq<VisibilityFrame>,
    visible: bool,
    op: Instruction,
    facts: Facts,
) -> Seq<Action> {
    boundary_actions(scope, op, facts) + own_actions(
        after_boundary(scope, op),
        frames,
        visible,
        op,
        facts,
    )
}

/// The scope after an instruction, and after a text object was left for it.
pub open spec fn after_instruction(
    scope: Scope,
    frames: Seq<VisibilityFrame>,
    op: Instruction,
) -> Scope {
    after_own(after_boundary(scope, op), frames, op)
}

/// The open sequences after an instruction.
///
/// A sequence with properties is opened by the call that reads its properties.
pub open spec fn frames_after(
    scope: Scope,
    frames: Seq<VisibilityFrame>,
    op: Instruction,
) -> Seq<VisibilityFrame> {
    match op {
        Instruction::BeginMarkedContent => frames.push(
            VisibilityFrame {
                visible: frames.len() == 0 || frames.last().visible,
                emit_optional_callback: false,
            },
        ),
        Instruction::EndMarkedContent => if has_open_sequence(scope, frames) {
            frames.drop_last()
        } else {
            frames
        },
        _ => frames,
    }
}

/// What closing all sequences of the scope down to a depth asks of the host.
pub open spec fn sequences_closed(frames: Seq<VisibilityFrame>, depth: int) -> Seq<Action>
    decreases frames.len(),
{
    if frames.len() <= depth || frames.len() == 0 {
        Seq::empty()
    } else {
        sequence_closed(frames.last()) + sequences_closed(frames.drop_last(), depth)
    }
}

/// Actions that restore graphics states.
pub open spec fn restored(count: int) -> Seq<Action> {
    Seq::new(
        if count > 0 {
            count as nat
        } else {
            0
        },
        |i: int| Action::RestoreState,
    )
}

/// What the end of the content asks of the host.
pub open spec fn final_actions(
    scope: Scope,
    frames: Seq<VisibilityFrame>,
    facts: Facts,
    num_states: usize,
) -> Seq<Action> {
    (if scope.text_object_active {
        warning_once(
            facts.cancelled || scope.warned_unterminated_text_object,
            InterpreterWarning::UnterminatedTextObject,
        ) + text_object_closed(facts.has_text_outline)
    } else {
        Seq::empty()
    }) + (if has_open_sequence(scope, frames) {
        warning_once(
            facts.cancelled || scope.warned_unterminated_marked_content,
            InterpreterWarning::UnterminatedMarkedContent,
        ) + sequences_closed(frames, scope.initial_marked_content_depth as int)
    } else {
        Seq::empty()
    }) + restored(num_states - scope.num_states)
}

fn close_text_object(actions: &mut Vec<Action>, has_outline: bool)
    ensures
        final(actions)@ == old(actions)@ + text_object_closed(has_outline),
{
    actions.push(Action::EndTextObject);
    if has_outline {
        actions.push(Action::PushTextClip);
    }
    actions.push(Action::ClearTextClip);
    assert(actions@ =~= old(actions)@ + text_object_closed(has_outline));
}

fn warn_once(actions: &mut Vec<Action>, given: bool, warning: InterpreterWarning)
    ensures
        final(actions)@ == old(actions)@ + warning_once(given, warning),
{
    if !given {
        actions.push(Action::Warn(warning));
    }
    assert(actions@ =~= old(actions)@ + warning_once(given, warning));
}

fn close_sequence(actions: &mut Vec<Action>, frames: &mut OcgState)
    requires
        old(frames).visibility_stack@.len() > 0,
    ensures
        final(frames).same_groups(old(frames)),
        final(frames).visibility_stack@ == old(frames).visibility_stack@.drop_last(),
        final(actions)@ == old(actions)@ + sequence_closed(old(frames).visibility_stack@.last()),
{
    if frames.end_marked_content() {
        actions.push(Action::EndOptionalContent);
    }
    actions.push(Action::EndMarkedContent);
    assert(actions@ =~= old(actions)@ + sequence_closed(old(frames).visibility_stack@.last()));
}

impl Scope {
    /// A content scope, with the number of graphics states around it.
    ///
    /// The host saves its graphics state.
    pub fn new(num_states: usize, ocg_state: &OcgState) -> (scope: Self)
        ensures
            scope == (Scope {
                num_states,
                initial_marked_content_depth: ocg_state.visibility_stack@.len() as usize,
                text_object_active: false,
                warned_unmatched_marked_content_end: false,
                warned_unterminated_marked_content: false,
                warned_unmatched_text_object_end: false,
                warned_unterminated_text_object: false,
                warned_nested_text_object: false,
            }),
            scope.initial_marked_content_depth == ocg_state.visibility_stack@.len(),
    {
        Scope {
            num_states,
            initial_marked_content_depth: ocg_state.marked_content_depth(),
            text_object_active: false,
            warned_unmatched_marked_content_end: false,
            warned_unterminated_marked_content: false,
            warned_unmatched_text_object_end: false,
            warned_unterminated_text_object: false,
            warned_nested_text_object: false,
        }
    }

    /// Leave a text object before an instruction that does not stand in one.
    fn leave_text_object(&mut self, op: Instruction, facts: Facts) -> (actions: Vec<Action>)
        ensures
            actions@ == boundary_actions(*old(self), op, facts),
            *final(self) == after_boundary(*old(self), op),
    {
        let mut actions: Vec<Action> = Vec::new();
        if self.text_object_active && op == Instruction::BeginText {
            warn_once(
                &mut actions,
                self.warned_nested_text_object,
                InterpreterWarning::NestedTextObject,
            );
            self.warned_nested_text_object = true;
            close_text_object(&mut actions, facts.has_text_outline);
            self.text_object_active = false;
        } else if self.text_object_active && starts_graphics_object(op) {
            warn_once(
                &mut actions,
                self.warned_unterminated_text_object,
                InterpreterWarning::UnterminatedTextObject,
            );
            self.warned_unterminated_text_object = true;
            close_text_object(&mut actions, facts.has_text_outline);
            self.text_object_active = false;
        }
        assert(actions@ =~= boundary_actions(*old(self), op, facts));
        actions
    }

    /// What an instruction asks of the host; nothing more, if the host has asked to stop.
    pub fn interpret(&mut self, ocg_state: &mut OcgState, op: Instruction, facts: Facts) -> (
    actions: Option<Vec<Action>>)
        ensures
            final(ocg_state).same_groups(old(ocg_state)),
            if facts.cancelled {
                &&& actions is None
                &&& *final(self) == *old(self)
                &&& final(ocg_state).visibility_stack@ == old(ocg_state).visibility_stack@
            } else {
                &&& actions matches Some(actions)
                &&& actions@ == instruction_actions(
                    *old(self),
                    old(ocg_state).visibility_stack@,
                    old(ocg_state).preserve_optional_content || old(ocg_state).effective(),
                    op,
                    facts,
                )
                &&& *final(self) == after_instruction(
                    *old(self),
                    old(ocg_state).visibility_stack@,
                    op,
                )
                &&& final(ocg_state).visibility_stack@ == frames_after(
                    *old(self),
                    old(ocg_state).visibility_stack@,
                    op,
                )
            },
    {
        if facts.cancelled {
            return None;
        }
        let mut actions = self.leave_text_object(op, facts);
        let ghost boundary = actions@;
        let ghost inside = *self;
        self.obey(&mut actions, ocg_state, op, facts);
        Some(actions)
    }

    /// What an instruction asks of the host, after text objects were left.
    #[verifier::rlimit(40)]
    fn obey(
        &mut self,
        actions: &mut Vec<Action>,
        ocg_state: &mut OcgState,
        op: Instruction,
        facts: Facts,
    )
        ensures
            final(ocg_state).same_groups(old(ocg_state)),
            final(actions)@ == old(actions)@ + own_actions(
                *old(self),
                old(ocg_state).visibility_stack@,
                old(ocg_state).preserve_optional_content || old(ocg_state).effective(),
                op,
                facts,
            ),
            *final(self) == after_own(*old(self), old(ocg_state).visibility_stack@, op),
            final(ocg_state).visibility_stack@ == frames_after(
                *old(self),
                old(ocg_state).visibility_stack@,
                op,
            ),
    {
        match op {
            Instruction::SaveState => actions.push(Action::SaveState),
            Instruction::RestoreState => actions.push(Action::RestoreState),
            Instruction::Transform => actions.push(Action::ConcatTransform),
            Instruction::DeviceColor(target, space) => actions.push(
                Action::SetDeviceColor(target, space),
            ),
            Instruction::Color(target) => actions.push(Action::SetColor(target)),
            Instruction::NamedColor(target) => actions.push(Action::SetNamedColor(target)),
            Instruction::ColorSpace(target, is_pattern) => {
                if !is_pattern {
                    actions.push(Action::ClearPattern(target));
                }
                actions.push(Action::SelectColorSpace(target));
            },
            Instruction::Parameter(parameter) => actions.push(Action::SetParameter(parameter)),
            Instruction::RenderingIntent(unknown) => {
                actions.push(Action::SetParameter(Parameter::RenderingIntent));
                if unknown {
                    actions.push(Action::Warn(InterpreterWarning::RenderingIntentUnknown));
                }
            },
            Instruction::SetGraphicsState => actions.push(Action::ApplyGraphicsState),
            Instruction::Clip(rule) => actions.push(Action::SetClip(rule)),
            Instruction::BeginMarkedContent => {
                ocg_state.begin_marked_content();
                actions.push(Action::BeginMarkedContent);
            },
            Instruction::BeginMarkedContentWithProperties => actions.push(
                Action::BeginMarkedContentWithProperties,
            ),
            Instruction::EndMarkedContent => {
                if ocg_state.marked_content_depth() > self.initial_marked_content_depth {
                    close_sequence(actions, ocg_state);
                } else {
                    warn_once(
                        actions,
                        self.warned_unmatched_marked_content_end,
                        InterpreterWarning::UnmatchedMarkedContentEnd,
                    );
                    self.warned_unmatched_marked_content_end = true;
                }
            },
            Instruction::BeginText => {
                actions.push(Action::ResetTextMatrices);
                actions.push(Action::BeginTextObject);
                self.text_object_active = true;
            },
            Instruction::EndText => {
                if self.text_object_active {
                    close_text_object(actions, facts.has_text_outline);
                    self.text_object_active = false;
                } else {
                    warn_once(
                        actions,
                        self.warned_unmatched_text_object_end,
                        InterpreterWarning::UnmatchedTextObjectEnd,
                    );
                    self.warned_unmatched_text_object_end = true;
                }
            },
            Instruction::XObject => actions.push(Action::DrawXObject),
            Instruction::InlineImage => actions.push(Action::DrawInlineImage),
            Instruction::Shading => {
                if ocg_state.is_visible() {
                    actions.push(Action::PaintShading);
                }
            },
            Instruction::Fallback(is_intent) => {
                if is_intent {
                    actions.push(
                        Action::Warn(
                            InterpreterWarning::ColorConversion(
                                ColorConversionError::InvalidIntent,
                            ),
                        ),
                    );
                }
            },
            Instruction::FlatnessTolerance
            | Instruction::MarkedContentPoint
            | Instruction::MarkedContentPointWithProperties
            | Instruction::ShapeGlyph
            | Instruction::ColorGlyph
            | Instruction::BeginCompatibility
            | Instruction::EndCompatibility => {},
            _ => {
                if !build_path(actions, op, facts) {
                    show_text(actions, op, facts);
                }
            },
        }
        assert(actions@ =~= old(actions)@ + own_actions(
            *old(self),
            old(ocg_state).visibility_stack@,
            old(ocg_state).preserve_optional_content || old(ocg_state).effective(),
            op,
            facts,
        ));
    }

    /// What the end of the content asks of the host, which now has so many graphics states.
    ///
    /// Text objects and marked-content sequences that are still open are closed.
    pub fn finish(self, ocg_state: &mut OcgState, facts: Facts, num_states: usize) -> (actions: Vec<
        Action,
    >)
        ensures
            final(ocg_state).same_groups(old(ocg_state)),
            final(ocg_state).visibility_stack@ == (if has_open_sequence(
                self,
                old(ocg_state).visibility_stack@,
            ) {
                old(ocg_state).visibility_stack@.take(self.initial_marked_content_depth as int)
            } else {
                old(ocg_state).visibility_stack@
            }),
            actions@ == final_actions(
                self,
                old(ocg_state).visibility_stack@,
                facts,
                num_states,
            ),
    {
        let mut actions: Vec<Action> = Vec::new();
        let ghost frames = ocg_state.visibility_stack@;
        if self.text_object_active {
            warn_once(
                &mut actions,
                facts.cancelled || self.warned_unterminated_text_object,
                InterpreterWarning::UnterminatedTextObject,
            );
            close_text_object(&mut actions, facts.has_text_outline);
        }
        let ghost text = actions@;
        let depth: usize = self.initial_marked_content_depth;
        if ocg_state.marked_content_depth() > depth {
            warn_once(
                &mut actions,
                facts.cancelled || self.warned_unterminated_marked_content,
                InterpreterWarning::UnterminatedMarkedContent,
            );
            let ghost warned = actions@;
            assert(warned =~= warned + Seq::<Action>::empty());
            assert(frames.take(frames.len() as int) =~= frames);
            let ghost mut closed = Seq::<Action>::empty();
            while ocg_state.marked_content_depth() > depth
                invariant
                    ocg_state.same_groups(old(ocg_state)),
                    depth <= ocg_state.visibility_stack@.len() <= frames.len(),
                    ocg_state.visibility_stack@ == frames.take(
                        ocg_state.visibility_stack@.len() as int,
                    ),
                    actions@ == warned + closed,
                    sequences_closed(frames, depth as int) == closed + sequences_closed(
                        ocg_state.visibility_stack@,
                        depth as int,
                    ),
                decreases ocg_state.visibility_stack@.len(),
            {
                let ghost before = ocg_state.visibility_stack@;
                close_sequence(&mut actions, ocg_state);
                proof {
                    let more = sequence_closed(before.last());
                    assert(actions@ =~= warned + (closed + more));
                    assert(closed + (more + sequences_closed(before.drop_last(), depth as int))
                        =~= (closed + more) + sequences_closed(before.drop_last(), depth as int));
                    closed = closed + more;
                    assert(before.drop_last() =~= frames.take(before.len() - 1));
                }
            }
            assert(sequences_closed(ocg_state.visibility_stack@, depth as int) =~= Seq::<
                Action,
            >::empty());
            assert(closed =~= sequences_closed(frames, depth as int));
        }
        let ghost marked = actions@;
        let mut states: usize = num_states;
        assert(marked =~= marked + restored(0));
        while states > self.num_states
            invariant
                states <= num_states,
                states >= self.num_states || states == num_states,
                actions@ == marked + restored(num_states - states),
            decreases states,
        {
            actions.push(Action::RestoreState);
            states = states - 1;
            assert(actions@ =~= marked + restored(num_states - states));
        }
        assert(restored(num_states - states) =~= restored(num_states - self.num_states));
        assert(actions@ =~= final_actions(self, frames, facts, num_states));
        actions
    }
}

/// What an instruction on paths asks of the host; whether it is one.
fn build_path(actions: &mut Vec<Action>, op: Instruction, facts: Facts) -> (known: bool)
    ensures
        forall|scope: Scope, frames: Seq<VisibilityFrame>, visible: bool|
            known ==> final(actions)@ == old(actions)@ + #[trigger] own_actions(
                scope,
                frames,
                visible,
                op,
                facts,
            ),
        !known ==> final(actions)@ == old(actions)@,
        known == is_path_instruction(op),
{
    match op {
        Instruction::RectPath(corner, size) => actions.push(Action::AppendRect(corner, size)),
        Instruction::MoveTo(p) => {
            actions.push(Action::SetLastPoint(p));
            actions.push(Action::SetSubPathStart(p));
            actions.push(Action::MoveTo(p));
        },
        Instruction::LineTo(p) => {
            if !facts.path_is_empty {
                actions.push(Action::SetLastPoint(p));
                if coincide(facts.last_point, p) {
                    actions.push(Action::LineToBeside(p));
                } else {
                    actions.push(Action::LineTo(p));
                }
            }
        },
        Instruction::CubicTo(p1, p2, p3) => {
            if !facts.path_is_empty {
                actions.push(Action::SetLastPoint(p3));
                actions.push(Action::CurveTo(p1, p2, p3));
            }
        },
        Instruction::CubicStartTo(p2, p3) => {
            if !facts.path_is_empty {
                actions.push(Action::SetLastPoint(p3));
                actions.push(Action::CurveTo(facts.last_point, p2, p3));
            }
        },
        Instruction::CubicEndTo(p2, p3) => {
            if !facts.path_is_empty {
                actions.push(Action::SetLastPoint(p3));
                actions.push(Action::CurveTo(p2, p3, p3));
            }
        },
        Instruction::ClosePath => actions.push(Action::ClosePath),
        Instruction::FillPath(rule) => actions.push(Action::FillPath(rule)),
        Instruction::FillPathNonZeroCompatibility => actions.push(
            Action::FillPath(FillRule::NonZero),
        ),
        Instruction::StrokePath => actions.push(Action::StrokePath),
        Instruction::CloseAndStrokePath => {
            actions.push(Action::ClosePath);
            actions.push(Action::StrokePath);
        },
        Instruction::FillAndStroke(rule) => actions.push(Action::FillStrokePath(rule)),
        Instruction::CloseFillAndStroke(rule) => {
            actions.push(Action::ClosePath);
            actions.push(Action::FillStrokePath(rule));
        },
        Instruction::EndPath => {
            match facts.clip {
                Some(rule) => {
                    if !facts.path_is_empty {
                        actions.push(Action::PushClipPath(rule));
                        actions.push(Action::ClearClip);
                    }
                },
                None => {},
            }
            actions.push(Action::TruncatePath);
        },
        _ => {
            return false;
        },
    }
    assert forall|scope: Scope, frames: Seq<VisibilityFrame>, visible: bool| actions@
        == old(actions)@ + #[trigger] own_actions(scope, frames, visible, op, facts) by {
        assert(actions@ =~= old(actions)@ + own_actions(scope, frames, visible, op, facts));
    }
    true
}

/// An instruction builds or paints a path.
pub open spec fn is_path_instruction(op: Instruction) -> bool {
    match op {
        Instruction::RectPath(_, _)
        | Instruction::MoveTo(_)
        | Instruction::LineTo(_)
        | Instruction::CubicTo(_, _, _)
        | Instruction::CubicStartTo(_, _)
        | Instruction::CubicEndTo(_, _)
        | Instruction::ClosePath
        | Instruction::FillPath(_)
        | Instruction::FillPathNonZeroCompatibility
        | Instruction::StrokePath
        | Instruction::CloseAndStrokePath
        | Instruction::FillAndStroke(_)
        | Instruction::CloseFillAndStroke(_)
        | Instruction::EndPath => true,
        _ => false,
    }
}

/// An instruction sets up or shows text within a text object.
pub open spec fn is_text_instruction(op: Instruction) -> bool {
    match op {
        Instruction::SetTextMatrix
        | Instruction::TextFont
        | Instruction::ShowText
        | Instruction::ShowTexts
        | Instruction::NextLine
        | Instruction::NextLineUsingLeading
        | Instruction::NextLineAndShowText
        | Instruction::NextLineAndSetLeading
        | Instruction::ShowTextWithParameters
        | Instruction::TextRenderingMode(_) => true,
        _ => false,
    }
}

/// What an instruction on text asks of the host.
fn show_text(actions: &mut Vec<Action>, op: Instruction, facts: Facts)
    requires
        is_text_instruction(op),
    ensures
        forall|scope: Scope, frames: Seq<VisibilityFrame>, visible: bool|
            final(actions)@ == old(actions)@ + #[trigger] own_actions(
                scope,
                frames,
                visible,
                op,
                facts,
            ),
{
    match op {
        Instruction::SetTextMatrix => actions.push(Action::SetTextMatrix),
        Instruction::TextFont => actions.push(
            Action::SelectFont(select_font(facts.font_is_cached, facts.font_in_resources)),
        ),
        Instruction::ShowText => {
            if !facts.has_font {
                actions.push(Action::UseFallbackFont);
            }
            actions.push(Action::ShowTextString);
        },
        Instruction::ShowTexts => {
            if !facts.has_font {
                actions.push(Action::UseFallbackFont);
            }
            actions.push(Action::ShowGlyphRun);
        },
        Instruction::NextLine => actions.push(Action::NextLine),
        Instruction::NextLineUsingLeading => actions.push(Action::NextLineByLeading),
        Instruction::NextLineAndShowText => {
            actions.push(Action::NextLineByLeading);
            actions.push(Action::ShowTextString);
        },
        Instruction::NextLineAndSetLeading => {
            actions.push(Action::SetLeadingFromOffset);
            actions.push(Action::NextLine);
        },
        Instruction::ShowTextWithParameters => {
            actions.push(Action::SetParameter(Parameter::WordSpacing));
            actions.push(Action::SetParameter(Parameter::CharacterSpacing));
            actions.push(Action::NextLineByLeading);
            actions.push(Action::ShowTextString);
        },
        Instruction::TextRenderingMode(code) => actions.push(
            Action::SetRenderMode(TextRenderingMode::from_code(code)),
        ),
        _ => {},
    }
    assert forall|scope: Scope, frames: Seq<VisibilityFrame>, visible: bool| actions@
        == old(actions)@ + #[trigger] own_actions(scope, frames, visible, op, facts) by {
        assert(actions@ =~= old(actions)@ + own_actions(scope, frames, visible, op, facts));
    }
}

} // verus!
