//! Drawing images and forms.

use crate::image::dictionary::ImageKind;
use crate::interpret::warning::{ColorConversionError, InterpreterWarning};
use crate::ocg::state::OcgState;
use vstd::prelude::*;

verus! {

/// What the intent of an image leads to.
#[derive(Clone, Copy, Debug, PartialEq, Eq, Structural)]
pub enum IntentOutcome {
    /// Take the intent of the image.
    Own,
    /// Take the default in place of an unknown intent.
    Unknown,
    /// Take the intent of the graphics state.
    Inherited,
    /// The image is not drawn.
    Failed(ColorConversionError),
}

/// Where the intent of an image comes from.
///
/// `declared` is what the entry of the dictionary resolves to, if there is one: whether its name
/// is not known, or why it is no intent.
pub open spec fn image_intent(
    kind: ImageKind,
    declared: Option<Result<bool, ColorConversionError>>,
) -> IntentOutcome {
    match declared {
        Some(Ok(unknown)) if kind == ImageKind::Image => if unknown {
            IntentOutcome::Unknown
        } else {
            IntentOutcome::Own
        },
        Some(Err(error)) if kind == ImageKind::Image => IntentOutcome::Failed(error),
        _ => IntentOutcome::Inherited,
    }
}

/// Where the intent of an image comes from.
pub fn select_intent(
    kind: ImageKind,
    declared: Option<Result<bool, ColorConversionError>>,
) -> (outcome: IntentOutcome)
    ensures
        outcome == image_intent(kind, declared),
{
    if kind != ImageKind::Image {
        return IntentOutcome::Inherited;
    }
    match declared {
        Some(Ok(unknown)) => if unknown {
            IntentOutcome::Unknown
        } else {
            IntentOutcome::Own
        },
        Some(Err(error)) => IntentOutcome::Failed(error),
        None => IntentOutcome::Inherited,
    }
}

/// The warning about the intent of an image.
pub fn intent_warning(outcome: IntentOutcome) -> (warning: Option<InterpreterWarning>)
    ensures
        warning == match outcome {
            IntentOutcome::Unknown => Some(InterpreterWarning::RenderingIntentUnknown),
            IntentOutcome::Failed(error) => Some(InterpreterWarning::ColorConversion(error)),
            _ => None,
        },
{
    match outcome {
        IntentOutcome::Unknown => Some(InterpreterWarning::RenderingIntentUnknown),
        IntentOutcome::Failed(error) => Some(InterpreterWarning::ColorConversion(error)),
        _ => None,
    }
}

/// A host converts the color space of an image to an intent in a given way.
pub open spec fn converts_to<C: Fn(IntentOutcome) -> Option<ColorConversionError>>(
    convert: C,
    failed: spec_fn(IntentOutcome) -> Option<ColorConversionError>,
) -> bool {
    forall|outcome: IntentOutcome, error: Option<ColorConversionError>| #[trigger]
        call_ensures(convert, (outcome,), error) ==> error == failed(outcome)
}

/// How the drawing of an image starts: the warnings, and the intent unless it is not drawn.
#[derive(Debug)]
pub struct ImageStart {
    pub warnings: Vec<InterpreterWarning>,
    pub intent: Option<IntentOutcome>,
}

/// The warning about the intent of an image, if there is one.
pub open spec fn warned(outcome: IntentOutcome) -> Seq<InterpreterWarning> {
    match outcome {
        IntentOutcome::Unknown => seq![InterpreterWarning::RenderingIntentUnknown],
        IntentOutcome::Failed(error) => seq![InterpreterWarning::ColorConversion(error)],
        _ => Seq::empty(),
    }
}

/// How the drawing of an image starts. What is not visible is not looked at.
pub open spec fn image_start(
    visible: bool,
    kind: ImageKind,
    declared: Option<Result<bool, ColorConversionError>>,
    failed: spec_fn(IntentOutcome) -> Option<ColorConversionError>,
) -> (Seq<InterpreterWarning>, Option<IntentOutcome>) {
    let outcome = image_intent(kind, declared);
    if !visible {
        (Seq::empty(), None)
    } else if outcome is Failed {
        (warned(outcome), None)
    } else if kind == ImageKind::Image {
        match failed(outcome) {
            Some(error) => (
                warned(outcome) + seq![InterpreterWarning::ColorConversion(error)],
                None,
            ),
            None => (warned(outcome), Some(outcome)),
        }
    } else {
        (warned(outcome), Some(outcome))
    }
}

/// Start to draw an image, before its optional content is opened.
///
/// `convert` converts the color space of the image, if it has one, to its intent.
pub fn start_image<C: Fn(IntentOutcome) -> Option<ColorConversionError>>(
    ocg_state: &OcgState,
    kind: ImageKind,
    declared: Option<Result<bool, ColorConversionError>>,
    convert: &C,
) -> (start: ImageStart)
    requires
        forall|outcome: IntentOutcome| call_requires(*convert, (outcome,)),
    ensures
        forall|failed: spec_fn(IntentOutcome) -> Option<ColorConversionError>| #[trigger]
            converts_to(*convert, failed) ==> (start.warnings@, start.intent) == image_start(
                ocg_state.preserve_optional_content || ocg_state.effective(),
                kind,
                declared,
                failed,
            ),
{
    let mut warnings: Vec<InterpreterWarning> = Vec::new();
    if !ocg_state.is_visible() {
        return ImageStart { warnings, intent: None };
    }
    let outcome = select_intent(kind, declared);
    match intent_warning(outcome) {
        Some(warning) => {
            warnings.push(warning);
        },
        None => {},
    }
    assert(warnings@ =~= warned(outcome));
    match outcome {
        IntentOutcome::Failed(_) => {
            return ImageStart { warnings, intent: None };
        },
        _ => {},
    }
    if kind == ImageKind::Image {
        match convert(outcome) {
            Some(error) => {
                warnings.push(InterpreterWarning::ColorConversion(error));
                assert(warnings@ =~= warned(outcome) + seq![
                    InterpreterWarning::ColorConversion(error),
                ]);
                return ImageStart { warnings, intent: None };
            },
            None => {},
        }
    }
    ImageStart { warnings, intent: Some(outcome) }
}

/// What the host does to draw an image or a form.
#[derive(Clone, Copy, Debug, PartialEq, Eq, Structural)]
pub enum DrawAction {
    SaveState,
    /// Map the unit square to the pixels.
    ConcatPixels,
    /// Begin a transparency group with the alpha, the blend mode and the soft mask of the state.
    PushGroup,
    /// Begin a transparency group without the soft mask of the state.
    PushGroupWithoutMask,
    /// Draw a stencil with the current paint.
    DrawStencil,
    /// Draw an image.
    DrawRaster,
    PopGroup,
    RestoreState,
    /// Forget the path.
    TruncatePath,
    DrawForm,
    EndOptionalContent,
    EndNesting,
}

/// The end of optional content, if it is reported to the device.
pub open spec fn optional_end(reported: bool) -> Seq<DrawAction> {
    if reported {
        seq![DrawAction::EndOptionalContent]
    } else {
        Seq::empty()
    }
}

/// What the host does to draw an image, after its optional content was opened.
pub open spec fn image_actions(
    kind: ImageKind,
    has_mask: bool,
    visible: bool,
    reported: bool,
) -> Seq<DrawAction> {
    (if visible {
        seq![
            DrawAction::SaveState,
            DrawAction::ConcatPixels,
            if has_mask {
                DrawAction::PushGroupWithoutMask
            } else {
                DrawAction::PushGroup
            },
            if kind == ImageKind::Image {
                DrawAction::DrawRaster
            } else {
                DrawAction::DrawStencil
            },
            DrawAction::PopGroup,
            DrawAction::RestoreState,
        ]
    } else {
        Seq::empty()
    }) + optional_end(reported)
}

/// What the host does to draw a form, after its optional content was opened.
pub open spec fn form_draw_actions(visible: bool, reported: bool) -> Seq<DrawAction> {
    (if visible {
        seq![DrawAction::TruncatePath, DrawAction::DrawForm]
    } else {
        Seq::empty()
    }) + optional_end(reported) + seq![DrawAction::EndNesting]
}

/// The innermost sequence is reported to the device when it ends.
pub open spec fn reports_end(state: OcgState, has_optional_content: bool) -> bool {
    has_optional_content && state.visibility_stack@.len() > 0
        && state.visibility_stack@.last().emit_optional_callback
}

/// The open sequences without the optional content of an object.
pub open spec fn is_closed(before: OcgState, after: OcgState, has_optional_content: bool) -> bool {
    &&& after.same_groups(&before)
    &&& after.visibility_stack@ == if has_optional_content && before.visibility_stack@.len() > 0 {
        before.visibility_stack@.drop_last()
    } else {
        before.visibility_stack@
    }
}

/// What the host does to draw an image, after its optional content was opened.
///
/// A mask of the image replaces the soft mask of the graphics state.
pub fn draw_image(
    ocg_state: &mut OcgState,
    kind: ImageKind,
    has_mask: bool,
    has_optional_content: bool,
) -> (actions: Vec<DrawAction>)
    ensures
        is_closed(*old(ocg_state), *final(ocg_state), has_optional_content),
        actions@ == image_actions(
            kind,
            has_mask,
            old(ocg_state).preserve_optional_content || old(ocg_state).effective(),
            reports_end(*old(ocg_state), has_optional_content),
        ),
{
    let mut actions: Vec<DrawAction> = Vec::new();
    let visible = ocg_state.is_visible();
    if visible {
        actions.push(DrawAction::SaveState);
        actions.push(DrawAction::ConcatPixels);
        if has_mask {
            actions.push(DrawAction::PushGroupWithoutMask);
        } else {
            actions.push(DrawAction::PushGroup);
        }
        if kind.is_mask() {
            actions.push(DrawAction::DrawStencil);
        } else {
            actions.push(DrawAction::DrawRaster);
        }
        actions.push(DrawAction::PopGroup);
        actions.push(DrawAction::RestoreState);
    }
    if has_optional_content && ocg_state.end_marked_content() {
        actions.push(DrawAction::EndOptionalContent);
    }
    assert(actions@ =~= image_actions(
        kind,
        has_mask,
        visible,
        reports_end(*old(ocg_state), has_optional_content),
    ));
    actions
}

/// What the host does to draw a form, after its optional content was opened.
pub fn draw_form(ocg_state: &mut OcgState, has_optional_content: bool) -> (actions: Vec<DrawAction>)
    ensures
        is_closed(*old(ocg_state), *final(ocg_state), has_optional_content),
        actions@ == form_draw_actions(
            old(ocg_state).preserve_optional_content || old(ocg_state).effective(),
            reports_end(*old(ocg_state), has_optional_content),
        ),
{
    let mut actions: Vec<DrawAction> = Vec::new();
    let visible = ocg_state.is_visible();
    if visible {
        actions.push(DrawAction::TruncatePath);
        actions.push(DrawAction::DrawForm);
    }
    if has_optional_content && ocg_state.end_marked_content() {
        actions.push(DrawAction::EndOptionalContent);
    }
    actions.push(DrawAction::EndNesting);
    assert(actions@ =~= form_draw_actions(
        visible,
        reports_end(*old(ocg_state), has_optional_content),
    ));
    actions
}

/// A group that an image begins is ended, and the state that it saves is restored.
pub proof fn lemma_image_balanced(kind: ImageKind, has_mask: bool, visible: bool, reported: bool)
    ensures
        ({
            let actions = image_actions(kind, has_mask, visible, reported);
            &&& visible ==> actions[0] == DrawAction::SaveState && actions[5]
                == DrawAction::RestoreState && actions[4] == DrawAction::PopGroup
            &&& !visible ==> forall|i: int|
                0 <= i < actions.len() ==> #[trigger] actions[i] == DrawAction::EndOptionalContent
        }),
{
}

/// An image that is not drawn has said why, unless it is not visible.
pub proof fn lemma_refused_image_warns(
    visible: bool,
    kind: ImageKind,
    declared: Option<Result<bool, ColorConversionError>>,
    failed: spec_fn(IntentOutcome) -> Option<ColorConversionError>,
)
    ensures
        ({
            let (warnings, intent) = image_start(visible, kind, declared, failed);
            &&& visible && intent is None ==> warnings.len() > 0
                && warnings.last() is ColorConversion
            &&& kind != ImageKind::Image ==> warnings.len() == 0 && intent is Some == visible
        }),
{
}

} // verus!
