//! What holds of the drawing of images and forms.

use crate::image::dictionary::ImageKind;
use crate::interpret::warning::{ColorConversionError, InterpreterWarning};
use crate::ocg::state::OcgState;
use crate::x_object::draw::{
    form_draw_actions, image_actions, image_intent, image_start, is_closed, reports_end,
    DrawAction, IntentOutcome,
};
use vstd::prelude::*;

verus! {

/// An action draws something.
pub open spec fn draws(action: DrawAction) -> bool {
    action is DrawStencil || action is DrawRaster || action is DrawForm
}

/// How deep graphics states are saved and groups are begun.
pub open spec fn depth_of(actions: Seq<DrawAction>) -> (int, int)
    decreases actions.len(),
{
    if actions.len() == 0 {
        (0, 0)
    } else {
        let (states, groups) = depth_of(actions.drop_last());
        match actions.last() {
            DrawAction::SaveState => (states + 1, groups),
            DrawAction::RestoreState => (states - 1, groups),
            DrawAction::PushGroup | DrawAction::PushGroupWithoutMask => (states, groups + 1),
            DrawAction::PopGroup => (states, groups - 1),
            _ => (states, groups),
        }
    }
}

/// A visible image is drawn by one action: with the current paint if and only if it is a mask. It
/// is drawn within a group and a saved state, and the pixels are mapped before.
pub proof fn lemma_image_drawn_once(kind: ImageKind, has_mask: bool, reported: bool)
    ensures
        ({
            let actions = image_actions(kind, has_mask, true, reported);
            exists|i: int|
                {
                    &&& 0 <= i < actions.len()
                    &&& (#[trigger] actions[i]) is DrawStencil || actions[i] is DrawRaster
                    &&& actions[i] is DrawRaster <==> kind is Image
                    &&& forall|j: int|
                        0 <= j < actions.len() && j != i ==> !draws(#[trigger] actions[j])
                    &&& depth_of(actions.take(i)) == (1int, 1int)
                    &&& exists|j: int| 0 <= j < i && (#[trigger] actions[j]) is ConcatPixels
                }
        }),
{
    let actions = image_actions(kind, has_mask, true, reported);
    reveal_with_fuel(depth_of, 4);
    let a = actions.take(3);
    assert(a.drop_last() =~= actions.take(2));
    assert(actions.take(2).drop_last() =~= actions.take(1));
    assert(actions.take(1).drop_last() =~= Seq::empty());
    assert(depth_of(a) == (1int, 1int));
    assert(actions[1] is ConcatPixels);
    assert(actions[3] is DrawStencil || actions[3] is DrawRaster);
}

/// What is not visible is not drawn, and asks for no group and no state.
pub proof fn lemma_invisible_not_drawn(kind: ImageKind, has_mask: bool, reported: bool)
    ensures
        forall|i: int|
            0 <= i < image_actions(kind, has_mask, false, reported).len() ==> (
            #[trigger] image_actions(kind, has_mask, false, reported)[i]) is EndOptionalContent,
        forall|i: int|
            0 <= i < form_draw_actions(false, reported).len() ==> !draws(
                #[trigger] form_draw_actions(false, reported)[i],
            ),
{
}

/// States and groups that the drawing of an image begins are ended by it.
pub proof fn lemma_image_leaves_state(
    kind: ImageKind,
    has_mask: bool,
    visible: bool,
    reported: bool,
)
    ensures
        depth_of(image_actions(kind, has_mask, visible, reported)) == (0int, 0int),
{
    let actions = image_actions(kind, has_mask, visible, reported);
    reveal_with_fuel(depth_of, 8);
    if visible {
        assert(actions.take(1).drop_last() =~= Seq::empty());
        assert(actions.take(2).drop_last() =~= actions.take(1));
        assert(actions.take(3).drop_last() =~= actions.take(2));
        assert(actions.take(4).drop_last() =~= actions.take(3));
        assert(actions.take(5).drop_last() =~= actions.take(4));
        assert(actions.take(6).drop_last() =~= actions.take(5));
        if reported {
            assert(actions.drop_last() =~= actions.take(6));
        } else {
            assert(actions =~= actions.take(6));
        }
    } else if reported {
        assert(actions.drop_last() =~= Seq::empty());
    }
}

/// The soft mask of the graphics state applies to an image if and only if the image has no mask
/// of its own.
pub proof fn lemma_own_mask_replaces(kind: ImageKind, has_mask: bool, reported: bool)
    ensures
        ({
            let actions = image_actions(kind, has_mask, true, reported);
            &&& actions.contains(DrawAction::PushGroup) <==> !has_mask
            &&& actions.contains(DrawAction::PushGroupWithoutMask) <==> has_mask
        }),
{
    let actions = image_actions(kind, has_mask, true, reported);
    assert(actions[2] is PushGroup || actions[2] is PushGroupWithoutMask);
    assert forall|i: int| 0 <= i < actions.len() && i != 2 implies !((
    #[trigger] actions[i]) is PushGroup || actions[i] is PushGroupWithoutMask) by {}
}

/// The end of optional content is the last thing that an image asks for, exactly if it is
/// reported.
pub proof fn lemma_optional_end_last(
    kind: ImageKind,
    has_mask: bool,
    visible: bool,
    reported: bool,
)
    ensures
        ({
            let actions = image_actions(kind, has_mask, visible, reported);
            &&& reported ==> actions.len() > 0 && actions.last() is EndOptionalContent
            &&& forall|i: int|
                0 <= i < actions.len() - (if reported {
                    1int
                } else {
                    0int
                }) ==> !((#[trigger] actions[i]) is EndOptionalContent)
        }),
        ({
            let actions = form_draw_actions(visible, reported);
            &&& actions.contains(DrawAction::EndOptionalContent) <==> reported
            &&& actions.contains(DrawAction::DrawForm) <==> visible
            &&& actions.contains(DrawAction::TruncatePath) <==> visible
            &&& actions.last() is EndNesting
            &&& forall|i: int, j: int|
                0 <= i < actions.len() && 0 <= j < actions.len() && (#[trigger] actions[i])
                    is DrawForm && (#[trigger] actions[j]) is TruncatePath ==> j < i
            &&& forall|i: int, j: int|
                0 <= i < actions.len() && 0 <= j < actions.len() && (#[trigger] actions[i])
                    is DrawForm && (#[trigger] actions[j]) is EndOptionalContent ==> i < j
        }),
{
    let actions = form_draw_actions(visible, reported);
    if visible {
        assert(actions[0] is TruncatePath);
        assert(actions[1] is DrawForm);
        if reported {
            assert(actions[2] is EndOptionalContent);
        }
    } else if reported {
        assert(actions[0] is EndOptionalContent);
    }
}

/// Optional content that was opened for an object is closed after it, and nothing else is. Its
/// end is reported if and only if its beginning was.
pub proof fn lemma_object_closed(before: OcgState, after: OcgState, has_optional_content: bool)
    requires
        is_closed(before, after, has_optional_content),
    ensures
        after.inactive_ocgs@ == before.inactive_ocgs@,
        after.preserve_optional_content == before.preserve_optional_content,
        !has_optional_content ==> after.visibility_stack@ == before.visibility_stack@
            && !reports_end(before, has_optional_content),
        has_optional_content && before.visibility_stack@.len() > 0 ==> {
            &&& before.visibility_stack@ == after.visibility_stack@.push(
                before.visibility_stack@.last(),
            )
            &&& reports_end(before, has_optional_content)
                == before.visibility_stack@.last().emit_optional_callback
        },
{
    if has_optional_content && before.visibility_stack@.len() > 0 {
        assert(before.visibility_stack@ =~= after.visibility_stack@.push(
            before.visibility_stack@.last(),
        ));
    }
}

/// Only an image that is no mask takes an intent of its own: a known one as it is, the default for
/// an unknown one, which is warned about, and none for a malformed one, with which it is not
/// drawn.
pub proof fn lemma_image_intent(
    kind: ImageKind,
    declared: Option<Result<bool, ColorConversionError>>,
    failed: spec_fn(IntentOutcome) -> Option<ColorConversionError>,
)
    ensures
        !(kind is Image) || declared is None ==> image_intent(kind, declared) is Inherited,
        kind is Image ==> {
            &&& declared == Some(Ok::<bool, ColorConversionError>(false)) ==> image_intent(
                kind,
                declared,
            ) is Own
            &&& declared == Some(Ok::<bool, ColorConversionError>(true)) ==> {
                &&& image_intent(kind, declared) is Unknown
                &&& image_start(true, kind, declared, failed).0.len() > 0
                &&& image_start(true, kind, declared, failed).0[0] is RenderingIntentUnknown
            }
            &&& declared matches Some(Err(error)) ==> {
                &&& image_start(true, kind, declared, failed).1 is None
                &&& image_start(true, kind, declared, failed).0 == seq![
                    InterpreterWarning::ColorConversion(error),
                ]
            }
        },
        image_start(false, kind, declared, failed).0.len() == 0,
        image_start(false, kind, declared, failed).1 is None,
        image_start(true, kind, declared, failed).1 matches Some(outcome) ==> outcome
            == image_intent(kind, declared) && (kind is Image ==> failed(outcome) is None),
{
}

} // verus!
