//! What holds of all content scopes.

use crate::interpret::instruction::{Action, Instruction};
use crate::interpret::scope::{
    after_boundary, after_instruction, boundary_actions, final_actions, frames_after,
    has_open_sequence, instruction_actions, own_actions, restored, sequence_closed,
    sequences_closed, text_object_closed, warning_once, Facts, Scope,
};
use crate::interpret::warning::InterpreterWarning;
use crate::ocg::state::VisibilityFrame;
use vstd::prelude::*;

verus! {

/// How often the host is asked for an action.
pub open spec fn times(actions: Seq<Action>, action: Action) -> nat
    decreases actions.len(),
{
    if actions.len() == 0 {
        0
    } else {
        times(actions.drop_last(), action) + if actions.last() == action {
            1nat
        } else {
            0nat
        }
    }
}

proof fn lemma_times_concat(a: Seq<Action>, b: Seq<Action>, action: Action)
    ensures
        times(a + b, action) == times(a, action) + times(b, action),
    decreases b.len(),
{
    if b.len() == 0 {
        assert(a + b =~= a);
    } else {
        lemma_times_concat(a, b.drop_last(), action);
        assert((a + b).drop_last() =~= a + b.drop_last());
    }
}

proof fn lemma_absent(actions: Seq<Action>, action: Action)
    requires
        forall|i: int| 0 <= i < actions.len() ==> #[trigger] actions[i] != action,
    ensures
        times(actions, action) == 0,
    decreases actions.len(),
{
    if actions.len() > 0 {
        assert(actions.last() == actions[actions.len() - 1]);
        let before = actions.drop_last();
        assert forall|i: int| 0 <= i < before.len() implies #[trigger] before[i] != action by {
            assert(before[i] == actions[i]);
        }
        lemma_absent(before, action);
    }
}

/// An action begins or ends a text object.
pub open spec fn bounds_text(action: Action) -> bool {
    action == Action::BeginTextObject || action == Action::EndTextObject
}

/// One for a scope in a text object.
pub open spec fn open_text_objects(scope: Scope) -> int {
    if scope.text_object_active {
        1
    } else {
        0
    }
}

proof fn lemma_text_object_closed(has_outline: bool)
    ensures
        times(text_object_closed(has_outline), Action::EndTextObject) == 1,
        times(text_object_closed(has_outline), Action::BeginTextObject) == 0,
{
    let actions = text_object_closed(has_outline);
    let rest = actions.skip(1);
    assert(actions =~= seq![Action::EndTextObject] + rest);
    assert forall|action: Action| bounds_text(action) implies #[trigger] times(rest, action)
        == 0 by {
        assert forall|i: int| 0 <= i < rest.len() implies #[trigger] rest[i] != action by {
            assert(rest[i] == actions[i + 1]);
        }
        lemma_absent(rest, action);
    }
    assert(bounds_text(Action::EndTextObject) && bounds_text(Action::BeginTextObject));
    lemma_times_concat(seq![Action::EndTextObject], rest, Action::EndTextObject);
    lemma_times_concat(seq![Action::EndTextObject], rest, Action::BeginTextObject);
    reveal_with_fuel(times, 2);
    assert(seq![Action::EndTextObject].drop_last() =~= Seq::empty());
}

proof fn lemma_own_text(
    scope: Scope,
    frames: Seq<VisibilityFrame>,
    visible: bool,
    op: Instruction,
    facts: Facts,
)
    requires
        op == Instruction::BeginText ==> !scope.text_object_active,
    ensures
        times(own_actions(scope, frames, visible, op, facts), Action::BeginTextObject) == (if op
            == Instruction::BeginText {
            1nat
        } else {
            0nat
        }),
        times(own_actions(scope, frames, visible, op, facts), Action::EndTextObject) == (if op
            == Instruction::EndText && scope.text_object_active {
            1nat
        } else {
            0nat
        }),
{
    let actions = own_actions(scope, frames, visible, op, facts);
    if op == Instruction::BeginText {
        assert(actions =~= seq![Action::ResetTextMatrices] + seq![Action::BeginTextObject]);
        lemma_times_concat(
            seq![Action::ResetTextMatrices],
            seq![Action::BeginTextObject],
            Action::BeginTextObject,
        );
        lemma_absent(seq![Action::ResetTextMatrices], Action::BeginTextObject);
        reveal_with_fuel(times, 2);
        assert(seq![Action::BeginTextObject].drop_last() =~= Seq::empty());
        lemma_absent(actions, Action::EndTextObject);
    } else if op == Instruction::EndText && scope.text_object_active {
        lemma_text_object_closed(facts.has_text_outline);
    } else {
        lemma_absent(actions, Action::BeginTextObject);
        lemma_absent(actions, Action::EndTextObject);
    }
}

/// Text objects begin and end in turn: an instruction begins as many as it ends, and one more if
/// a text object is open after it, and one less if one was open before it.
pub proof fn lemma_text_objects_alternate(
    scope: Scope,
    frames: Seq<VisibilityFrame>,
    visible: bool,
    op: Instruction,
    facts: Facts,
)
    ensures
        ({
            let actions = instruction_actions(scope, frames, visible, op, facts);
            times(actions, Action::BeginTextObject) - times(actions, Action::EndTextObject)
                == open_text_objects(after_instruction(scope, frames, op)) - open_text_objects(
                scope,
            )
        }),
{
    let boundary = boundary_actions(scope, op, facts);
    let own = own_actions(after_boundary(scope, op), frames, visible, op, facts);
    lemma_times_concat(boundary, own, Action::BeginTextObject);
    lemma_times_concat(boundary, own, Action::EndTextObject);
    lemma_own_text(after_boundary(scope, op), frames, visible, op, facts);
    lemma_boundary_text(scope, op, facts);
}

proof fn lemma_boundary_text(scope: Scope, op: Instruction, facts: Facts)
    ensures
        times(boundary_actions(scope, op, facts), Action::BeginTextObject) == 0,
        times(boundary_actions(scope, op, facts), Action::EndTextObject) == open_text_objects(scope)
            - open_text_objects(after_boundary(scope, op)),
{
    let closed = text_object_closed(facts.has_text_outline);
    lemma_text_object_closed(facts.has_text_outline);
    let nested = warning_once(
        scope.warned_nested_text_object,
        InterpreterWarning::NestedTextObject,
    );
    let unterminated = warning_once(
        scope.warned_unterminated_text_object,
        InterpreterWarning::UnterminatedTextObject,
    );
    lemma_absent(nested, Action::BeginTextObject);
    lemma_absent(nested, Action::EndTextObject);
    lemma_absent(unterminated, Action::BeginTextObject);
    lemma_absent(unterminated, Action::EndTextObject);
    lemma_times_concat(nested, closed, Action::BeginTextObject);
    lemma_times_concat(nested, closed, Action::EndTextObject);
    lemma_times_concat(unterminated, closed, Action::BeginTextObject);
    lemma_times_concat(unterminated, closed, Action::EndTextObject);
}

/// One for a sequence that an instruction opens, less one for a sequence that it closes.
pub open spec fn opened_sequences(
    scope: Scope,
    frames: Seq<VisibilityFrame>,
    op: Instruction,
) -> int {
    frames_after(scope, frames, op).len() - frames.len()
}

proof fn lemma_own_sequences(
    scope: Scope,
    frames: Seq<VisibilityFrame>,
    visible: bool,
    op: Instruction,
    facts: Facts,
)
    ensures
        times(own_actions(scope, frames, visible, op, facts), Action::BeginMarkedContent) == (if op
            == Instruction::BeginMarkedContent {
            1nat
        } else {
            0nat
        }),
        times(own_actions(scope, frames, visible, op, facts), Action::EndMarkedContent) == (if op
            == Instruction::EndMarkedContent && has_open_sequence(scope, frames) {
            1nat
        } else {
            0nat
        }),
{
    let own = own_actions(scope, frames, visible, op, facts);
    if op == Instruction::BeginMarkedContent {
        reveal_with_fuel(times, 2);
        assert(own =~= seq![Action::BeginMarkedContent]);
        assert(own.drop_last() =~= Seq::empty());
    } else if op == Instruction::EndMarkedContent && has_open_sequence(scope, frames) {
        lemma_sequence_closed(frames.last());
    } else {
        lemma_absent(own, Action::BeginMarkedContent);
        lemma_absent(own, Action::EndMarkedContent);
    }
}

proof fn lemma_boundary_sequences(scope: Scope, op: Instruction, facts: Facts)
    ensures
        times(boundary_actions(scope, op, facts), Action::BeginMarkedContent) == 0,
        times(boundary_actions(scope, op, facts), Action::EndMarkedContent) == 0,
{
    let boundary = boundary_actions(scope, op, facts);
    lemma_absent(boundary, Action::BeginMarkedContent);
    lemma_absent(boundary, Action::EndMarkedContent);
}

/// The host is asked to begin and end marked content as sequences are opened and closed. A
/// sequence with properties is opened by the call that reads its properties.
pub proof fn lemma_sequences_reported(
    scope: Scope,
    frames: Seq<VisibilityFrame>,
    visible: bool,
    op: Instruction,
    facts: Facts,
)
    ensures
        ({
            let actions = instruction_actions(scope, frames, visible, op, facts);
            times(actions, Action::BeginMarkedContent) - times(actions, Action::EndMarkedContent)
                == opened_sequences(scope, frames, op)
        }),
        frames.len() >= scope.initial_marked_content_depth ==> frames_after(scope, frames, op).len()
            >= scope.initial_marked_content_depth,
{
    let boundary = boundary_actions(scope, op, facts);
    let inside = after_boundary(scope, op);
    let own = own_actions(inside, frames, visible, op, facts);
    lemma_times_concat(boundary, own, Action::BeginMarkedContent);
    lemma_times_concat(boundary, own, Action::EndMarkedContent);
    lemma_boundary_sequences(scope, op, facts);
    lemma_own_sequences(inside, frames, visible, op, facts);
}

proof fn lemma_sequence_closed(frame: VisibilityFrame)
    ensures
        times(sequence_closed(frame), Action::EndMarkedContent) == 1,
        times(sequence_closed(frame), Action::BeginMarkedContent) == 0,
{
    let actions = sequence_closed(frame);
    reveal_with_fuel(times, 2);
    assert(actions.last() == Action::EndMarkedContent);
    lemma_absent(actions.drop_last(), Action::EndMarkedContent);
    lemma_absent(actions, Action::BeginMarkedContent);
}

proof fn lemma_sequences_closed(frames: Seq<VisibilityFrame>, depth: int)
    requires
        0 <= depth <= frames.len(),
    ensures
        times(sequences_closed(frames, depth), Action::EndMarkedContent) == frames.len() - depth,
        forall|i: int|
            0 <= i < sequences_closed(frames, depth).len() ==> {
                ||| #[trigger] sequences_closed(frames, depth)[i] == Action::EndMarkedContent
                ||| sequences_closed(frames, depth)[i] == Action::EndOptionalContent
            },
    decreases frames.len(),
{
    if frames.len() > depth {
        let first = sequence_closed(frames.last());
        let rest = sequences_closed(frames.drop_last(), depth);
        lemma_sequences_closed(frames.drop_last(), depth);
        lemma_sequence_closed(frames.last());
        lemma_times_concat(first, rest, Action::EndMarkedContent);
        let all = first + rest;
        assert forall|i: int| 0 <= i < all.len() implies {
            ||| #[trigger] all[i] == Action::EndMarkedContent
            ||| all[i] == Action::EndOptionalContent
        } by {
            if i >= first.len() {
                assert(all[i] == rest[i - first.len()]);
            }
        }
    }
}

/// The end of the content closes the text object and all sequences that the scope left open, and
/// restores the graphics states around it.
pub proof fn lemma_scope_closed(
    scope: Scope,
    frames: Seq<VisibilityFrame>,
    facts: Facts,
    num_states: usize,
)
    requires
        scope.initial_marked_content_depth <= frames.len(),
        scope.num_states <= num_states,
    ensures
        ({
            let actions = final_actions(scope, frames, facts, num_states);
            &&& times(actions, Action::EndTextObject) == open_text_objects(scope)
            &&& times(actions, Action::EndMarkedContent) == frames.len()
                - scope.initial_marked_content_depth
            &&& times(actions, Action::RestoreState) == num_states - scope.num_states
        }),
{
    let warned = warning_once(
        facts.cancelled || scope.warned_unterminated_text_object,
        InterpreterWarning::UnterminatedTextObject,
    );
    let closed = text_object_closed(facts.has_text_outline);
    let text = if scope.text_object_active {
        warned + closed
    } else {
        Seq::empty()
    };
    let warned_sequences = warning_once(
        facts.cancelled || scope.warned_unterminated_marked_content,
        InterpreterWarning::UnterminatedMarkedContent,
    );
    let sequences = sequences_closed(frames, scope.initial_marked_content_depth as int);
    let marked = if has_open_sequence(scope, frames) {
        warned_sequences + sequences
    } else {
        Seq::empty()
    };
    let states = restored(num_states - scope.num_states);
    lemma_text_object_closed(facts.has_text_outline);
    lemma_sequences_closed(frames, scope.initial_marked_content_depth as int);
    lemma_restored((num_states - scope.num_states) as nat);
    assert forall|action: Action| #[trigger] times(final_actions(scope, frames, facts, num_states), action)
        == times(text, action) + times(marked, action) + times(states, action) by {
        lemma_times_concat(text + marked, states, action);
        lemma_times_concat(text, marked, action);
    }
    assert forall|action: Action| #[trigger] times(warned + closed, action) == times(warned, action)
        + times(closed, action) by {
        lemma_times_concat(warned, closed, action);
    }
    assert forall|action: Action| #[trigger] times(warned_sequences + sequences, action) == times(
        warned_sequences,
        action,
    ) + times(sequences, action) by {
        lemma_times_concat(warned_sequences, sequences, action);
    }
    lemma_absent(warned, Action::EndTextObject);
    lemma_absent(warned, Action::EndMarkedContent);
    lemma_absent(warned, Action::RestoreState);
    lemma_absent(closed, Action::EndMarkedContent);
    lemma_absent(closed, Action::RestoreState);
    lemma_absent(warned_sequences, Action::EndTextObject);
    lemma_absent(warned_sequences, Action::EndMarkedContent);
    lemma_absent(warned_sequences, Action::RestoreState);
    lemma_absent(sequences, Action::EndTextObject);
    lemma_absent(sequences, Action::RestoreState);
    lemma_absent(states, Action::EndTextObject);
    lemma_absent(states, Action::EndMarkedContent);
}

proof fn lemma_restored(count: nat)
    ensures
        times(restored(count as int), Action::RestoreState) == count,
    decreases count,
{
    if count > 0 {
        lemma_restored((count - 1) as nat);
        assert(restored(count as int).drop_last() =~= restored(count - 1));
        assert(restored(count as int).last() == Action::RestoreState);
    }
}

/// The scope has given a warning about the structure of its content.
pub open spec fn has_warned(scope: Scope, warning: InterpreterWarning) -> bool {
    match warning {
        InterpreterWarning::NestedTextObject => scope.warned_nested_text_object,
        InterpreterWarning::UnterminatedTextObject => scope.warned_unterminated_text_object,
        InterpreterWarning::UnmatchedTextObjectEnd => scope.warned_unmatched_text_object_end,
        InterpreterWarning::UnmatchedMarkedContentEnd => scope.warned_unmatched_marked_content_end,
        _ => false,
    }
}

/// A warning is about the structure of content.
pub open spec fn is_structural(warning: InterpreterWarning) -> bool {
    match warning {
        InterpreterWarning::NestedTextObject
        | InterpreterWarning::UnterminatedTextObject
        | InterpreterWarning::UnmatchedTextObjectEnd
        | InterpreterWarning::UnmatchedMarkedContentEnd => true,
        _ => false,
    }
}

/// Each warning about the structure of content is given once: only if it was not given before,
/// and from then on it counts as given.
pub proof fn lemma_warned_once(
    scope: Scope,
    frames: Seq<VisibilityFrame>,
    visible: bool,
    op: Instruction,
    facts: Facts,
    warning: InterpreterWarning,
)
    requires
        is_structural(warning),
    ensures
        has_warned(scope, warning) ==> has_warned(after_instruction(scope, frames, op), warning),
        instruction_actions(scope, frames, visible, op, facts).contains(Action::Warn(warning)) ==> {
            &&& !has_warned(scope, warning)
            &&& has_warned(after_instruction(scope, frames, op), warning)
        },
{
    let boundary = boundary_actions(scope, op, facts);
    let own = own_actions(after_boundary(scope, op), frames, visible, op, facts);
    let actions = instruction_actions(scope, frames, visible, op, facts);
    if actions.contains(Action::Warn(warning)) {
        let i = choose|i: int| 0 <= i < actions.len() && actions[i] == Action::Warn(warning);
        if i < boundary.len() {
            assert(boundary[i] == Action::Warn(warning));
        } else {
            assert(own[i - boundary.len()] == Action::Warn(warning));
        }
    }
}

/// An instruction of a run, with what the host knows before it.
pub struct Step {
    pub op: Instruction,
    pub facts: Facts,
    /// Whether content is visible before it.
    pub visible: bool,
    /// The frame that the call opens which reads the properties of a sequence.
    pub opened: VisibilityFrame,
}

/// What a run has come to.
pub struct Run {
    pub scope: Scope,
    pub frames: Seq<VisibilityFrame>,
    /// What the host was asked for so far.
    pub actions: Seq<Action>,
}

/// What a run comes to with the next instruction.
pub open spec fn run_step(run: Run, step: Step) -> Run {
    let frames = frames_after(run.scope, run.frames, step.op);
    Run {
        scope: after_instruction(run.scope, run.frames, step.op),
        frames: if step.op == Instruction::BeginMarkedContentWithProperties {
            frames.push(step.opened)
        } else {
            frames
        },
        actions: run.actions + instruction_actions(
            run.scope,
            run.frames,
            step.visible,
            step.op,
            step.facts,
        ),
    }
}

/// What a scope has come to after the first `count` instructions.
pub open spec fn run_of(
    scope: Scope,
    frames: Seq<VisibilityFrame>,
    steps: Seq<Step>,
    count: nat,
) -> Run
    decreases count,
{
    if count == 0 {
        Run { scope, frames, actions: Seq::empty() }
    } else {
        run_step(run_of(scope, frames, steps, (count - 1) as nat), steps[count - 1])
    }
}

/// The open sequences after the end of the content.
pub open spec fn frames_left(scope: Scope, frames: Seq<VisibilityFrame>) -> Seq<VisibilityFrame> {
    if has_open_sequence(scope, frames) {
        frames.take(scope.initial_marked_content_depth as int)
    } else {
        frames
    }
}

/// At no time is more than one text object open, and none ends that did not begin.
pub open spec fn text_objects_alternate(actions: Seq<Action>) -> bool {
    forall|k: int|
        0 <= k <= actions.len() ==> {
            let so_far = #[trigger] actions.take(k);
            0 <= times(so_far, Action::BeginTextObject) - times(so_far, Action::EndTextObject) <= 1
        }
}

proof fn lemma_times_prefix(actions: Seq<Action>, k: int, action: Action)
    requires
        0 <= k <= actions.len(),
    ensures
        times(actions.take(k), action) <= times(actions, action),
{
    assert(actions =~= actions.take(k) + actions.skip(k));
    lemma_times_concat(actions.take(k), actions.skip(k), action);
}

/// Within what an instruction asks for, text objects begin and end in turn.
proof fn lemma_step_alternates(
    scope: Scope,
    frames: Seq<VisibilityFrame>,
    visible: bool,
    op: Instruction,
    facts: Facts,
    k: int,
)
    requires
        0 <= k <= instruction_actions(scope, frames, visible, op, facts).len(),
    ensures
        ({
            let so_far = instruction_actions(scope, frames, visible, op, facts).take(k);
            0 <= open_text_objects(scope) + times(so_far, Action::BeginTextObject) - times(
                so_far,
                Action::EndTextObject,
            ) <= 1
        }),
{
    let boundary = boundary_actions(scope, op, facts);
    let inside = after_boundary(scope, op);
    let own = own_actions(inside, frames, visible, op, facts);
    let all = boundary + own;
    lemma_boundary_text(scope, op, facts);
    lemma_own_text(inside, frames, visible, op, facts);
    if k <= boundary.len() {
        assert(all.take(k) =~= boundary.take(k));
        lemma_times_prefix(boundary, k, Action::BeginTextObject);
        lemma_times_prefix(boundary, k, Action::EndTextObject);
    } else {
        let rest = own.take(k - boundary.len());
        assert(all.take(k) =~= boundary + rest);
        lemma_times_concat(boundary, rest, Action::BeginTextObject);
        lemma_times_concat(boundary, rest, Action::EndTextObject);
        lemma_times_prefix(own, k - boundary.len(), Action::BeginTextObject);
        lemma_times_prefix(own, k - boundary.len(), Action::EndTextObject);
    }
}

proof fn lemma_own_properties(
    scope: Scope,
    frames: Seq<VisibilityFrame>,
    visible: bool,
    op: Instruction,
    facts: Facts,
)
    ensures
        times(
            instruction_actions(scope, frames, visible, op, facts),
            Action::BeginMarkedContentWithProperties,
        ) == (if op == Instruction::BeginMarkedContentWithProperties {
            1nat
        } else {
            0nat
        }),
{
    let with = Action::BeginMarkedContentWithProperties;
    let boundary = boundary_actions(scope, op, facts);
    let own = own_actions(after_boundary(scope, op), frames, visible, op, facts);
    lemma_times_concat(boundary, own, with);
    lemma_absent(boundary, with);
    if op == Instruction::BeginMarkedContentWithProperties {
        reveal_with_fuel(times, 2);
        assert(own =~= seq![with]);
        assert(own.drop_last() =~= Seq::empty());
    } else {
        lemma_absent(own, with);
    }
}

/// What holds at each moment of a run.
spec fn is_balanced(start: Scope, frames: Seq<VisibilityFrame>, run: Run) -> bool {
    &&& run.scope.num_states == start.num_states
    &&& run.scope.initial_marked_content_depth == frames.len()
    &&& run.frames.len() >= frames.len()
    &&& run.frames.take(frames.len() as int) == frames
    &&& times(run.actions, Action::BeginTextObject) - times(run.actions, Action::EndTextObject)
        == open_text_objects(run.scope)
    &&& times(run.actions, Action::BeginMarkedContent) + times(
        run.actions,
        Action::BeginMarkedContentWithProperties,
    ) - times(run.actions, Action::EndMarkedContent) == run.frames.len() - frames.len()
    &&& text_objects_alternate(run.actions)
}

proof fn lemma_more_alternates(before: Seq<Action>, after: Seq<Action>)
    requires
        text_objects_alternate(before),
        forall|k: int|
            0 <= k <= after.len() ==> {
                let so_far = #[trigger] after.take(k);
                0 <= times(before, Action::BeginTextObject) - times(before, Action::EndTextObject)
                    + times(so_far, Action::BeginTextObject) - times(so_far, Action::EndTextObject)
                    <= 1
            },
    ensures
        text_objects_alternate(before + after),
{
    let all = before + after;
    assert forall|k: int| 0 <= k <= all.len() implies {
        let so_far = #[trigger] all.take(k);
        0 <= times(so_far, Action::BeginTextObject) - times(so_far, Action::EndTextObject) <= 1
    } by {
        if k <= before.len() {
            assert(all.take(k) =~= before.take(k));
        } else {
            let rest = after.take(k - before.len());
            assert(all.take(k) =~= before + rest);
            lemma_times_concat(before, rest, Action::BeginTextObject);
            lemma_times_concat(before, rest, Action::EndTextObject);
        }
    }
}

proof fn lemma_balanced_step(start: Scope, frames: Seq<VisibilityFrame>, run: Run, step: Step)
    requires
        is_balanced(start, frames, run),
    ensures
        is_balanced(start, frames, run_step(run, step)),
{
    let more = instruction_actions(run.scope, run.frames, step.visible, step.op, step.facts);
    let next = run_step(run, step);
    lemma_text_objects_alternate(run.scope, run.frames, step.visible, step.op, step.facts);
    lemma_sequences_reported(run.scope, run.frames, step.visible, step.op, step.facts);
    lemma_own_properties(run.scope, run.frames, step.visible, step.op, step.facts);
    lemma_times_concat(run.actions, more, Action::BeginTextObject);
    lemma_times_concat(run.actions, more, Action::EndTextObject);
    lemma_times_concat(run.actions, more, Action::BeginMarkedContent);
    lemma_times_concat(run.actions, more, Action::BeginMarkedContentWithProperties);
    lemma_times_concat(run.actions, more, Action::EndMarkedContent);
    assert forall|k: int| 0 <= k <= more.len() implies {
        let so_far = #[trigger] more.take(k);
        0 <= times(run.actions, Action::BeginTextObject) - times(run.actions, Action::EndTextObject)
            + times(so_far, Action::BeginTextObject) - times(so_far, Action::EndTextObject) <= 1
    } by {
        lemma_step_alternates(run.scope, run.frames, step.visible, step.op, step.facts, k);
    }
    lemma_more_alternates(run.actions, more);
    assert(next.frames.take(frames.len() as int) =~= run.frames.take(frames.len() as int));
}

proof fn lemma_balanced_run(start: Scope, frames: Seq<VisibilityFrame>, steps: Seq<Step>, count: nat)
    requires
        start.initial_marked_content_depth == frames.len(),
        !start.text_object_active,
        count <= steps.len(),
    ensures
        is_balanced(start, frames, run_of(start, frames, steps, count)),
    decreases count,
{
    if count == 0 {
        let none = Seq::<Action>::empty();
        assert(frames.take(frames.len() as int) =~= frames);
        assert(forall|k: int| 0 <= k <= none.len() ==> #[trigger] none.take(k) =~= none);
    } else {
        lemma_balanced_run(start, frames, steps, (count - 1) as nat);
        lemma_balanced_step(
            start,
            frames,
            run_of(start, frames, steps, (count - 1) as nat),
            steps[count - 1],
        );
    }
}

/// Whatever the instructions of a scope are, and wherever they stop, the scope leaves things as
/// it found them: text objects begin and end in turn and equally often, as many sequences begin
/// (with properties or without) as end, the sequences around the scope are open again, and no
/// graphics state of the scope is left.
pub proof fn lemma_run_balanced(
    scope: Scope,
    frames: Seq<VisibilityFrame>,
    steps: Seq<Step>,
    facts: Facts,
    num_states: usize,
)
    requires
        scope.initial_marked_content_depth == frames.len(),
        !scope.text_object_active,
    ensures
        ({
            let run = run_of(scope, frames, steps, steps.len());
            let last = final_actions(run.scope, run.frames, facts, num_states);
            let all = run.actions + last;
            &&& text_objects_alternate(all)
            &&& times(all, Action::BeginTextObject) == times(all, Action::EndTextObject)
            &&& times(all, Action::BeginMarkedContent) + times(
                all,
                Action::BeginMarkedContentWithProperties,
            ) == times(all, Action::EndMarkedContent)
            &&& frames_left(run.scope, run.frames) == frames
            &&& num_states - times(last, Action::RestoreState) <= scope.num_states
        }),
{
    let run = run_of(scope, frames, steps, steps.len());
    let last = final_actions(run.scope, run.frames, facts, num_states);
    let all = run.actions + last;
    lemma_balanced_run(scope, frames, steps, steps.len());
    lemma_final_actions(run.scope, run.frames, facts, num_states);
    assert(run.frames.len() == frames.len() ==> run.frames =~= run.frames.take(
        frames.len() as int,
    ));
    lemma_times_concat(run.actions, last, Action::BeginTextObject);
    lemma_times_concat(run.actions, last, Action::EndTextObject);
    lemma_times_concat(run.actions, last, Action::BeginMarkedContent);
    lemma_times_concat(run.actions, last, Action::BeginMarkedContentWithProperties);
    lemma_times_concat(run.actions, last, Action::EndMarkedContent);
    assert forall|k: int| 0 <= k <= last.len() implies {
        let so_far = #[trigger] last.take(k);
        0 <= times(run.actions, Action::BeginTextObject) - times(run.actions, Action::EndTextObject)
            + times(so_far, Action::BeginTextObject) - times(so_far, Action::EndTextObject) <= 1
    } by {
        lemma_times_prefix(last, k, Action::BeginTextObject);
        lemma_times_prefix(last, k, Action::EndTextObject);
    }
    lemma_more_alternates(run.actions, last);
}

/// The end of the content begins nothing, and ends what is open.
proof fn lemma_final_actions(
    scope: Scope,
    frames: Seq<VisibilityFrame>,
    facts: Facts,
    num_states: usize,
)
    requires
        scope.initial_marked_content_depth <= frames.len(),
    ensures
        ({
            let actions = final_actions(scope, frames, facts, num_states);
            &&& times(actions, Action::BeginTextObject) == 0
            &&& times(actions, Action::BeginMarkedContent) == 0
            &&& times(actions, Action::BeginMarkedContentWithProperties) == 0
            &&& times(actions, Action::EndTextObject) == open_text_objects(scope)
            &&& times(actions, Action::EndMarkedContent) == frames.len()
                - scope.initial_marked_content_depth
            &&& num_states - times(actions, Action::RestoreState) <= scope.num_states
        }),
{
    let actions = final_actions(scope, frames, facts, num_states);
    if scope.num_states <= num_states {
        lemma_scope_closed(scope, frames, facts, num_states);
    } else {
        let fewer = Scope { num_states, ..scope };
        lemma_scope_closed(fewer, frames, facts, num_states);
        assert(restored(num_states - scope.num_states) =~= restored(0));
        assert(actions == final_actions(fewer, frames, facts, num_states));
    }
    lemma_final_begins(scope, frames, facts, num_states, Action::BeginTextObject);
    lemma_final_begins(scope, frames, facts, num_states, Action::BeginMarkedContent);
    lemma_final_begins(
        scope,
        frames,
        facts,
        num_states,
        Action::BeginMarkedContentWithProperties,
    );
}

/// An action begins a text object or a sequence.
spec fn begins(action: Action) -> bool {
    ||| action == Action::BeginTextObject
    ||| action == Action::BeginMarkedContent
    ||| action == Action::BeginMarkedContentWithProperties
}

proof fn lemma_final_begins(
    scope: Scope,
    frames: Seq<VisibilityFrame>,
    facts: Facts,
    num_states: usize,
    action: Action,
)
    requires
        scope.initial_marked_content_depth <= frames.len(),
        begins(action),
    ensures
        times(final_actions(scope, frames, facts, num_states), action) == 0,
{
    let warned = warning_once(
        facts.cancelled || scope.warned_unterminated_text_object,
        InterpreterWarning::UnterminatedTextObject,
    );
    let closed = text_object_closed(facts.has_text_outline);
    let text = if scope.text_object_active {
        warned + closed
    } else {
        Seq::empty()
    };
    let warned_sequences = warning_once(
        facts.cancelled || scope.warned_unterminated_marked_content,
        InterpreterWarning::UnterminatedMarkedContent,
    );
    let sequences = sequences_closed(frames, scope.initial_marked_content_depth as int);
    let marked = if has_open_sequence(scope, frames) {
        warned_sequences + sequences
    } else {
        Seq::empty()
    };
    let states = restored(num_states - scope.num_states);
    lemma_sequences_closed(frames, scope.initial_marked_content_depth as int);
    lemma_times_concat(text + marked, states, action);
    lemma_times_concat(text, marked, action);
    lemma_times_concat(warned, closed, action);
    lemma_times_concat(warned_sequences, sequences, action);
    lemma_absent(warned, action);
    lemma_absent(closed, action);
    lemma_absent(warned_sequences, action);
    lemma_absent(sequences, action);
    lemma_absent(states, action);
}

} // verus!
