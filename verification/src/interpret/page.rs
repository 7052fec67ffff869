//! The annotations of a page.

use crate::interpret::begin_content::PropertyLimits;
use crate::interpret::warning::{AnnotationError, InterpreterWarning};
use crate::object::{Dict, Document, MaybeRef, Object};
use crate::ocg::expression::{default_visible, OptionalContentExpression};
use crate::ocg::resolve::{
    resolve_optional_content, resolves, OptionalContentBudget, OptionalContentError,
};
use crate::ocg::state::{states_without, with_states, OcgState, VisibilityFrame};
use crate::polled::{is_polled_more, Polled};
use vstd::prelude::*;

verus! {

/// Settings that should be applied during the interpretation process.
#[derive(Clone, Copy, Debug, PartialEq, Eq, Structural)]
pub struct InterpreterSettings {
    /// Whether annotations should be rendered as well.
    pub render_annotations: bool,
    /// Preserve every optional-content branch and emit owned visibility-expression callbacks.
    ///
    /// Otherwise the document's default configuration of groups is applied.
    pub preserve_optional_content: bool,
    /// The limits of marked-content properties.
    pub marked_content: PropertyLimits,
    /// Maximum activation quadrilaterals retained from one Link annotation.
    pub max_link_quads_per_annotation: usize,
    /// Maximum aggregate text-markup quadrilaterals resolved for one page.
    pub max_text_markup_quads_per_page: usize,
    /// Aggregate owned optional-content expression budget for annotations.
    pub annotation_optional_content_budget: OptionalContentBudget,
}

impl Default for InterpreterSettings {
    fn default() -> (settings: Self)
        ensures
            settings.render_annotations,
            !settings.preserve_optional_content,
            settings.marked_content.max_metadata_bytes == 64 * 1024 * 1024,
            settings.marked_content.max_property_bytes == 64 * 1024 * 1024,
            settings.marked_content.max_property_depth == 64,
            settings.max_link_quads_per_annotation == 65_536,
            settings.max_text_markup_quads_per_page == 65_536,
            settings.annotation_optional_content_budget.nodes == 65_536,
            settings.annotation_optional_content_budget.bytes == 64 * 1024 * 1024,
            settings.annotation_optional_content_budget.max_depth == 64,
    {
        InterpreterSettings {
            render_annotations: true,
            preserve_optional_content: false,
            marked_content: PropertyLimits {
                max_metadata_bytes: 64 * 1024 * 1024,
                max_property_bytes: 64 * 1024 * 1024,
                max_property_depth: 64,
            },
            max_link_quads_per_annotation: 65_536,
            max_text_markup_quads_per_page: 65_536,
            annotation_optional_content_budget: OptionalContentBudget::default(),
        }
    }
}

/// Remaining work for the geometry of annotations.
#[derive(Clone, Copy, Debug, PartialEq, Eq, Structural)]
pub struct AnnotationGeometryBudget {
    pub verbs: u64,
    pub draws: u64,
    pub bytes: u64,
    pub intersections: u64,
}

/// The lesser of two numbers.
pub open spec fn lesser(a: u64, b: u64) -> u64 {
    if a <= b {
        a
    } else {
        b
    }
}

/// A budget within what a device has left, if the device says so.
pub open spec fn within(
    budget: AnnotationGeometryBudget,
    remaining: Option<AnnotationGeometryBudget>,
) -> AnnotationGeometryBudget {
    match remaining {
        None => budget,
        Some(remaining) => AnnotationGeometryBudget {
            verbs: lesser(budget.verbs, remaining.verbs),
            draws: lesser(budget.draws, remaining.draws),
            bytes: lesser(budget.bytes, remaining.bytes),
            intersections: lesser(budget.intersections, remaining.intersections),
        },
    }
}

fn least(a: u64, b: u64) -> (result: u64)
    ensures
        result == lesser(a, b),
{
    if a <= b {
        a
    } else {
        b
    }
}

/// The number of leading dictionaries of an array.
pub open spec fn leading_dicts(doc: Document, items: Seq<MaybeRef>, from: int) -> int
    decreases items.len() - from,
{
    if from < items.len() && doc.resolved(items[from]) matches Some(Object::Dict(_)) {
        leading_dicts(doc, items, from + 1)
    } else {
        from
    }
}

/// The annotations of a page, if they are rendered: the leading dictionaries of its array.
pub open spec fn annotations_of(doc: Document, page: Dict, render_annotations: bool) -> Seq<Dict> {
    match doc.value(page, "Annots"@) {
        Some(Object::Array(array)) if render_annotations => {
            let count = leading_dicts(doc, array.items@, 0);
            Seq::new(
                if count > 0 {
                    count as nat
                } else {
                    0
                },
                |i: int| doc.resolved(array.items@[i])->0->Dict_0,
            )
        },
        _ => Seq::empty(),
    }
}

/// The annotations of a page, if they are rendered.
pub fn annotations<'a>(doc: &'a Document, page: &'a Dict, settings: &InterpreterSettings) -> (list:
    Vec<&'a Dict>)
    ensures
        list@.len() == annotations_of(*doc, *page, settings.render_annotations).len(),
        forall|i: int|
            0 <= i < list@.len() ==> *#[trigger] list@[i] == annotations_of(
                *doc,
                *page,
                settings.render_annotations,
            )[i],
{
    let mut list: Vec<&'a Dict> = Vec::new();
    if !settings.render_annotations {
        return list;
    }
    match doc.lookup(page, "Annots") {
        Some(Object::Array(array)) => {
            let mut i: usize = 0;
            while i < array.items.len()
                invariant
                    i <= array.items@.len(),
                    list@.len() == i,
                    leading_dicts(*doc, array.items@, 0) == leading_dicts(
                        *doc,
                        array.items@,
                        i as int,
                    ),
                    forall|k: int|
                        0 <= k < i ==> *#[trigger] list@[k] == doc.resolved(
                            array.items@[k],
                        )->0->Dict_0,
                    doc.value(*page, "Annots"@) == Some(Object::Array(*array)),
                    settings.render_annotations,
                decreases array.items@.len() - i,
            {
                match doc.resolve(&array.items[i]) {
                    Some(Object::Dict(dict)) => {
                        list.push(dict);
                    },
                    _ => {
                        return list;
                    },
                }
                i = i + 1;
            }
        },
        _ => {},
    }
    list
}

/// The budgets of the annotations of a page.
#[derive(Clone, Copy, Debug, PartialEq, Eq, Structural)]
pub struct AnnotationPass {
    pub remaining_markup_quads: usize,
    pub geometry_budget: AnnotationGeometryBudget,
    pub optional_budget: OptionalContentBudget,
}

/// How an annotation starts.
#[derive(Debug)]
pub enum AnnotationStart {
    /// The host has asked to stop.
    Stop,
    /// The annotation is not for the screen.
    Hidden,
    /// The optional content of the annotation cannot be resolved.
    Failed(InterpreterWarning),
    /// The optional content of the annotation is not visible.
    Invisible {
        /// Whether the end of optional content is reported to the device.
        ends_optional_content: bool,
    },
    /// The annotation is drawn.
    Draw {
        /// The expression of its optional content.
        expression: Option<OptionalContentExpression>,
        /// Whether the beginning of optional content is reported to the device.
        begins_optional_content: bool,
    },
}

/// The open sequences with the optional content of an annotation.
pub open spec fn with_optional(
    state: OcgState,
    expression: OptionalContentExpression,
) -> Seq<VisibilityFrame> {
    let applied = with_states(expression@, states_without(state.inactive_ocgs@));
    state.visibility_stack@.push(
        VisibilityFrame {
            visible: state.effective() && default_visible(applied),
            emit_optional_callback: state.preserve_optional_content,
        },
    )
}

/// How an annotation starts, after its optional content was resolved.
pub open spec fn started(
    before: OcgState,
    after: OcgState,
    resolved: Result<Option<OptionalContentExpression>, OptionalContentError>,
    start: AnnotationStart,
) -> bool {
    &&& after.same_groups(&before)
    &&& match resolved {
        Err(error) => {
            &&& start == AnnotationStart::Failed(
                InterpreterWarning::AnnotationOptionalContentFailure(error),
            )
            &&& after.visibility_stack@ == before.visibility_stack@
        },
        Ok(None) => {
            &&& after.visibility_stack@ == before.visibility_stack@
            &&& if before.preserve_optional_content || before.effective() {
                start == (AnnotationStart::Draw {
                    expression: None,
                    begins_optional_content: false,
                })
            } else {
                start == (AnnotationStart::Invisible { ends_optional_content: false })
            }
        },
        Ok(Some(expression)) => {
            let opened = with_optional(before, expression);
            if before.preserve_optional_content || opened.last().visible {
                &&& after.visibility_stack@ == opened
                &&& start matches AnnotationStart::Draw {
                    expression: Some(given),
                    begins_optional_content,
                }
                &&& given@ == with_states(expression@, states_without(before.inactive_ocgs@))
                &&& begins_optional_content == before.preserve_optional_content
            } else {
                &&& after.visibility_stack@ == before.visibility_stack@
                &&& start == (AnnotationStart::Invisible { ends_optional_content: false })
            }
        },
    }
}

impl AnnotationPass {
    /// The budgets of a page.
    pub fn new(settings: &InterpreterSettings, geometry_budget: AnnotationGeometryBudget) -> (pass:
        Self)
        ensures
            pass.remaining_markup_quads == settings.max_text_markup_quads_per_page,
            pass.geometry_budget == geometry_budget,
            pass.optional_budget == settings.annotation_optional_content_budget,
    {
        AnnotationPass {
            remaining_markup_quads: settings.max_text_markup_quads_per_page,
            geometry_budget,
            optional_budget: settings.annotation_optional_content_budget,
        }
    }

    /// Start an annotation.
    ///
    /// `remaining` is what the device has left for geometry; `for_screen` says whether the flags
    /// of the annotation show it on a screen.
    pub fn start<F: Fn() -> bool>(
        &mut self,
        ocg_state: &mut OcgState,
        doc: &Document,
        annotation: &Dict,
        cancelled: bool,
        remaining: Option<AnnotationGeometryBudget>,
        for_screen: bool,
        stop: &mut Polled<F>,
    ) -> (start: AnnotationStart)
        ensures
            is_polled_more(*old(stop), *final(stop)),
            final(self).remaining_markup_quads == old(self).remaining_markup_quads,
            final(self).geometry_budget == (if cancelled {
                old(self).geometry_budget
            } else {
                within(old(self).geometry_budget, remaining)
            }),
            if cancelled || !for_screen {
                &&& start == (if cancelled {
                    AnnotationStart::Stop
                } else {
                    AnnotationStart::Hidden
                })
                &&& final(self).optional_budget == old(self).optional_budget
                &&& final(stop).answers() == old(stop).answers()
                &&& final(ocg_state).same_groups(old(ocg_state))
                &&& final(ocg_state).visibility_stack@ == old(ocg_state).visibility_stack@
            } else {
                exists|resolved: Result<Option<OptionalContentExpression>, OptionalContentError>|
                    {
                        &&& resolves(
                            *annotation,
                            *doc,
                            old(self).optional_budget,
                            final(self).optional_budget,
                            old(stop).answers(),
                            final(stop).answers(),
                            resolved,
                        )
                        &&& #[trigger] started(
                            *old(ocg_state),
                            *final(ocg_state),
                            resolved,
                            start,
                        )
                    }
            },
    {
        if cancelled {
            return AnnotationStart::Stop;
        }
        match remaining {
            None => {},
            Some(remaining) => {
                self.geometry_budget = AnnotationGeometryBudget {
                    verbs: least(self.geometry_budget.verbs, remaining.verbs),
                    draws: least(self.geometry_budget.draws, remaining.draws),
                    bytes: least(self.geometry_budget.bytes, remaining.bytes),
                    intersections: least(
                        self.geometry_budget.intersections,
                        remaining.intersections,
                    ),
                };
            },
        }
        // Print is irrelevant for a screen.
        if !for_screen {
            return AnnotationStart::Hidden;
        }
        let mut optional_budget = self.optional_budget;
        let resolved = resolve_optional_content(annotation, doc, &mut optional_budget, stop);
        self.optional_budget = optional_budget;
        let ghost given = resolved;
        let result = match resolved {
            Err(error) => AnnotationStart::Failed(
                InterpreterWarning::AnnotationOptionalContentFailure(error),
            ),
            Ok(None) => {
                if ocg_state.is_visible() {
                    AnnotationStart::Draw { expression: None, begins_optional_content: false }
                } else {
                    AnnotationStart::Invisible { ends_optional_content: false }
                }
            },
            Ok(Some(expression)) => {
                let applied = ocg_state.begin_resolved(expression);
                let ghost opened = ocg_state.visibility_stack@;
                if ocg_state.is_visible() {
                    let begins_optional_content = ocg_state.preserve_optional_content;
                    AnnotationStart::Draw { expression: Some(applied), begins_optional_content }
                } else {
                    let ends_optional_content = ocg_state.end_marked_content();
                    assert(opened.drop_last() =~= old(ocg_state).visibility_stack@);
                    AnnotationStart::Invisible { ends_optional_content }
                }
            },
        };
        assert(started(*old(ocg_state), *ocg_state, given, result));
        result
    }

    /// End an annotation that was drawn; whether the end of optional content is reported to the
    /// device.
    pub fn end(&self, ocg_state: &mut OcgState, has_optional_content: bool) -> (reported: bool)
        ensures
            final(ocg_state).same_groups(old(ocg_state)),
            if has_optional_content && old(ocg_state).visibility_stack@.len() > 0 {
                &&& reported == old(ocg_state).visibility_stack@.last().emit_optional_callback
                &&& final(ocg_state).visibility_stack@ == old(
                    ocg_state,
                ).visibility_stack@.drop_last()
            } else {
                !reported && final(ocg_state).visibility_stack@ == old(ocg_state).visibility_stack@
            },
    {
        has_optional_content && ocg_state.end_marked_content()
    }
}

/// What is looked for in an annotation, in turn.
#[derive(Clone, Copy, Debug, PartialEq, Eq, Structural)]
pub enum Stage {
    Appearance,
    LinkBorder,
    TextMarkup,
    Geometry,
    Done,
}

/// What the host found in an annotation.
#[derive(Clone, Copy, Debug, PartialEq, Eq, Structural)]
pub enum Finding {
    /// Something to draw, of so many quadrilaterals.
    Visible(usize),
    /// Something that is not visible.
    Invisible,
    Absent,
    Failed(AnnotationError),
}

/// What the host does about a finding.
#[derive(Clone, Copy, Debug, PartialEq, Eq, Structural)]
pub enum Reaction {
    Nothing,
    Draw,
    Warn(InterpreterWarning),
}

/// The stage after a stage in which nothing was found.
pub open spec fn next_stage(stage: Stage) -> Stage {
    match stage {
        Stage::Appearance => Stage::LinkBorder,
        Stage::LinkBorder => Stage::TextMarkup,
        Stage::TextMarkup => Stage::Geometry,
        _ => Stage::Done,
    }
}

/// The warning about a failure in a stage.
pub open spec fn stage_warning(stage: Stage, error: AnnotationError) -> InterpreterWarning {
    match stage {
        Stage::Appearance => InterpreterWarning::AnnotationAppearanceFailure(error),
        Stage::LinkBorder => InterpreterWarning::LinkBorderFailure(error),
        Stage::TextMarkup => InterpreterWarning::TextMarkupFailure(error),
        _ => InterpreterWarning::GeometricAnnotationFailure(error),
    }
}

/// What the host does about a finding.
pub open spec fn reaction(stage: Stage, finding: Finding) -> Reaction {
    match finding {
        Finding::Visible(_) if stage != Stage::Done => Reaction::Draw,
        Finding::Failed(error) if stage != Stage::Done => Reaction::Warn(
            stage_warning(stage, error),
        ),
        _ => Reaction::Nothing,
    }
}

impl AnnotationPass {
    /// React to what the host found in a stage, and go on to the next stage if it found nothing.
    pub fn react(&mut self, stage: Stage, finding: Finding) -> (result: (Stage, Reaction))
        requires
            stage == Stage::TextMarkup ==> (finding matches Finding::Visible(quads) ==> quads
                <= old(self).remaining_markup_quads),
        ensures
            result.1 == reaction(stage, finding),
            result.0 == (if finding == Finding::Absent {
                next_stage(stage)
            } else {
                Stage::Done
            }),
            final(self).geometry_budget == old(self).geometry_budget,
            final(self).optional_budget == old(self).optional_budget,
            final(self).remaining_markup_quads == old(self).remaining_markup_quads - (
            match finding {
                Finding::Visible(quads) if stage == Stage::TextMarkup => quads as int,
                _ => 0int,
            }),
    {
        let next = match stage {
            Stage::Appearance => Stage::LinkBorder,
            Stage::LinkBorder => Stage::TextMarkup,
            Stage::TextMarkup => Stage::Geometry,
            _ => Stage::Done,
        };
        match finding {
            Finding::Absent => (next, Reaction::Nothing),
            Finding::Invisible => (Stage::Done, Reaction::Nothing),
            Finding::Visible(quads) => {
                if stage == Stage::TextMarkup {
                    self.remaining_markup_quads = self.remaining_markup_quads - quads;
                }
                if stage == Stage::Done {
                    (Stage::Done, Reaction::Nothing)
                } else {
                    (Stage::Done, Reaction::Draw)
                }
            },
            Finding::Failed(error) => {
                let warning = match stage {
                    Stage::Appearance => InterpreterWarning::AnnotationAppearanceFailure(error),
                    Stage::LinkBorder => InterpreterWarning::LinkBorderFailure(error),
                    Stage::TextMarkup => InterpreterWarning::TextMarkupFailure(error),
                    _ => InterpreterWarning::GeometricAnnotationFailure(error),
                };
                if stage == Stage::Done {
                    (Stage::Done, Reaction::Nothing)
                } else {
                    (Stage::Done, Reaction::Warn(warning))
                }
            },
        }
    }
}

/// An annotation that was drawn leaves the open sequences as they were once it has ended.
pub proof fn lemma_annotation_balanced(
    before: OcgState,
    after: OcgState,
    resolved: Result<Option<OptionalContentExpression>, OptionalContentError>,
    start: AnnotationStart,
)
    requires
        started(before, after, resolved, start),
    ensures
        match start {
            AnnotationStart::Draw { expression: Some(_), .. } => {
                &&& after.visibility_stack@.len() == before.visibility_stack@.len() + 1
                &&& after.visibility_stack@.drop_last() == before.visibility_stack@
            },
            _ => after.visibility_stack@ == before.visibility_stack@,
        },
{
    match resolved {
        Ok(Some(expression)) => {
            assert(with_optional(before, expression).drop_last() =~= before.visibility_stack@);
        },
        _ => {},
    }
}

} // verus!
