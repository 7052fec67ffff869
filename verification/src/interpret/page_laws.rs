//! What holds of annotations, property lists and stroke parameters.

use crate::function::double;
use crate::function::single;
use crate::function::single::{lemma_rank, scaled};
use crate::interpret::begin_content::{
    list_name, list_reference, listed_properties, membership, opened_by, property_list, step_of,
    steps_of, GlyphStep, PropertyLimits,
};
use crate::interpret::instruction::{same_place, Point};
use crate::interpret::marked_content::MarkedContentProperties;
use crate::interpret::page::{
    annotations_of, leading_dicts, next_stage, reaction, started, within, AnnotationGeometryBudget,
    AnnotationStart, Finding, Reaction, Stage,
};
use crate::interpret::stroke::{
    bounded, cap_of, dash_entry, join_of, leading_numbers, lengths_of, operator_lengths,
    parameter_of, strokeable, StrokeParameter,
};
use crate::interpret::warning::{AnnotationError, InterpreterWarning};
use crate::object::{Array, Dict, Document, MaybeRef, Number, Object, ObjectIdentifier};
use crate::ocg::expression::{default_visible, OptionalContentExpression};
use crate::ocg::resolve::OptionalContentError;
use crate::ocg::state::{states_without, with_states, OcgState};
use crate::types::{Cap, Join};
use vstd::prelude::*;

verus! {

/// A budget within another one is at most either, in every part, and is one of them.
pub proof fn lemma_within(
    budget: AnnotationGeometryBudget,
    remaining: AnnotationGeometryBudget,
)
    ensures
        within(budget, None) == budget,
        ({
            let both = within(budget, Some(remaining));
            &&& both.verbs <= budget.verbs && both.verbs <= remaining.verbs
            &&& both.draws <= budget.draws && both.draws <= remaining.draws
            &&& both.bytes <= budget.bytes && both.bytes <= remaining.bytes
            &&& both.intersections <= budget.intersections && both.intersections
                <= remaining.intersections
            &&& both.verbs == budget.verbs || both.verbs == remaining.verbs
            &&& both.draws == budget.draws || both.draws == remaining.draws
            &&& both.bytes == budget.bytes || both.bytes == remaining.bytes
            &&& both.intersections == budget.intersections || both.intersections
                == remaining.intersections
        }),
        within(budget, Some(remaining)) == within(remaining, Some(budget)),
{
}

proof fn lemma_leading_dicts(doc: Document, items: Seq<MaybeRef>, from: int)
    requires
        0 <= from <= items.len(),
    ensures
        from <= leading_dicts(doc, items, from) <= items.len(),
        forall|i: int|
            from <= i < leading_dicts(doc, items, from) ==> (doc.resolved(
                #[trigger] items[i],
            ) matches Some(Object::Dict(_))),
        leading_dicts(doc, items, from) < items.len() ==> !(doc.resolved(
            items[leading_dicts(doc, items, from)],
        ) matches Some(Object::Dict(_))),
    decreases items.len() - from,
{
    if from < items.len() && doc.resolved(items[from]) matches Some(Object::Dict(_)) {
        lemma_leading_dicts(doc, items, from + 1);
    }
}

/// The annotations of a page are the dictionaries of its array in order, up to the first item that
/// is none. There are none if they are not rendered.
pub proof fn lemma_annotations(doc: Document, page: Dict, array: Array)
    ensures
        annotations_of(doc, page, false).len() == 0,
        doc.value(page, "Annots"@) == Some(Object::Array(array)) ==> {
            let given = annotations_of(doc, page, true);
            &&& given.len() <= array.items@.len()
            &&& forall|i: int|
                0 <= i < given.len() ==> doc.resolved(array.items@[i]) == Some(
                    Object::Dict(#[trigger] given[i]),
                )
            &&& given.len() < array.items@.len() ==> !(doc.resolved(
                array.items@[given.len() as int],
            ) matches Some(Object::Dict(_)))
        },
        !(doc.value(page, "Annots"@) matches Some(Object::Array(_))) ==> annotations_of(
            doc,
            page,
            true,
        ).len() == 0,
{
    lemma_leading_dicts(doc, array.items@, 0);
    if doc.value(page, "Annots"@) == Some(Object::Array(array)) {
        let given = annotations_of(doc, page, true);
        assert forall|i: int| 0 <= i < given.len() implies doc.resolved(array.items@[i]) == Some(
            Object::Dict(#[trigger] given[i]),
        ) by {
            assert(doc.resolved(array.items@[i]) matches Some(Object::Dict(_)));
        }
    }
}

/// Optional content of an annotation that cannot be resolved fails it, and nothing is opened.
pub proof fn lemma_annotation_failed(
    before: OcgState,
    after: OcgState,
    error: OptionalContentError,
    start: AnnotationStart,
)
    requires
        started(before, after, Err(error), start),
    ensures
        start == AnnotationStart::Failed(
            InterpreterWarning::AnnotationOptionalContentFailure(error),
        ),
        after.visibility_stack@ == before.visibility_stack@,
        after.inactive_ocgs@ == before.inactive_ocgs@,
{
}

/// An annotation without optional content is drawn where content is visible, or everywhere if
/// optional content is preserved.
pub proof fn lemma_annotation_drawn(before: OcgState, after: OcgState, start: AnnotationStart)
    requires
        started(before, after, Ok(None), start),
    ensures
        start is Draw <==> before.preserve_optional_content || before.effective(),
        start is Draw || start is Invisible,
        start matches AnnotationStart::Draw { expression, begins_optional_content }
            ==> expression is None && !begins_optional_content,
        start matches AnnotationStart::Invisible { ends_optional_content }
            ==> !ends_optional_content,
        after.visibility_stack@ == before.visibility_stack@,
{
}

/// An annotation with optional content is drawn if the content is visible within what is around
/// it; where optional content is preserved it is drawn in any case, and its beginning is reported.
pub proof fn lemma_annotation_optional(
    before: OcgState,
    after: OcgState,
    expression: OptionalContentExpression,
    start: AnnotationStart,
)
    requires
        started(before, after, Ok(Some(expression)), start),
    ensures
        ({
            let visible = before.effective() && default_visible(
                with_states(expression@, states_without(before.inactive_ocgs@)),
            );
            &&& start is Draw <==> visible || before.preserve_optional_content
            &&& start is Draw || start is Invisible
            &&& start matches AnnotationStart::Draw { expression: given, begins_optional_content }
                ==> begins_optional_content == before.preserve_optional_content && (
            given matches Some(given) && given@ == with_states(
                expression@,
                states_without(before.inactive_ocgs@),
            )) && after.visibility_stack@.len() == before.visibility_stack@.len() + 1
                && after.visibility_stack@.last().visible == visible
                && after.visibility_stack@.last().emit_optional_callback
                == before.preserve_optional_content
            &&& start is Invisible ==> after.visibility_stack@ == before.visibility_stack@
        }),
{
}

/// An annotation is looked at for its appearance, its border, its markup and its geometry, in this
/// order.
pub proof fn lemma_stages()
    ensures
        next_stage(Stage::Appearance) == Stage::LinkBorder,
        next_stage(next_stage(Stage::Appearance)) == Stage::TextMarkup,
        next_stage(next_stage(next_stage(Stage::Appearance))) == Stage::Geometry,
        next_stage(next_stage(next_stage(next_stage(Stage::Appearance)))) == Stage::Done,
        next_stage(Stage::Done) == Stage::Done,
{
}

/// What is found and visible is drawn, a failure is warned about under the name of its stage, and
/// nothing else happens. Once done, nothing happens at all.
pub proof fn lemma_reaction(stage: Stage, finding: Finding, error: AnnotationError)
    ensures
        reaction(Stage::Done, finding) is Nothing,
        !(stage is Done) ==> {
            &&& reaction(stage, finding) is Draw <==> finding is Visible
            &&& reaction(stage, finding) is Nothing <==> finding is Absent || finding is Invisible
        },
        reaction(Stage::Appearance, Finding::Failed(error)) == Reaction::Warn(
            InterpreterWarning::AnnotationAppearanceFailure(error),
        ),
        reaction(Stage::LinkBorder, Finding::Failed(error)) == Reaction::Warn(
            InterpreterWarning::LinkBorderFailure(error),
        ),
        reaction(Stage::TextMarkup, Finding::Failed(error)) == Reaction::Warn(
            InterpreterWarning::TextMarkupFailure(error),
        ),
        reaction(Stage::Geometry, Finding::Failed(error)) == Reaction::Warn(
            InterpreterWarning::GeometricAnnotationFailure(error),
        ),
{
}

/// A property list is given as a dictionary or by the name of a resource.
pub proof fn lemma_property_list(
    doc: Document,
    resources: Dict,
    dict: Dict,
    name: Vec<u8>,
    id: ObjectIdentifier,
)
    ensures
        property_list(doc, resources, Object::Dict(dict)) == Some(dict),
        list_name(Object::Dict(dict)) is None,
        list_name(Object::Name(name)) == Some(name@),
        resources.raw_named(name@) == Some(MaybeRef::NotRef(Object::Dict(dict))) ==> property_list(
            doc,
            resources,
            Object::Name(name),
        ) == Some(dict) && list_reference(resources, Object::Name(name)) is None,
        resources.raw_named(name@) == Some(MaybeRef::Ref(id)) && doc.object(id) == Some(
            Object::Dict(dict),
        ) ==> property_list(doc, resources, Object::Name(name)) == Some(dict) && list_reference(
            resources,
            Object::Name(name),
        ) == Some(id),
        resources.raw_named(name@) is None ==> property_list(
            doc,
            resources,
            Object::Name(name),
        ) is None,
        list_reference(resources, Object::Dict(dict)) is None,
{
}

/// The membership of a property list is its `/OC` entry with the reference to it; a list that is
/// itself a group or a membership stands for itself.
pub proof fn lemma_membership(doc: Document, resources: Dict, operand: Object, props: Dict)
    requires
        property_list(doc, resources, operand) == Some(props),
    ensures
        match doc.value(props, "OC"@) {
            Some(Object::Dict(dict)) => membership(doc, resources, operand) matches Some(
                (given, reference),
            ) && given == dict && match props.raw("OC"@) {
                Some(MaybeRef::Ref(id)) => reference == Some(id),
                _ => reference is None,
            },
            _ => match doc.value(props, "Type"@) {
                Some(Object::Name(kind)) => if kind@ == vstd::utf8::encode_utf8("OCG"@) || kind@
                    == vstd::utf8::encode_utf8("OCMD"@) {
                    membership(doc, resources, operand) == Some(
                        (props, list_reference(resources, operand)),
                    )
                } else {
                    membership(doc, resources, operand) is None
                },
                _ => membership(doc, resources, operand) is None,
            },
        },
{
}

/// A sequence without a membership is as visible as what is around it, and is not reported. One
/// sequence is opened in any case, and groups stay as they are.
pub proof fn lemma_opened_by(
    before: OcgState,
    after: OcgState,
    doc: Document,
    expression: Option<OptionalContentExpression>,
)
    requires
        opened_by(before, after, doc, None, expression),
    ensures
        expression is None,
        after.visibility_stack@.len() == before.visibility_stack@.len() + 1,
        after.visibility_stack@.drop_last() == before.visibility_stack@,
        after.visibility_stack@.last().visible == before.effective(),
        !after.visibility_stack@.last().emit_optional_callback,
        after.inactive_ocgs@ == before.inactive_ocgs@,
{
    assert(after.visibility_stack@.drop_last() =~= before.visibility_stack@);
}

/// A sequence keeps the name of its property list, and says whether the list was found; without a
/// list it has no properties.
pub proof fn lemma_list_kept(
    properties: MarkedContentProperties,
    doc: Document,
    resources: Dict,
    name: Vec<u8>,
    limits: PropertyLimits,
)
    requires
        listed_properties(properties, doc, resources, Object::Name(name), limits),
    ensures
        properties.property_list_name matches Some(kept) && kept@ == name@,
        properties.property_list_resolved <==> property_list(
            doc,
            resources,
            Object::Name(name),
        ) is Some,
        !properties.property_list_resolved ==> properties.mcid is None
            && properties.actual_text is None && properties.alternate_text is None
            && properties.language is None && properties.metadata is None
            && properties.additional_properties@.len() == 0
            && properties.unavailable_keys@.len() == 0,
{
}

/// A number in an array of text moves, a string is shown, and other items do nothing; the items
/// take effect in order, up to one that leads nowhere.
pub proof fn lemma_glyph_steps(doc: Document, items: Seq<MaybeRef>, from: int)
    requires
        0 <= from < items.len(),
        items.len() <= usize::MAX,
    ensures
        steps_of(doc, items, items.len() as int).len() == 0,
        match doc.resolved(items[from]) {
            None => steps_of(doc, items, from).len() == 0,
            Some(Object::Number(number)) => {
                &&& steps_of(doc, items, from).len() > 0
                &&& steps_of(doc, items, from)[0] == GlyphStep::Adjust(number.single)
                &&& steps_of(doc, items, from).skip(1) == steps_of(doc, items, from + 1)
            },
            Some(Object::String(_)) => {
                &&& steps_of(doc, items, from).len() > 0
                &&& steps_of(doc, items, from)[0] == GlyphStep::Append(from as usize)
                &&& steps_of(doc, items, from).skip(1) == steps_of(doc, items, from + 1)
            },
            Some(_) => steps_of(doc, items, from) == steps_of(doc, items, from + 1),
        },
{
    if doc.resolved(items[from]) is Some {
        let object = doc.resolved(items[from])->0;
        let rest = steps_of(doc, items, from + 1);
        if object is Number || object is String {
            assert((step_of(object, from) + rest).skip(1) =~= rest);
        } else {
            assert(step_of(object, from) + rest =~= rest);
        }
    }
}

/// A number below a minimum becomes the minimum; others stay, if they can be narrowed. A positive
/// number never becomes zero.
pub proof fn lemma_minimum(number: Number, minimum: u64, narrowed_minimum: u32)
    ensures
        !double::finite(number.double) ==> bounded(number, minimum, narrowed_minimum) is None,
        double::finite(number.double) && double::rank(number.double) < double::rank(minimum)
            ==> bounded(number, minimum, narrowed_minimum) == Some(narrowed_minimum),
        double::finite(number.double) && double::rank(number.double) >= double::rank(minimum) ==> (
        bounded(number, minimum, narrowed_minimum) matches Some(value) ==> value
            == number.narrowed && single::finite(value) && (double::rank(number.double) != 0
            ==> scaled(value) > 0)),
        double::finite(number.double) && double::rank(number.double) >= double::rank(minimum)
            && single::finite(number.narrowed) && scaled(number.narrowed) > 0 ==> bounded(
            number,
            minimum,
            narrowed_minimum,
        ) == Some(number.narrowed),
{
    lemma_rank(0, number.narrowed);
    assert(single::significand(0) == 0);
}

/// Codes of caps and joins below and beyond the known ones are the first and the last one; a code
/// that is not whole is none.
pub proof fn lemma_cap_and_join(number: Number)
    ensures
        number.integer is None ==> cap_of(number) is None && join_of(number) is None,
        number.integer matches Some(code) ==> {
            &&& cap_of(number) == Some(Cap::Butt) <==> code <= 0
            &&& cap_of(number) == Some(Cap::Round) <==> code == 1
            &&& cap_of(number) == Some(Cap::Square) <==> code >= 2
            &&& join_of(number) == Some(Join::Miter) <==> code <= 0
            &&& join_of(number) == Some(Join::Round) <==> code == 1
            &&& join_of(number) == Some(Join::Bevel) <==> code >= 2
        },
{
}

/// The parameters of strokes have two letters each.
pub proof fn lemma_stroke_keys(key: Seq<u8>)
    ensures
        parameter_of(key) matches Some(parameter) ==> match parameter {
            StrokeParameter::LineWidth => key == vstd::utf8::encode_utf8("LW"@),
            StrokeParameter::LineCap => key == vstd::utf8::encode_utf8("LC"@),
            StrokeParameter::LineJoin => key == vstd::utf8::encode_utf8("LJ"@),
            StrokeParameter::MiterLimit => key == vstd::utf8::encode_utf8("ML"@),
        },
        key == vstd::utf8::encode_utf8("LW"@) || key == vstd::utf8::encode_utf8("LC"@) || key
            == vstd::utf8::encode_utf8("LJ"@) || key == vstd::utf8::encode_utf8("ML"@)
            ==> parameter_of(key) is Some,
{
}

/// The lengths of a dash array are its numbers in order. They are finite and not negative, and not
/// all of them are zero.
pub proof fn lemma_dash_lengths(doc: Document, items: Seq<MaybeRef>)
    ensures
        lengths_of(doc, items) matches Some(lengths) ==> {
            &&& lengths.len() == items.len()
            &&& forall|i: int|
                0 <= i < items.len() ==> (doc.resolved(items[i]) matches Some(
                    Object::Number(number),
                ) && #[trigger] lengths[i] == number.narrowed) && single::finite(lengths[i])
                    && scaled(lengths[i]) >= 0
            &&& lengths.len() > 0 ==> exists|i: int|
                0 <= i < lengths.len() && scaled(#[trigger] lengths[i]) > 0
        },
        items.len() == 0 ==> lengths_of(doc, items) is Some,
{
    assert(single::significand(0) == 0);
    if lengths_of(doc, items) is Some {
        let lengths = lengths_of(doc, items)->0;
        assert forall|i: int| 0 <= i < items.len() implies (doc.resolved(items[i]) matches Some(
            Object::Number(number),
        ) && #[trigger] lengths[i] == number.narrowed) && single::finite(lengths[i]) && scaled(
            lengths[i],
        ) >= 0 by {
            assert(crate::interpret::stroke::length_of(doc, items[i]) is Some);
            lemma_rank(lengths[i], 0);
        }
        if lengths.len() > 0 {
            let i = choose|i: int|
                0 <= i < lengths.len() && single::rank(#[trigger] lengths[i]) > 0;
            lemma_rank(0, lengths[i]);
            assert(scaled(lengths[i]) > 0);
        }
    } else {
        assert forall|i: int| 0 <= i < items.len() implies crate::interpret::stroke::length_of(
            doc,
            #[trigger] items[i],
        ) is Some || items.len() > 0 by {}
    }
}

/// The dash of an extended graphics state is its lengths and its phase, and nothing more.
pub proof fn lemma_dash_entry(doc: Document, array: Array)
    ensures
        dash_entry(doc, array) matches Some((lengths, phase)) ==> {
            &&& array.items@.len() == 2
            &&& doc.resolved(array.items@[0]) matches Some(Object::Array(given)) && lengths_of(
                doc,
                given.items@,
            ) == Some(lengths)
            &&& doc.resolved(array.items@[1]) matches Some(Object::Number(number)) && phase
                == number.single
            &&& single::finite(phase)
        },
{
}

/// A length that is not zero stays as it is; zero becomes a short length.
pub proof fn lemma_strokeable_length(length: u32)
    ensures
        scaled(length) != 0 ==> strokeable(length) == length,
        scaled(length) == 0 ==> scaled(strokeable(length)) > 0,
{
    assert(single::significand(0) == 0);
    lemma_rank(length, 0);
    lemma_rank(0, strokeable(length));
    assert(single::rank(0x3C23_D70A) == 0x3C23_D70A);
    assert(single::rank(0) == 0);
}

/// The lengths of the dash operator are the numbers that its array starts with, none of them zero.
pub proof fn lemma_operator_lengths(doc: Document, items: Seq<MaybeRef>)
    ensures
        operator_lengths(doc, items).len() <= items.len(),
        forall|i: int|
            0 <= i < operator_lengths(doc, items).len() ==> (doc.resolved(items[i]) matches Some(
                Object::Number(number),
            ) && #[trigger] operator_lengths(doc, items)[i] == strokeable(number.narrowed)),
        operator_lengths(doc, items).len() < items.len() ==> !(doc.resolved(
            items[operator_lengths(doc, items).len() as int],
        ) matches Some(Object::Number(_))),
{
    lemma_leading_numbers(doc, items);
    let lengths = operator_lengths(doc, items);
    assert forall|i: int| 0 <= i < lengths.len() implies (doc.resolved(items[i]) matches Some(
        Object::Number(number),
    ) && #[trigger] lengths[i] == strokeable(number.narrowed)) by {
        assert(doc.resolved(items[i]) matches Some(Object::Number(_)));
    }
}

proof fn lemma_leading_numbers(doc: Document, items: Seq<MaybeRef>)
    ensures
        leading_numbers(doc, items) <= items.len(),
        forall|i: int|
            0 <= i < leading_numbers(doc, items) ==> (doc.resolved(#[trigger] items[i]) matches Some(
                Object::Number(_),
            )),
        leading_numbers(doc, items) < items.len() ==> !(doc.resolved(
            items[leading_numbers(doc, items) as int],
        ) matches Some(Object::Number(_))),
    decreases items.len(),
{
    if items.len() > 0 && doc.resolved(items[0]) matches Some(Object::Number(_)) {
        let rest = items.skip(1);
        lemma_leading_numbers(doc, rest);
        assert forall|i: int| 0 <= i < leading_numbers(doc, items) implies (doc.resolved(
            #[trigger] items[i],
        ) matches Some(Object::Number(_))) by {
            if i > 0 {
                assert(items[i] == rest[i - 1]);
            }
        }
        let n = leading_numbers(doc, rest) as int;
        if n < rest.len() {
            assert(items[n + 1] == rest[n]);
        }
    }
}

/// Points are the same place if both of their coordinates are; undefined ones are never.
pub proof fn lemma_same_place(a: Point, b: Point)
    ensures
        same_place(a, b) == same_place(b, a),
        same_place(a, b) ==> double::rank(a.x) == double::rank(b.x) && double::rank(a.y)
            == double::rank(b.y),
        double::finite(a.x) && double::finite(a.y) && double::finite(b.x) && double::finite(b.y)
            && double::rank(a.x) == double::rank(b.x) && double::rank(a.y) == double::rank(b.y)
            ==> same_place(a, b),
        (a.x as int) % 0x8000_0000_0000_0000 > 0x7FF0_0000_0000_0000 ==> !same_place(a, b),
{
}

} // verus!
