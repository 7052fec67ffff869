//! What holds of the visibility of optional content.

use crate::object::{Dict, Document, MaybeRef, Object, ObjectIdentifier};
use crate::ocg::expression::{
    default_states, default_visible, holds, ExpressionModel, OptionalContentExpression,
    OptionalContentGroup,
};
use crate::ocg::resolve::{entry_outcome, policy_named, OcmdPolicy};
use crate::ocg::state::{
    base_state_named, entry_budget, opened, states_without, turned_off, with_states, BaseState,
    OcgState,
};
use vstd::prelude::*;

verus! {

/// A group that the default configuration turns off by name is inactive, whatever its base state
/// is and whatever it turns on.
pub proof fn lemma_off_is_inactive(
    doc: Document,
    catalog: Dict,
    properties: Dict,
    config: Dict,
    off: Seq<MaybeRef>,
    i: int,
)
    requires
        doc.value(catalog, "OCProperties"@) == Some(Object::Dict(properties)),
        doc.value(properties, "D"@) == Some(Object::Dict(config)),
        doc.value(config, "OFF"@) matches Some(Object::Array(array)) && array.items@ == off,
        0 <= i < off.len(),
        off[i] is Ref,
    ensures
        turned_off(doc, catalog, off[i]->Ref_0),
{
    let array = doc.value(config, "OFF"@)->0->Array_0;
    assert(array.items@[i] == MaybeRef::Ref(off[i]->Ref_0));
}

/// With a base state of off, a group of the document is inactive exactly if it is turned off or is
/// not turned on.
pub proof fn lemma_base_state_off(
    doc: Document,
    catalog: Dict,
    properties: Dict,
    config: Dict,
    id: ObjectIdentifier,
)
    requires
        doc.value(catalog, "OCProperties"@) == Some(Object::Dict(properties)),
        doc.value(properties, "D"@) == Some(Object::Dict(config)),
        doc.value(config, "BaseState"@) matches Some(Object::Name(name)) && name@
            == vstd::utf8::encode_utf8("OFF"@),
        refers(doc, properties, "OCGs"@, id),
    ensures
        turned_off(doc, catalog, id) == (refers(doc, config, "OFF"@, id) || !refers(
            doc,
            config,
            "ON"@,
            id,
        )),
{
    lemma_names();
    lemma_refers(doc, properties, "OCGs"@, id);
    lemma_refers(doc, config, "OFF"@, id);
    lemma_refers(doc, config, "ON"@, id);
}

/// The array of a key refers to an object.
pub open spec fn refers(doc: Document, dict: Dict, key: Seq<char>, id: ObjectIdentifier) -> bool {
    doc.value(dict, key) matches Some(Object::Array(array)) && array.items@.contains(
        MaybeRef::Ref(id),
    )
}

proof fn lemma_refers(doc: Document, dict: Dict, key: Seq<char>, id: ObjectIdentifier)
    ensures
        refers(doc, dict, key, id) == crate::ocg::state::listed(
            crate::ocg::state::array_of(doc, dict, key),
            id,
        ),
{
    match doc.value(dict, key) {
        Some(Object::Array(array)) => {
            if array.items@.contains(MaybeRef::Ref(id)) {
                let i = array.items@.index_of(MaybeRef::Ref(id));
                assert(array.items@[i] == MaybeRef::Ref(id));
            }
        },
        _ => {},
    }
}

/// A group that is not turned off by name is active, unless the base state is off and it is one of
/// the groups of the document that are not turned on.
pub proof fn lemma_active_otherwise(doc: Document, catalog: Dict, id: ObjectIdentifier)
    ensures
        match doc.value(catalog, "OCProperties"@) {
            Some(Object::Dict(properties)) => match doc.value(properties, "D"@) {
                Some(Object::Dict(config)) => {
                    &&& !refers(doc, config, "OFF"@, id) && !refers(doc, properties, "OCGs"@, id)
                        ==> !turned_off(doc, catalog, id)
                    &&& !refers(doc, config, "OFF"@, id) && refers(doc, config, "ON"@, id)
                        ==> !turned_off(doc, catalog, id)
                    &&& !refers(doc, config, "OFF"@, id) && !(doc.value(config, "BaseState"@)
                        matches Some(Object::Name(name)) && name@ == vstd::utf8::encode_utf8(
                        "OFF"@,
                    )) ==> !turned_off(doc, catalog, id)
                },
                _ => !turned_off(doc, catalog, id),
            },
            _ => !turned_off(doc, catalog, id),
        },
{
    lemma_names();
    match doc.value(catalog, "OCProperties"@) {
        Some(Object::Dict(properties)) => match doc.value(properties, "D"@) {
            Some(Object::Dict(config)) => {
                lemma_refers(doc, properties, "OCGs"@, id);
                lemma_refers(doc, config, "OFF"@, id);
                lemma_refers(doc, config, "ON"@, id);
            },
            _ => {},
        },
        _ => {},
    }
}

/// The names of base states and of policies are told apart, and no other name is one.
pub proof fn lemma_names()
    ensures
        forall|name: Seq<u8>| #[trigger]
            base_state_named(name) == Some(BaseState::Off) <==> name == vstd::utf8::encode_utf8(
                "OFF"@,
            ),
        forall|name: Seq<u8>| #[trigger]
            base_state_named(name) == Some(BaseState::On) <==> name == vstd::utf8::encode_utf8(
                "ON"@,
            ),
        forall|name: Seq<u8>| #[trigger]
            base_state_named(name) == Some(BaseState::Unchanged) <==> name
                == vstd::utf8::encode_utf8("Unchanged"@),
        forall|name: Seq<u8>| #[trigger]
            policy_named(name) == Some(OcmdPolicy::AllOn) <==> name == vstd::utf8::encode_utf8(
                "AllOn"@,
            ),
        forall|name: Seq<u8>| #[trigger]
            policy_named(name) == Some(OcmdPolicy::AnyOn) <==> name == vstd::utf8::encode_utf8(
                "AnyOn"@,
            ),
        forall|name: Seq<u8>| #[trigger]
            policy_named(name) == Some(OcmdPolicy::AllOff) <==> name == vstd::utf8::encode_utf8(
                "AllOff"@,
            ),
        forall|name: Seq<u8>| #[trigger]
            policy_named(name) == Some(OcmdPolicy::AnyOff) <==> name == vstd::utf8::encode_utf8(
                "AnyOff"@,
            ),
{
    reveal_strlit("ON");
    reveal_strlit("OFF");
    reveal_strlit("Unchanged");
    reveal_strlit("AllOn");
    reveal_strlit("AnyOn");
    reveal_strlit("AllOff");
    reveal_strlit("AnyOff");
    vstd::utf8::encode_utf8_decode_utf8("ON"@);
    vstd::utf8::encode_utf8_decode_utf8("OFF"@);
    vstd::utf8::encode_utf8_decode_utf8("Unchanged"@);
    vstd::utf8::encode_utf8_decode_utf8("AllOn"@);
    vstd::utf8::encode_utf8_decode_utf8("AnyOn"@);
    vstd::utf8::encode_utf8_decode_utf8("AllOff"@);
    vstd::utf8::encode_utf8_decode_utf8("AnyOff"@);
    assert("ON"@ != "OFF"@ && "ON"@.len() != "Unchanged"@.len() && "OFF"@.len()
        != "Unchanged"@.len());
    assert("AllOn"@[1] != "AnyOn"@[1]);
    assert("AllOff"@[1] != "AnyOff"@[1]);
}

/// An expression of all operands holds if no operand fails, one of any operand fails if no operand
/// holds, and a negation holds if its operand fails. A group holds if it is on.
pub proof fn lemma_operators(
    operands: Seq<ExpressionModel>,
    operand: ExpressionModel,
    group: OptionalContentGroup,
    on: spec_fn(OptionalContentGroup) -> bool,
)
    ensures
        holds(ExpressionModel::All(operands), on) <==> forall|i: int|
            0 <= i < operands.len() ==> holds(#[trigger] operands[i], on),
        holds(ExpressionModel::Any(operands), on) <==> exists|i: int|
            0 <= i < operands.len() && holds(#[trigger] operands[i], on),
        holds(ExpressionModel::Not(Box::new(operand)), on) <==> !holds(operand, on),
        holds(ExpressionModel::Group(group), on) <==> on(group),
        default_visible(ExpressionModel::Group(group)) == group.initially_visible,
{
    assert(ExpressionModel::All(operands)->All_0 == operands);
    assert(ExpressionModel::Any(operands)->Any_0 == operands);
}

/// By the states of a configuration a group is on exactly if it is not inactive, by both numbers
/// of its identifier.
pub proof fn lemma_group_state(inactive: Seq<ObjectIdentifier>, group: OptionalContentGroup)
    ensures
        states_without(inactive)(group) <==> forall|i: int|
            0 <= i < inactive.len() ==> {
                ||| (#[trigger] inactive[i]).obj_number != group.object_number
                ||| inactive[i].gen_number != group.generation_number
            },
{
    let id = crate::ocg::state::group_id(group);
    if inactive.contains(id) {
        let i = inactive.index_of(id);
        assert(inactive[i] == id);
    } else {
        assert forall|i: int| 0 <= i < inactive.len() implies {
            ||| (#[trigger] inactive[i]).obj_number != group.object_number
            ||| inactive[i].gen_number != group.generation_number
        } by {
            assert(inactive[i] != id);
        }
    }
}

/// Content is visible exactly if what surrounds it is, and its membership holds with the inactive
/// groups off and all others on. A membership that cannot be resolved hides nothing. Only an
/// expression is reported, and only if optional content is preserved.
pub proof fn lemma_opened_visibility(
    before: OcgState,
    after: OcgState,
    doc: Document,
    props: Dict,
    reference: Option<ObjectIdentifier>,
    expression: Option<OptionalContentExpression>,
)
    requires
        opened(before, after, doc, props, reference, expression),
    ensures
        after.visibility_stack@.len() == before.visibility_stack@.len() + 1,
        after.visibility_stack@.drop_last() == before.visibility_stack@,
        after.inactive_ocgs@ == before.inactive_ocgs@,
        ({
            let around = before.visibility_stack@.len() == 0
                || before.visibility_stack@.last().visible;
            let frame = after.visibility_stack@.last();
            match entry_outcome(doc, props, reference, entry_budget()).result {
                Ok(e) => {
                    &&& expression is Some
                    &&& frame.visible == (around && holds(
                        e,
                        |group: OptionalContentGroup|
                            !before.inactive_ocgs@.contains(
                                ObjectIdentifier {
                                    obj_number: group.object_number,
                                    gen_number: group.generation_number,
                                },
                            ),
                    ))
                    &&& frame.emit_optional_callback == before.preserve_optional_content
                },
                Err(_) => expression is None && frame.visible == around
                    && !frame.emit_optional_callback,
            }
        }),
{
    assert(after.visibility_stack@.drop_last() =~= before.visibility_stack@);
    match entry_outcome(doc, props, reference, entry_budget()).result {
        Ok(e) => {
            let on = states_without(before.inactive_ocgs@);
            crate::ocg::state::lemma_states_applied(e, on);
            let direct = |group: OptionalContentGroup|
                !before.inactive_ocgs@.contains(
                    ObjectIdentifier {
                        obj_number: group.object_number,
                        gen_number: group.generation_number,
                    },
                );
            assert(on =~= direct);
        },
        Err(_) => {},
    }
}

/// Applying states keeps the shape of an expression and the identifiers of its groups.
pub proof fn lemma_states_keep_shape(e: ExpressionModel, on: spec_fn(OptionalContentGroup) -> bool)
    ensures
        match e {
            ExpressionModel::Group(group) => {
                &&& with_states(e, on) matches ExpressionModel::Group(applied)
                &&& applied.object_number == group.object_number
                &&& applied.generation_number == group.generation_number
                &&& applied.initially_visible == on(group)
            },
            ExpressionModel::All(operands) => with_states(e, on) matches ExpressionModel::All(
                applied,
            ) && applied.len() == operands.len() && forall|i: int|
                0 <= i < operands.len() ==> #[trigger] applied[i] == with_states(operands[i], on),
            ExpressionModel::Any(operands) => with_states(e, on) matches ExpressionModel::Any(
                applied,
            ) && applied.len() == operands.len() && forall|i: int|
                0 <= i < operands.len() ==> #[trigger] applied[i] == with_states(operands[i], on),
            ExpressionModel::Not(operand) => with_states(e, on) matches ExpressionModel::Not(
                applied,
            ) && *applied == with_states(*operand, on),
        },
{
    match e {
        ExpressionModel::All(operands) => {
            assert(e->All_0 == operands);
        },
        ExpressionModel::Any(operands) => {
            assert(e->Any_0 == operands);
        },
        _ => {},
    }
}

/// Content is drawn where the innermost sequence is visible, and everywhere if optional content is
/// preserved; outside of all sequences it is visible.
pub proof fn lemma_effective(state: OcgState)
    ensures
        state.visibility_stack@.len() == 0 ==> state.effective(),
        state.visibility_stack@.len() > 0 ==> state.effective()
            == state.visibility_stack@.last().visible,
        default_states() == |group: OptionalContentGroup| group.initially_visible,
{
    assert(default_states() =~= |group: OptionalContentGroup| group.initially_visible);
}

/// Opening optional content changes neither the groups nor the mode.
pub proof fn lemma_groups_kept(
    before: OcgState,
    after: OcgState,
    doc: Document,
    props: Dict,
    reference: Option<ObjectIdentifier>,
    expression: Option<OptionalContentExpression>,
)
    requires
        opened(before, after, doc, props, reference, expression),
    ensures
        after.inactive_ocgs@ == before.inactive_ocgs@,
        after.preserve_optional_content == before.preserve_optional_content,
{
}

} // verus!
