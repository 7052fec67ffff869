//! What holds of resolving memberships.

use crate::object::{Dict, Document, MaybeRef, Object, ObjectIdentifier};
use crate::ocg::expression::{ExpressionModel, OptionalContentExpression};
use crate::ocg::resolve::{
    declared_members, declared_policy, depth_limit, entry_error, entry_outcome, expression_outcome,
    group_outcome, is_group, is_resolved, member_outcome, membership_outcome, node_bytes,
    operand_outcome, operands_outcome, operator_of, optional_outcome, pay, policy_model,
    policy_named, policy_outcome, OcmdPolicy, Operator, OptionalContentBudget,
    OptionalContentError, Outcome,
};
use vstd::prelude::*;

verus! {

/// An object is the name with a text.
pub open spec fn is_name(object: Option<Object>, text: Seq<char>) -> bool {
    object matches Some(Object::Name(name)) && name@ == vstd::utf8::encode_utf8(text)
}

/// A node costs one node and its bytes, and the host is asked once. It is refused at the greatest
/// depth, without a node or without the bytes, in this order; only what was counted is gone then.
pub proof fn lemma_paid(budget: OptionalContentBudget, depth: int)
    ensures
        depth_limit(budget) <= 64,
        depth_limit(budget) <= budget.max_depth,
        depth_limit(budget) == 64 || depth_limit(budget) == budget.max_depth,
        pay(budget, depth).looks == seq![budget],
        pay(budget, depth).budget.max_depth == budget.max_depth,
        depth >= depth_limit(budget) ==> pay(budget, depth).result == Err::<
            (),
            OptionalContentError,
        >(OptionalContentError::DepthLimit) && pay(budget, depth).budget == budget,
        depth < depth_limit(budget) && budget.nodes == 0 ==> pay(budget, depth).result == Err::<
            (),
            OptionalContentError,
        >(OptionalContentError::NodeLimit) && pay(budget, depth).budget == budget,
        depth < depth_limit(budget) && budget.nodes > 0 ==> {
            let paid = pay(budget, depth);
            &&& paid.budget.nodes == budget.nodes - 1
            &&& budget.bytes < node_bytes() ==> paid.result == Err::<(), OptionalContentError>(
                OptionalContentError::ByteLimit,
            ) && paid.budget.bytes == budget.bytes
            &&& budget.bytes >= node_bytes() ==> paid.result is Ok && paid.budget.bytes
                + node_bytes() == budget.bytes
        },
{
}

/// A reference is not followed without nodes or bytes, nor while it is being followed already.
pub proof fn lemma_reference_followed(
    budget: OptionalContentBudget,
    active: Seq<ObjectIdentifier>,
    id: ObjectIdentifier,
)
    ensures
        budget.nodes == 0 ==> entry_error(budget, active, id) == Some(
            OptionalContentError::NodeLimit,
        ),
        budget.nodes > 0 && budget.bytes < vstd::layout::size_of::<ObjectIdentifier>()
            ==> entry_error(budget, active, id) == Some(OptionalContentError::ByteLimit),
        budget.nodes > 0 && budget.bytes >= vstd::layout::size_of::<ObjectIdentifier>() ==> (
        entry_error(budget, active, id) is Some <==> exists|i: int|
            0 <= i < active.len() && #[trigger] active[i] == id),
        entry_error(budget, active.push(id), id) is Some,
{
    assert(active.push(id)[active.len() as int] == id);
    assert(active.push(id).contains(id));
}

/// A group is one object: its number is above zero, its generation is not negative, and it is on
/// until the catalog says otherwise.
pub proof fn lemma_group_resolved(id: ObjectIdentifier, depth: int, budget: OptionalContentBudget)
    requires
        pay(budget, depth).result is Ok,
    ensures
        id.obj_number > 0 && id.gen_number >= 0 ==> (group_outcome(
            id,
            depth,
            budget,
        ).result matches Ok(ExpressionModel::Group(group)) && group.object_number == id.obj_number
            && group.generation_number == id.gen_number && group.initially_visible),
        id.obj_number <= 0 || id.gen_number < 0 ==> group_outcome(id, depth, budget).result
            == Err::<ExpressionModel, OptionalContentError>(
            OptionalContentError::InvalidMembership,
        ),
        group_outcome(id, depth, budget).budget == pay(budget, depth).budget,
{
}

/// A member is a reference to a group; a policy that asks for groups that are off negates it.
pub proof fn lemma_member(
    doc: Document,
    id: ObjectIdentifier,
    object: Object,
    policy: OcmdPolicy,
    depth: int,
    budget: OptionalContentBudget,
)
    ensures
        member_outcome(doc, MaybeRef::NotRef(object), policy, depth, budget).result == Err::<
            ExpressionModel,
            OptionalContentError,
        >(OptionalContentError::InvalidMembership),
        is_group(doc, id) <==> (doc.object(id) matches Some(Object::Dict(dict)) && is_name(
            doc.value(dict, "Type"@),
            "OCG"@,
        )),
        !is_group(doc, id) ==> member_outcome(
            doc,
            MaybeRef::Ref(id),
            policy,
            depth,
            budget,
        ).result == Err::<ExpressionModel, OptionalContentError>(
            OptionalContentError::InvalidMembership,
        ),
        member_outcome(doc, MaybeRef::Ref(id), policy, depth, budget).result matches Ok(member)
            ==> match policy {
            OcmdPolicy::AllOn | OcmdPolicy::AnyOn => member matches ExpressionModel::Group(group)
                && group.object_number == id.obj_number && group.generation_number
                == id.gen_number,
            OcmdPolicy::AllOff | OcmdPolicy::AnyOff => member matches ExpressionModel::Not(inner)
                && (*inner matches ExpressionModel::Group(group) && group.object_number
                == id.obj_number && group.generation_number == id.gen_number),
        },
{
}

/// Without a policy it is that any group is on. A policy that is not known is none.
pub proof fn lemma_declared_policy(doc: Document, dict: Dict)
    ensures
        dict.raw("P"@) is None ==> declared_policy(doc, dict) == Some(OcmdPolicy::AnyOn),
        doc.value(dict, "P"@) matches Some(Object::Name(name)) ==> declared_policy(doc, dict)
            == policy_named(name@),
        dict.raw("P"@) is Some && !(doc.value(dict, "P"@) matches Some(Object::Name(_)))
            ==> declared_policy(doc, dict) is None,
{
}

/// The members of a membership are the items of its array, or the one that it refers to; without
/// an entry there are none.
pub proof fn lemma_declared_members(doc: Document, dict: Dict, id: ObjectIdentifier)
    ensures
        doc.value(dict, "OCGs"@) matches Some(Object::Array(array)) ==> declared_members(doc, dict)
            == Some(array.items@),
        dict.raw("OCGs"@) == Some(MaybeRef::Ref(id)) && !(doc.object(id) matches Some(
            Object::Array(_),
        )) ==> declared_members(doc, dict) == Some(seq![MaybeRef::Ref(id)]),
        dict.raw("OCGs"@) is None ==> declared_members(doc, dict) == Some(
            Seq::<MaybeRef>::empty(),
        ),
        dict.raw("OCGs"@) matches Some(MaybeRef::NotRef(object)) ==> !(object is Array)
            ==> declared_members(doc, dict) is None,
{
}

/// Policies for all groups need all members, those for any group need one.
pub proof fn lemma_policy_model(policy: OcmdPolicy, members: Seq<ExpressionModel>)
    ensures
        policy_model(policy, members) == ExpressionModel::All(members) || policy_model(
            policy,
            members,
        ) == ExpressionModel::Any(members),
        members.len() > 0 ==> (policy_model(policy, members) is Any <==> policy is AnyOn
            || policy is AnyOff),
        members.len() == 0 ==> policy_model(policy, members) is All,
{
}

/// An expression starts with the name of its operator.
pub proof fn lemma_operator_named(items: Seq<MaybeRef>, name: Vec<u8>)
    ensures
        items.len() == 0 ==> operator_of(items) is None,
        items.len() > 0 ==> (operator_of(items) matches Some(operator) ==> (
        items[0] matches MaybeRef::NotRef(object) && is_name(
            Some(object),
            match operator {
                Operator::And => "And"@,
                Operator::Or => "Or"@,
                Operator::Not => "Not"@,
            },
        ))),
        items.len() > 0 && items[0] == MaybeRef::NotRef(Object::Name(name)) && (name@
            == vstd::utf8::encode_utf8("And"@) || name@ == vstd::utf8::encode_utf8("Or"@) || name@
            == vstd::utf8::encode_utf8("Not"@)) ==> operator_of(items) is Some,
{
}

/// An expression of `And` needs all of its operands, one of `Or` any of them, and one of `Not` has
/// a single operand, which must not hold. There is no expression without operands.
pub proof fn lemma_expression_resolved(
    doc: Document,
    items: Seq<MaybeRef>,
    depth: int,
    budget: OptionalContentBudget,
    active: Seq<ObjectIdentifier>,
)
    ensures
        expression_outcome(doc, items, depth, budget, active).result matches Ok(e) ==> {
            let paid = pay(budget, depth);
            &&& paid.result is Ok
            &&& items.len() >= 2
            &&& operator_of(items) matches Some(operator)
            &&& operands_outcome(
                doc,
                items,
                operator,
                depth + 1,
                paid.budget,
                active,
                (items.len() - 1) as nat,
            ).result matches Ok(operands)
            &&& operands.len() == items.len() - 1
            &&& match operator {
                Operator::And => e == ExpressionModel::All(operands),
                Operator::Or => e == ExpressionModel::Any(operands),
                Operator::Not => operands.len() == 1 && (e matches ExpressionModel::Not(inner)
                    && *inner == operands[0]),
            }
        },
        operator_of(items) is None ==> expression_outcome(
            doc,
            items,
            depth,
            budget,
            active,
        ).result is Err,
{
    let paid = pay(budget, depth);
    if paid.result is Ok && operator_of(items) is Some {
        let operator = operator_of(items)->0;
        lemma_operands_counted(
            doc,
            items,
            operator,
            depth + 1,
            paid.budget,
            active,
            (items.len() - 1) as nat,
        );
    }
}

proof fn lemma_operands_counted(
    doc: Document,
    items: Seq<MaybeRef>,
    operator: Operator,
    depth: int,
    budget: OptionalContentBudget,
    active: Seq<ObjectIdentifier>,
    count: nat,
)
    ensures
        operands_outcome(doc, items, operator, depth, budget, active, count).result matches Ok(all)
            ==> all.len() == count && (operator is Not ==> count <= 1),
    decreases count,
{
    if count > 0 {
        lemma_operands_counted(doc, items, operator, depth, budget, active, (count - 1) as nat);
    }
}

/// Operands are resolved in order, each with what is left of the budget, and the first failure
/// ends it.
pub proof fn lemma_operands_in_order(
    doc: Document,
    items: Seq<MaybeRef>,
    operator: Operator,
    depth: int,
    budget: OptionalContentBudget,
    active: Seq<ObjectIdentifier>,
    count: nat,
)
    requires
        !(operator is Not),
    ensures
        ({
            let before = operands_outcome(doc, items, operator, depth, budget, active, count);
            let after = operands_outcome(doc, items, operator, depth, budget, active, count + 1);
            let next = operand_outcome(doc, items[count as int + 1], depth, before.budget, active);
            &&& before.result is Err ==> after == before
            &&& before.result matches Ok(operands) ==> match next.result {
                Ok(e) => after.result == Ok::<Seq<ExpressionModel>, OptionalContentError>(
                    operands.push(e),
                ) && after.budget == next.budget,
                Err(error) => after.result == Err::<Seq<ExpressionModel>, OptionalContentError>(
                    error,
                ) && after.budget == next.budget,
            }
        }),
        operands_outcome(doc, items, operator, depth, budget, active, 0).result matches Ok(none)
            && none.len() == 0,
{
}

/// An operand is an expression or a reference to one, or a reference to a group or a membership,
/// which is being followed from then on.
pub proof fn lemma_operand_resolved(
    doc: Document,
    value: MaybeRef,
    id: ObjectIdentifier,
    depth: int,
    budget: OptionalContentBudget,
    active: Seq<ObjectIdentifier>,
)
    ensures
        value matches MaybeRef::NotRef(Object::Array(array)) ==> operand_outcome(
            doc,
            value,
            depth,
            budget,
            active,
        ) == expression_outcome(doc, array.items@, depth, budget, active),
        value matches MaybeRef::NotRef(object) ==> !(object is Array) ==> operand_outcome(
            doc,
            value,
            depth,
            budget,
            active,
        ).result == Err::<ExpressionModel, OptionalContentError>(
            OptionalContentError::InvalidExpression,
        ),
        value == MaybeRef::Ref(id) && depth < depth_limit(budget) ==> {
            let outcome = operand_outcome(doc, value, depth, budget, active);
            match entry_error(budget, active, id) {
                Some(error) => outcome.result == Err::<ExpressionModel, OptionalContentError>(
                    error,
                ) && outcome.budget == budget,
                None => match doc.object(id) {
                    Some(Object::Array(array)) => outcome.result == expression_outcome(
                        doc,
                        array.items@,
                        depth,
                        budget,
                        active.push(id),
                    ).result,
                    Some(Object::Dict(dict)) => outcome.result == membership_outcome(
                        doc,
                        dict,
                        Some(id),
                        depth,
                        budget,
                        active.push(id),
                    ).result,
                    _ => outcome.result == Err::<ExpressionModel, OptionalContentError>(
                        OptionalContentError::InvalidMembership,
                    ),
                },
            }
        },
{
}

/// A group stands for itself if it is referred to. The visibility expression of a membership goes
/// before its policy, even if it is malformed. Anything else is no membership.
pub proof fn lemma_membership_resolved(
    doc: Document,
    dict: Dict,
    id: ObjectIdentifier,
    depth: int,
    budget: OptionalContentBudget,
    active: Seq<ObjectIdentifier>,
)
    ensures
        ({
            let outcome = membership_outcome(doc, dict, Some(id), depth, budget, active);
            let group = is_name(doc.value(dict, "Type"@), "OCG"@);
            let membership = is_name(doc.value(dict, "Type"@), "OCMD"@);
            &&& group ==> outcome == group_outcome(id, depth, budget)
            &&& group ==> membership_outcome(doc, dict, None, depth, budget, active).result
                == Err::<ExpressionModel, OptionalContentError>(
                OptionalContentError::InvalidMembership,
            )
            &&& !group && membership && dict.raw("VE"@) is None ==> outcome == policy_outcome(
                doc,
                dict,
                depth,
                budget,
            )
            &&& !group && membership && dict.raw("VE"@) is Some ==> match doc.value(dict, "VE"@) {
                Some(Object::Array(array)) => outcome == expression_outcome(
                    doc,
                    array.items@,
                    depth,
                    budget,
                    active,
                ),
                _ => outcome.result == Err::<ExpressionModel, OptionalContentError>(
                    OptionalContentError::InvalidExpression,
                ),
            }
            &&& !group && !membership ==> outcome.result == Err::<
                ExpressionModel,
                OptionalContentError,
            >(OptionalContentError::InvalidMembership) && outcome.budget == budget
        }),
{
}

/// A policy is about its members; one that is malformed is refused before its members are.
pub proof fn lemma_policy_resolved(
    doc: Document,
    dict: Dict,
    depth: int,
    budget: OptionalContentBudget,
)
    requires
        pay(budget, depth).result is Ok,
    ensures
        declared_policy(doc, dict) is None ==> policy_outcome(doc, dict, depth, budget).result
            == Err::<ExpressionModel, OptionalContentError>(
            OptionalContentError::InvalidExpression,
        ),
        declared_policy(doc, dict) is Some && declared_members(doc, dict) is None
            ==> policy_outcome(doc, dict, depth, budget).result == Err::<
            ExpressionModel,
            OptionalContentError,
        >(OptionalContentError::InvalidMembership),
        declared_policy(doc, dict) is Some && (declared_members(doc, dict) matches Some(none)
            && none.len() == 0) ==> (policy_outcome(doc, dict, depth, budget).result matches Ok(
            ExpressionModel::All(members),
        ) && members.len() == 0),
{
}

/// Optional content counts only if the dictionary has it and the catalog declares it; then its
/// entry has to be a dictionary. The host is asked first in any case.
pub proof fn lemma_optional_content(
    dictionary: Dict,
    doc: Document,
    catalog: Dict,
    budget: OptionalContentBudget,
)
    ensures
        dictionary.raw("OC"@) is None ==> optional_outcome(dictionary, doc, budget).0 is None,
        doc.object(doc.root) == Some(Object::Dict(catalog)) && catalog.raw("OCProperties"@) is None
            ==> optional_outcome(dictionary, doc, budget).0 is None,
        dictionary.raw("OC"@) is Some && doc.object(doc.root) == Some(Object::Dict(catalog))
            && catalog.raw("OCProperties"@) is Some ==> match doc.value(dictionary, "OC"@) {
            Some(Object::Dict(membership)) => optional_outcome(
                dictionary,
                doc,
                budget,
            ).0 matches Some(outcome) && outcome == entry_outcome(
                doc,
                membership,
                match dictionary.raw("OC"@) {
                    Some(MaybeRef::Ref(id)) => Some(id),
                    _ => None,
                },
                budget,
            ),
            _ => optional_outcome(dictionary, doc, budget).0 matches Some(outcome)
                && outcome.result == Err::<ExpressionModel, OptionalContentError>(
                OptionalContentError::InvalidMembership,
            ),
        },
        optional_outcome(dictionary, doc, budget).1.len() >= 1,
        optional_outcome(dictionary, doc, budget).1[0] == budget,
{
}

/// An entry is followed from the outermost level, with its own reference if it has one.
pub proof fn lemma_entry_followed(
    doc: Document,
    dict: Dict,
    id: ObjectIdentifier,
    budget: OptionalContentBudget,
)
    ensures
        entry_outcome(doc, dict, None, budget) == membership_outcome(
            doc,
            dict,
            None,
            0,
            budget,
            Seq::empty(),
        ),
        entry_error(budget, Seq::empty(), id) is None ==> entry_outcome(
            doc,
            dict,
            Some(id),
            budget,
        ).result == membership_outcome(doc, dict, Some(id), 0, budget, seq![id]).result,
        entry_error(budget, Seq::empty(), id) matches Some(error) ==> entry_outcome(
            doc,
            dict,
            Some(id),
            budget,
        ).result == Err::<ExpressionModel, OptionalContentError>(error),
{
}

/// Where the host goes on at each look, the result is the outcome. Where it stops, the result is
/// that it was cancelled, and nothing is looked at any more.
pub proof fn lemma_resolved(
    before: Seq<bool>,
    after: Seq<bool>,
    result: Result<OptionalContentExpression, OptionalContentError>,
    budget: OptionalContentBudget,
    outcome: Outcome,
)
    requires
        is_resolved(before, after, result, budget, outcome),
    ensures
        before.len() <= after.len() <= before.len() + outcome.looks.len(),
        forall|i: int| 0 <= i < before.len() ==> #[trigger] after[i] == before[i],
        forall|i: int| before.len() <= i < after.len() - 1 ==> !#[trigger] after[i],
        after.len() > before.len() && after.last() ==> result is Err && result->Err_0
            == OptionalContentError::Cancelled && budget == outcome.looks[after.len() - before.len()
            - 1],
        after.len() == before.len() || !after.last() ==> {
            &&& after.len() == before.len() + outcome.looks.len()
            &&& budget == outcome.budget
            &&& result is Ok <==> outcome.result is Ok
            &&& result is Ok ==> result->Ok_0@ == outcome.result->Ok_0
            &&& result is Err ==> result->Err_0 == outcome.result->Err_0
        },
{
    assert forall|i: int| 0 <= i < before.len() implies #[trigger] after[i] == before[i] by {
        assert(after.subrange(0, before.len() as int)[i] == before[i]);
    }
}

/// A node is charged for itself, for the growth of a vector, and for a reference.
pub proof fn lemma_node_charge()
    ensures
        node_bytes() >= vstd::layout::size_of::<ObjectIdentifier>(),
        (node_bytes() - vstd::layout::size_of::<ObjectIdentifier>()) / 4 == vstd::layout::size_of::<
            OptionalContentExpression,
        >(),
        (node_bytes() - vstd::layout::size_of::<ObjectIdentifier>()) % 4 == 0,
{
}

} // verus!
