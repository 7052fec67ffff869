//! What resolving optional content keeps.

use crate::object::{Dict, Document, MaybeRef, Object, ObjectIdentifier};
use crate::ocg::expression::{
    fits, holds, size, total_size, ExpressionModel, OptionalContentExpression,
    OptionalContentGroup,
};
use crate::ocg::resolve::{
    declared_members, declared_policy, depth_limit, entry_outcome, expression_outcome,
    group_outcome, inverts, member_outcome, members_outcome, membership_outcome, node_bytes,
    operand_outcome, operands_outcome, operator_of, optional_outcome, pay, policy_model,
    policy_outcome, resolves, stopped, OcmdPolicy, Operands, Operator, OptionalContentBudget,
    OptionalContentError, Outcome,
};
use crate::polled::added;
use vstd::prelude::*;

verus! {

/// A budget is what is left after paying for a number of nodes.
pub open spec fn spent(
    before: OptionalContentBudget,
    after: OptionalContentBudget,
    nodes: nat,
) -> bool {
    &&& before.nodes - after.nodes == nodes
    &&& before.bytes - after.bytes == nodes * node_bytes()
    &&& before.max_depth == after.max_depth
}

/// A resolved expression was paid for, and fits below a depth. Its outcome is not that the host
/// has cancelled.
pub open spec fn paid_for(before: OptionalContentBudget, outcome: Outcome, depth: int) -> bool {
    match outcome.result {
        Ok(e) => {
            &&& spent(before, outcome.budget, size(e))
            &&& fits(e, depth_limit(before) - depth)
        },
        Err(error) => error != OptionalContentError::Cancelled,
    }
}

/// Resolved operands were paid for, and fit below a depth. Their outcome is not that the host has
/// cancelled.
pub open spec fn all_paid_for(
    before: OptionalContentBudget,
    operands: Operands,
    depth: int,
    count: nat,
) -> bool {
    match operands.result {
        Ok(es) => {
            &&& es.len() == count
            &&& spent(before, operands.budget, total_size(es, es.len()))
            &&& forall|i: int|
                0 <= i < es.len() ==> fits(#[trigger] es[i], depth_limit(before) - depth)
        },
        Err(error) => error != OptionalContentError::Cancelled,
    }
}

proof fn lemma_prefix_size(es: Seq<ExpressionModel>, e: ExpressionModel, count: nat)
    requires
        count <= es.len(),
    ensures
        total_size(es.push(e), count) == total_size(es, count),
    decreases count,
{
    if count > 0 {
        lemma_prefix_size(es, e, (count - 1) as nat);
        assert(es.push(e)[count - 1] == es[count - 1]);
    }
}

proof fn lemma_push_size(es: Seq<ExpressionModel>, e: ExpressionModel)
    ensures
        total_size(es.push(e), es.push(e).len()) == total_size(es, es.len()) + size(e),
{
    lemma_prefix_size(es, e, es.len());
    assert(es.push(e)[es.len() as int] == e);
}

proof fn lemma_spent_twice(
    a: OptionalContentBudget,
    b: OptionalContentBudget,
    c: OptionalContentBudget,
    m: nat,
    n: nat,
)
    requires
        spent(a, b, m),
        spent(b, c, n),
    ensures
        spent(a, c, m + n),
{
    assert((m + n) * node_bytes() == m * node_bytes() + n * node_bytes()) by (nonlinear_arith);
}

proof fn lemma_pay(budget: OptionalContentBudget, depth: int)
    ensures
        pay(budget, depth).result is Ok ==> spent(budget, pay(budget, depth).budget, 1) && depth
            < depth_limit(budget),
{
    assert(1 * node_bytes() == node_bytes());
}

proof fn lemma_list(es: Seq<ExpressionModel>, levels: int)
    requires
        levels > 0,
        forall|i: int| 0 <= i < es.len() ==> fits(#[trigger] es[i], levels - 1),
    ensures
        fits(ExpressionModel::All(es), levels),
        fits(ExpressionModel::Any(es), levels),
        size(ExpressionModel::All(es)) == 1 + total_size(es, es.len()),
        size(ExpressionModel::Any(es)) == 1 + total_size(es, es.len()),
{
    assert(ExpressionModel::All(es)->All_0 == es);
    assert(ExpressionModel::Any(es)->Any_0 == es);
}

proof fn lemma_member(
    doc: Document,
    item: MaybeRef,
    policy: OcmdPolicy,
    depth: int,
    budget: OptionalContentBudget,
)
    ensures
        paid_for(budget, member_outcome(doc, item, policy, depth, budget), depth + 1),
{
    if let MaybeRef::Ref(id) = item {
        if inverts(policy) {
            lemma_pay(budget, depth + 1);
            let paid = pay(budget, depth + 1);
            lemma_pay(paid.budget, depth + 2);
            let g = group_outcome(id, depth + 2, paid.budget);
            if paid.result is Ok && g.result is Ok {
                lemma_spent_twice(budget, paid.budget, g.budget, 1, 1);
                let e = ExpressionModel::Not(Box::new(g.result->Ok_0));
                assert(size(g.result->Ok_0) == 1);
                assert(size(e) == 2);
                assert(fits(g.result->Ok_0, depth_limit(budget) - depth - 2));
                assert(fits(e, depth_limit(budget) - depth - 1));
            }
        } else {
            lemma_pay(budget, depth + 1);
        }
    }
}

proof fn lemma_members(
    doc: Document,
    items: Seq<MaybeRef>,
    policy: OcmdPolicy,
    depth: int,
    budget: OptionalContentBudget,
    count: nat,
)
    ensures
        all_paid_for(
            budget,
            members_outcome(doc, items, policy, depth, budget, count),
            depth + 1,
            count,
        ),
    decreases count,
{
    if count > 0 {
        lemma_members(doc, items, policy, depth, budget, (count - 1) as nat);
        let before = members_outcome(doc, items, policy, depth, budget, (count - 1) as nat);
        if let Ok(es) = before.result {
            lemma_member(doc, items[count - 1], policy, depth, before.budget);
            let next = member_outcome(doc, items[count - 1], policy, depth, before.budget);
            if let Ok(e) = next.result {
                lemma_push_size(es, e);
                lemma_spent_twice(
                    budget,
                    before.budget,
                    next.budget,
                    total_size(es, es.len()),
                    size(e),
                );
            }
        }
    } else {
        assert(0 * node_bytes() == 0);
    }
}

proof fn lemma_policy(doc: Document, dict: Dict, depth: int, budget: OptionalContentBudget)
    ensures
        paid_for(budget, policy_outcome(doc, dict, depth, budget), depth),
{
    lemma_pay(budget, depth);
    let paid = pay(budget, depth);
    if paid.result is Ok && declared_policy(doc, dict) is Some && declared_members(
        doc,
        dict,
    ) is Some {
        let policy = declared_policy(doc, dict)->0;
        let items = declared_members(doc, dict)->0;
        lemma_members(doc, items, policy, depth, paid.budget, items.len());
        let all = members_outcome(doc, items, policy, depth, paid.budget, items.len());
        if let Ok(es) = all.result {
            lemma_list(es, depth_limit(budget) - depth);
            lemma_spent_twice(budget, paid.budget, all.budget, 1, total_size(es, es.len()));
        }
    }
}

proof fn lemma_operand(
    doc: Document,
    value: MaybeRef,
    depth: int,
    budget: OptionalContentBudget,
    active: Seq<ObjectIdentifier>,
)
    ensures
        paid_for(budget, operand_outcome(doc, value, depth, budget, active), depth),
    decreases 65 - depth, 3nat, 0nat,
{
    match value {
        MaybeRef::NotRef(Object::Array(array)) => {
            lemma_expression(doc, array.items@, depth, budget, active);
        },
        MaybeRef::NotRef(_) => {},
        MaybeRef::Ref(id) => {
            match doc.object(id) {
                Some(Object::Array(array)) => {
                    lemma_expression(doc, array.items@, depth, budget, active.push(id));
                },
                Some(Object::Dict(dict)) => {
                    lemma_membership(doc, dict, Some(id), depth, budget, active.push(id));
                },
                _ => {},
            }
        },
    }
}

proof fn lemma_operands(
    doc: Document,
    items: Seq<MaybeRef>,
    operator: Operator,
    depth: int,
    budget: OptionalContentBudget,
    active: Seq<ObjectIdentifier>,
    count: nat,
)
    ensures
        all_paid_for(
            budget,
            operands_outcome(doc, items, operator, depth, budget, active, count),
            depth,
            count,
        ),
    decreases 65 - depth, 4nat, count,
{
    if count > 0 {
        lemma_operands(doc, items, operator, depth, budget, active, (count - 1) as nat);
        let before = operands_outcome(
            doc,
            items,
            operator,
            depth,
            budget,
            active,
            (count - 1) as nat,
        );
        if let Ok(es) = before.result {
            lemma_operand(doc, items[count as int], depth, before.budget, active);
            let next = operand_outcome(doc, items[count as int], depth, before.budget, active);
            if let Ok(e) = next.result {
                lemma_push_size(es, e);
                lemma_spent_twice(
                    budget,
                    before.budget,
                    next.budget,
                    total_size(es, es.len()),
                    size(e),
                );
            }
        }
    } else {
        assert(0 * node_bytes() == 0);
    }
}

proof fn lemma_expression(
    doc: Document,
    items: Seq<MaybeRef>,
    depth: int,
    budget: OptionalContentBudget,
    active: Seq<ObjectIdentifier>,
)
    ensures
        paid_for(budget, expression_outcome(doc, items, depth, budget, active), depth),
    decreases 65 - depth, 1nat, 0nat,
{
    lemma_pay(budget, depth);
    let paid = pay(budget, depth);
    if paid.result is Ok {
        if let Some(operator) = operator_of(items) {
            let count = (items.len() - 1) as nat;
            lemma_operands(doc, items, operator, depth + 1, paid.budget, active, count);
            let all = operands_outcome(
                doc,
                items,
                operator,
                depth + 1,
                paid.budget,
                active,
                count,
            );
            if let Ok(es) = all.result {
                let levels = depth_limit(budget) - depth;
                lemma_list(es, levels);
                lemma_spent_twice(budget, paid.budget, all.budget, 1, total_size(es, es.len()));
                if operator == Operator::Not && es.len() > 0 {
                    if es.len() > 1 {
                        lemma_not_once(
                            doc,
                            items,
                            depth + 1,
                            paid.budget,
                            active,
                            count,
                        );
                    }
                    assert(es.len() == 1);
                    assert(total_size(es, 0) == 0);
                    assert(total_size(es, 1) == size(es[0]));
                    let e = ExpressionModel::Not(Box::new(es.last()));
                    assert(fits(es[0], levels - 1));
                    assert(fits(e, levels));
                    assert(size(e) == 1 + size(es[0]));
                }
            }
        }
    }
}

/// A negation has at most one operand.
proof fn lemma_not_once(
    doc: Document,
    items: Seq<MaybeRef>,
    depth: int,
    budget: OptionalContentBudget,
    active: Seq<ObjectIdentifier>,
    count: nat,
)
    requires
        count > 1,
    ensures
        operands_outcome(doc, items, Operator::Not, depth, budget, active, count).result is Err,
{
}

proof fn lemma_membership(
    doc: Document,
    dict: Dict,
    id: Option<ObjectIdentifier>,
    depth: int,
    budget: OptionalContentBudget,
    active: Seq<ObjectIdentifier>,
)
    ensures
        paid_for(budget, membership_outcome(doc, dict, id, depth, budget, active), depth),
    decreases 65 - depth, 2nat, 0nat,
{
    lemma_pay(budget, depth);
    lemma_policy(doc, dict, depth, budget);
    match doc.value(dict, "VE"@) {
        Some(Object::Array(array)) => {
            lemma_expression(doc, array.items@, depth, budget, active);
        },
        _ => {},
    }
}

/// Resolving optional content is cancelled if and only if the host has asked to stop.
pub proof fn lemma_cancelled_by_host(
    dictionary: Dict,
    doc: Document,
    before: OptionalContentBudget,
    after: OptionalContentBudget,
    asked_before: Seq<bool>,
    asked_after: Seq<bool>,
    result: Result<Option<OptionalContentExpression>, OptionalContentError>,
)
    requires
        resolves(dictionary, doc, before, after, asked_before, asked_after, result),
    ensures
        (result matches Err(OptionalContentError::Cancelled)) <==> added(
            asked_before,
            asked_after,
        ).contains(true),
{
    let asked = added(asked_before, asked_after);
    if stopped(asked_before, asked_after, optional_outcome(dictionary, doc, before).1, after) {
        assert(asked[asked.len() - 1]);
    } else {
        assert forall|i: int| 0 <= i < asked.len() implies !#[trigger] asked[i] by {
            assert(!asked_after[asked_before.len() + i]);
        }
        match doc.value(dictionary, "OC"@) {
            Some(Object::Dict(membership)) => {
                let reference = match dictionary.raw("OC"@) {
                    Some(MaybeRef::Ref(id)) => Some(id),
                    _ => None,
                };
                lemma_entry_paid_for(doc, membership, reference, before);
            },
            _ => {},
        }
    }
}

/// A resolved expression costs exactly its nodes, and is no deeper than the budget allows. What
/// resolves to no expression is not for that cancelled.
pub proof fn lemma_entry_paid_for(
    doc: Document,
    dict: Dict,
    reference: Option<ObjectIdentifier>,
    budget: OptionalContentBudget,
)
    ensures
        entry_outcome(doc, dict, reference, budget).result matches Ok(e) ==> {
            &&& spent(budget, entry_outcome(doc, dict, reference, budget).budget, size(e))
            &&& fits(e, depth_limit(budget))
        },
        entry_outcome(doc, dict, reference, budget).result matches Err(error) ==> error
            != OptionalContentError::Cancelled,
{
    match reference {
        Some(id) => {
            lemma_membership(doc, dict, reference, 0, budget, seq![id]);
        },
        None => {
            lemma_membership(doc, dict, reference, 0, budget, Seq::empty());
        },
    }
}

/// The operands of a policy for groups.
pub open spec fn policy_operands(
    policy: OcmdPolicy,
    groups: Seq<OptionalContentGroup>,
) -> Seq<ExpressionModel> {
    Seq::new(
        groups.len(),
        |i: int|
            if inverts(policy) {
                ExpressionModel::Not(Box::new(ExpressionModel::Group(groups[i])))
            } else {
                ExpressionModel::Group(groups[i])
            },
    )
}

/// A policy makes content visible exactly as its name says; with no groups content is visible.
pub proof fn lemma_policy_visibility(
    policy: OcmdPolicy,
    groups: Seq<OptionalContentGroup>,
    on: spec_fn(OptionalContentGroup) -> bool,
)
    ensures
        holds(policy_model(policy, policy_operands(policy, groups)), on) == (groups.len() == 0
            || match policy {
            OcmdPolicy::AllOn => forall|i: int| 0 <= i < groups.len() ==> on(#[trigger] groups[i]),
            OcmdPolicy::AnyOn => exists|i: int| 0 <= i < groups.len() && on(#[trigger] groups[i]),
            OcmdPolicy::AnyOff => exists|i: int|
                0 <= i < groups.len() && !on(#[trigger] groups[i]),
            OcmdPolicy::AllOff => forall|i: int|
                0 <= i < groups.len() ==> !on(#[trigger] groups[i]),
        }),
{
    let operands = policy_operands(policy, groups);
    assert(ExpressionModel::All(operands)->All_0 == operands);
    assert(ExpressionModel::Any(operands)->Any_0 == operands);
    assert forall|i: int| 0 <= i < groups.len() implies holds(#[trigger] operands[i], on) == (on(
        groups[i],
    ) != inverts(policy)) by {
        reveal_with_fuel(holds, 2);
    }
    if holds(policy_model(policy, operands), on) {
        assert forall|i: int| 0 <= i < groups.len() && (policy == OcmdPolicy::AllOn || policy
            == OcmdPolicy::AllOff) implies on(#[trigger] groups[i]) != inverts(policy) by {
            assert(holds(operands[i], on));
        }
        if groups.len() > 0 && (policy == OcmdPolicy::AnyOn || policy == OcmdPolicy::AnyOff) {
            let i = choose|i: int| 0 <= i < operands.len() && holds(#[trigger] operands[i], on);
            assert(on(groups[i]) != inverts(policy));
        }
    } else {
        if policy == OcmdPolicy::AnyOn || policy == OcmdPolicy::AnyOff {
            assert forall|i: int| 0 <= i < groups.len() implies on(#[trigger] groups[i]) == inverts(
                policy,
            ) by {
                assert(!holds(operands[i], on));
            }
        } else {
            let i = choose|i: int| 0 <= i < operands.len() && !holds(#[trigger] operands[i], on);
            assert(on(groups[i]) == inverts(policy));
        }
    }
}

/// The groups of a membership dictionary become the operands of its policy, in order.
pub proof fn lemma_members_are_groups(
    doc: Document,
    items: Seq<MaybeRef>,
    policy: OcmdPolicy,
    depth: int,
    budget: OptionalContentBudget,
    count: nat,
)
    requires
        count <= items.len(),
        members_outcome(doc, items, policy, depth, budget, count).result is Ok,
    ensures
        forall|i: int| 0 <= i < count ==> (#[trigger] items[i]) is Ref,
        members_outcome(doc, items, policy, depth, budget, count).result->Ok_0 == policy_operands(
            policy,
            Seq::new(
                count,
                |i: int|
                    OptionalContentGroup {
                        object_number: items[i]->Ref_0.obj_number,
                        generation_number: items[i]->Ref_0.gen_number,
                        initially_visible: true,
                    },
            ),
        ),
    decreases count,
{
    if count > 0 {
        lemma_members_are_groups(doc, items, policy, depth, budget, (count - 1) as nat);
    }
    let groups = Seq::new(
        count,
        |i: int|
            OptionalContentGroup {
                object_number: items[i]->Ref_0.obj_number,
                generation_number: items[i]->Ref_0.gen_number,
                initially_visible: true,
            },
    );
    assert(members_outcome(doc, items, policy, depth, budget, count).result->Ok_0
        =~= policy_operands(policy, groups));
}

} // verus!
