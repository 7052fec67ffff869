//! Resolving optional-content entries into owned expressions.

use crate::object::{
    has_name, is_named, spelled, spells, Array, Dict, Document, MaybeRef, Object, ObjectIdentifier,
};
use crate::ocg::expression::{
    lemma_models, models, ExpressionModel, OptionalContentExpression, OptionalContentGroup,
};
use crate::polled::{is_polled_more, lemma_polled_more, Polled};
use vstd::prelude::*;

verus! {

/// The greatest depth of a visibility expression.
pub const MAX_VISIBILITY_EXPRESSION_DEPTH: u32 = 64;

/// Remaining work for owned optional-content expressions. Reuse one budget
/// across annotations so repeated references cannot multiply the allowance.
#[derive(Clone, Copy, Debug, PartialEq, Eq, Structural)]
pub struct OptionalContentBudget {
    /// Remaining visited expression nodes, including repeated references.
    pub nodes: u64,
    /// Remaining temporary and owned expression bytes.
    pub bytes: u64,
    /// Maximum expression depth, additionally capped at 64 for stack safety.
    pub max_depth: u32,
}

impl Default for OptionalContentBudget {
    fn default() -> (budget: Self)
        ensures
            budget.nodes == 65_536,
            budget.bytes == 64 * 1024 * 1024,
            budget.max_depth == 64,
    {
        OptionalContentBudget { nodes: 65_536, bytes: 64 * 1024 * 1024, max_depth: 64 }
    }
}

/// An optional-content entry could not be retained exactly.
#[derive(Clone, Copy, Debug, PartialEq, Eq, Structural)]
#[non_exhaustive]
pub enum OptionalContentError {
    /// Missing, unresolved, wrongly typed, or cyclic membership data.
    InvalidMembership,
    /// Invalid policy name or visibility-expression operator/operands.
    InvalidExpression,
    /// The expression exceeds the host's nesting allowance.
    DepthLimit,
    /// Aggregate expression work exceeds the host's node allowance.
    NodeLimit,
    /// Aggregate storage exceeds its allowance.
    ByteLimit,
    /// The host cancelled resolution.
    Cancelled,
}

/// When a membership dictionary's groups make it visible.
#[derive(Clone, Copy, Debug, PartialEq, Eq, Structural)]
pub enum OcmdPolicy {
    AllOn,
    AnyOn,
    AnyOff,
    AllOff,
}

/// The policy with a name.
pub open spec fn policy_named(name: Seq<u8>) -> Option<OcmdPolicy> {
    if spelled(name, "AllOn"@) {
        Some(OcmdPolicy::AllOn)
    } else if spelled(name, "AnyOn"@) {
        Some(OcmdPolicy::AnyOn)
    } else if spelled(name, "AnyOff"@) {
        Some(OcmdPolicy::AnyOff)
    } else if spelled(name, "AllOff"@) {
        Some(OcmdPolicy::AllOff)
    } else {
        None
    }
}

impl OcmdPolicy {
    /// The policy with a name.
    pub fn from_name(name: &[u8]) -> (policy: Option<Self>)
        ensures
            policy == policy_named(name@),
    {
        if spells(name, "AllOn") {
            Some(OcmdPolicy::AllOn)
        } else if spells(name, "AnyOn") {
            Some(OcmdPolicy::AnyOn)
        } else if spells(name, "AnyOff") {
            Some(OcmdPolicy::AnyOff)
        } else if spells(name, "AllOff") {
            Some(OcmdPolicy::AllOff)
        } else {
            None
        }
    }
}

/// The policy asks for groups that are off.
pub open spec fn inverts(policy: OcmdPolicy) -> bool {
    policy == OcmdPolicy::AnyOff || policy == OcmdPolicy::AllOff
}

/// What a resolution gives, and what is left of the budget.
pub struct Outcome {
    pub result: Result<ExpressionModel, OptionalContentError>,
    pub budget: OptionalContentBudget,
    /// What was left of the budget whenever the host was asked whether to stop.
    pub looks: Seq<OptionalContentBudget>,
}

/// What a list of operands gives, and what is left of the budget.
pub struct Operands {
    pub result: Result<Seq<ExpressionModel>, OptionalContentError>,
    pub budget: OptionalContentBudget,
    /// What was left of the budget whenever the host was asked whether to stop.
    pub looks: Seq<OptionalContentBudget>,
}

/// What paying for a node gives, and what is left of the budget.
pub struct Payment {
    pub result: Result<(), OptionalContentError>,
    pub budget: OptionalContentBudget,
    /// What was left of the budget whenever the host was asked whether to stop.
    pub looks: Seq<OptionalContentBudget>,
}

/// The bytes that a node is charged: room for growing vectors, boxes and the converted expression
/// of the host, and for a reference.
pub open spec fn node_bytes() -> nat {
    4 * vstd::layout::size_of::<OptionalContentExpression>() + vstd::layout::size_of::<
        ObjectIdentifier,
    >()
}

/// The depth at which expressions are refused.
pub open spec fn depth_limit(budget: OptionalContentBudget) -> int {
    if budget.max_depth < MAX_VISIBILITY_EXPRESSION_DEPTH {
        budget.max_depth as int
    } else {
        MAX_VISIBILITY_EXPRESSION_DEPTH as int
    }
}

/// Pay for a node at a depth. The host is asked first.
pub open spec fn pay(budget: OptionalContentBudget, depth: int) -> Payment {
    let looks = seq![budget];
    if depth >= depth_limit(budget) {
        Payment { result: Err(OptionalContentError::DepthLimit), budget, looks }
    } else if budget.nodes == 0 {
        Payment { result: Err(OptionalContentError::NodeLimit), budget, looks }
    } else {
        let counted = OptionalContentBudget { nodes: (budget.nodes - 1) as u64, ..budget };
        if budget.bytes < node_bytes() {
            Payment { result: Err(OptionalContentError::ByteLimit), budget: counted, looks }
        } else {
            Payment {
                result: Ok(()),
                budget: OptionalContentBudget {
                    bytes: (budget.bytes - node_bytes()) as u64,
                    ..counted
                },
                looks,
            }
        }
    }
}

/// An outcome after the host was asked before.
pub open spec fn after_looks(looks: Seq<OptionalContentBudget>, outcome: Outcome) -> Outcome {
    Outcome { looks: looks + outcome.looks, ..outcome }
}

/// An outcome without another question to the host.
pub open spec fn refused(error: OptionalContentError, budget: OptionalContentBudget) -> Outcome {
    Outcome { result: Err(error), budget, looks: Seq::empty() }
}

/// Whether a reference may be followed.
pub open spec fn entry_error(
    budget: OptionalContentBudget,
    active: Seq<ObjectIdentifier>,
    id: ObjectIdentifier,
) -> Option<OptionalContentError> {
    if budget.nodes == 0 {
        Some(OptionalContentError::NodeLimit)
    } else if budget.bytes < vstd::layout::size_of::<ObjectIdentifier>() {
        Some(OptionalContentError::ByteLimit)
    } else if active.contains(id) {
        Some(OptionalContentError::InvalidMembership)
    } else {
        None
    }
}

/// A group, visible until the state of the catalog is applied.
pub open spec fn group_model(id: ObjectIdentifier) -> ExpressionModel {
    ExpressionModel::Group(
        OptionalContentGroup {
            object_number: id.obj_number,
            generation_number: id.gen_number,
            initially_visible: true,
        },
    )
}

/// What a group gives.
pub open spec fn group_outcome(
    id: ObjectIdentifier,
    depth: int,
    budget: OptionalContentBudget,
) -> Outcome {
    let paid = pay(budget, depth);
    Outcome {
        result: match paid.result {
            Err(error) => Err(error),
            Ok(_) => if id.obj_number <= 0 || id.gen_number < 0 {
                Err(OptionalContentError::InvalidMembership)
            } else {
                Ok(group_model(id))
            },
        },
        budget: paid.budget,
        looks: paid.looks,
    }
}

/// An identifier leads to a group.
pub open spec fn is_group(doc: Document, id: ObjectIdentifier) -> bool {
    doc.object(id) matches Some(Object::Dict(dict)) && is_named(doc.value(dict, "Type"@), "OCG"@)
}

/// What a group of a membership dictionary gives.
pub open spec fn member_outcome(
    doc: Document,
    item: MaybeRef,
    policy: OcmdPolicy,
    depth: int,
    budget: OptionalContentBudget,
) -> Outcome {
    match item {
        MaybeRef::Ref(id) => if !is_group(doc, id) {
            refused(OptionalContentError::InvalidMembership, budget)
        } else if inverts(policy) {
            let paid = pay(budget, depth + 1);
            match paid.result {
                Err(error) => after_looks(paid.looks, refused(error, paid.budget)),
                Ok(_) => {
                    let group = group_outcome(id, depth + 2, paid.budget);
                    Outcome {
                        result: match group.result {
                            Err(error) => Err(error),
                            Ok(e) => Ok(ExpressionModel::Not(Box::new(e))),
                        },
                        budget: group.budget,
                        looks: paid.looks + group.looks,
                    }
                },
            }
        } else {
            group_outcome(id, depth + 1, budget)
        },
        MaybeRef::NotRef(_) => refused(OptionalContentError::InvalidMembership, budget),
    }
}

/// What the first `count` groups of a membership dictionary give.
pub open spec fn members_outcome(
    doc: Document,
    items: Seq<MaybeRef>,
    policy: OcmdPolicy,
    depth: int,
    budget: OptionalContentBudget,
    count: nat,
) -> Operands
    decreases count,
{
    if count == 0 {
        Operands { result: Ok(Seq::empty()), budget, looks: Seq::empty() }
    } else {
        let before = members_outcome(doc, items, policy, depth, budget, (count - 1) as nat);
        match before.result {
            Err(_) => before,
            Ok(members) => with_operand(
                before,
                members,
                member_outcome(doc, items[count - 1], policy, depth, before.budget),
            ),
        }
    }
}

/// Operands and another one.
pub open spec fn with_operand(
    before: Operands,
    operands: Seq<ExpressionModel>,
    operand: Outcome,
) -> Operands {
    Operands {
        result: match operand.result {
            Err(error) => Err(error),
            Ok(e) => Ok(operands.push(e)),
        },
        budget: operand.budget,
        looks: before.looks + operand.looks,
    }
}

/// The policy of a membership dictionary, unless it is malformed.
pub open spec fn declared_policy(doc: Document, dict: Dict) -> Option<OcmdPolicy> {
    match doc.value(dict, "P"@) {
        Some(Object::Name(name)) => policy_named(name@),
        _ => if dict.has("P"@) {
            None
        } else {
            Some(OcmdPolicy::AnyOn)
        },
    }
}

/// The groups of a membership dictionary, unless they are malformed.
pub open spec fn declared_members(doc: Document, dict: Dict) -> Option<Seq<MaybeRef>> {
    match doc.value(dict, "OCGs"@) {
        Some(Object::Array(array)) => Some(array.items@),
        _ => match dict.raw("OCGs"@) {
            Some(MaybeRef::Ref(id)) => Some(seq![MaybeRef::Ref(id)]),
            Some(MaybeRef::NotRef(_)) => None,
            None => Some(Seq::empty()),
        },
    }
}

/// The expression of a policy for groups; no groups never hide anything.
pub open spec fn policy_model(policy: OcmdPolicy, members: Seq<ExpressionModel>) -> ExpressionModel {
    if members.len() == 0 || policy == OcmdPolicy::AllOn || policy == OcmdPolicy::AllOff {
        ExpressionModel::All(members)
    } else {
        ExpressionModel::Any(members)
    }
}

/// What the policy of a membership dictionary gives.
pub open spec fn policy_outcome(
    doc: Document,
    dict: Dict,
    depth: int,
    budget: OptionalContentBudget,
) -> Outcome {
    let paid = pay(budget, depth);
    after_looks(
        paid.looks,
        match paid.result {
            Err(error) => refused(error, paid.budget),
            Ok(_) => match declared_policy(doc, dict) {
                None => refused(OptionalContentError::InvalidExpression, paid.budget),
                Some(policy) => match declared_members(doc, dict) {
                    None => refused(OptionalContentError::InvalidMembership, paid.budget),
                    Some(items) => {
                        let members = members_outcome(
                            doc,
                            items,
                            policy,
                            depth,
                            paid.budget,
                            items.len(),
                        );
                        Outcome {
                            result: match members.result {
                                Err(error) => Err(error),
                                Ok(operands) => Ok(policy_model(policy, operands)),
                            },
                            budget: members.budget,
                            looks: members.looks,
                        }
                    },
                },
            },
        },
    )
}

/// The operators of visibility expressions.
#[derive(Clone, Copy, Debug, PartialEq, Eq, Structural)]
pub enum Operator {
    And,
    Or,
    Not,
}

/// The operator that an expression starts with.
pub open spec fn operator_of(items: Seq<MaybeRef>) -> Option<Operator> {
    if items.len() == 0 {
        None
    } else {
        match items[0] {
            MaybeRef::NotRef(Object::Name(name)) => if spelled(name@, "And"@) {
                Some(Operator::And)
            } else if spelled(name@, "Or"@) {
                Some(Operator::Or)
            } else if spelled(name@, "Not"@) {
                Some(Operator::Not)
            } else {
                None
            },
            _ => None,
        }
    }
}

/// What an operand gives. The host is asked before a reference is followed.
pub open spec fn operand_outcome(
    doc: Document,
    value: MaybeRef,
    depth: int,
    budget: OptionalContentBudget,
    active: Seq<ObjectIdentifier>,
) -> Outcome
    decreases 65 - depth, 3nat, 0nat,
{
    match value {
        MaybeRef::NotRef(Object::Array(array)) => expression_outcome(
            doc,
            array.items@,
            depth,
            budget,
            active,
        ),
        MaybeRef::NotRef(_) => refused(OptionalContentError::InvalidExpression, budget),
        MaybeRef::Ref(id) => if depth >= depth_limit(budget) {
            refused(OptionalContentError::DepthLimit, budget)
        } else {
            after_looks(
                seq![budget],
                match entry_error(budget, active, id) {
                    Some(error) => refused(error, budget),
                    None => match doc.object(id) {
                        Some(Object::Array(array)) => expression_outcome(
                            doc,
                            array.items@,
                            depth,
                            budget,
                            active.push(id),
                        ),
                        Some(Object::Dict(dict)) => membership_outcome(
                            doc,
                            dict,
                            Some(id),
                            depth,
                            budget,
                            active.push(id),
                        ),
                        _ => refused(OptionalContentError::InvalidMembership, budget),
                    },
                },
            )
        },
    }
}

/// What the first `count` operands of an expression give.
pub open spec fn operands_outcome(
    doc: Document,
    items: Seq<MaybeRef>,
    operator: Operator,
    depth: int,
    budget: OptionalContentBudget,
    active: Seq<ObjectIdentifier>,
    count: nat,
) -> Operands
    decreases 65 - depth, 4nat, count,
{
    if count == 0 {
        Operands { result: Ok(Seq::empty()), budget, looks: Seq::empty() }
    } else {
        let before = operands_outcome(
            doc,
            items,
            operator,
            depth,
            budget,
            active,
            (count - 1) as nat,
        );
        match before.result {
            Err(_) => before,
            Ok(operands) => if operator == Operator::Not && count > 1 {
                Operands { result: Err(OptionalContentError::InvalidExpression), ..before }
            } else {
                with_operand(
                    before,
                    operands,
                    operand_outcome(doc, items[count as int], depth, before.budget, active),
                )
            },
        }
    }
}

/// What a visibility expression gives.
pub open spec fn expression_outcome(
    doc: Document,
    items: Seq<MaybeRef>,
    depth: int,
    budget: OptionalContentBudget,
    active: Seq<ObjectIdentifier>,
) -> Outcome
    decreases 65 - depth, 1nat, 0nat,
{
    let paid = pay(budget, depth);
    after_looks(
        paid.looks,
        match paid.result {
            Err(error) => refused(error, paid.budget),
            Ok(_) => match operator_of(items) {
                None => refused(OptionalContentError::InvalidExpression, paid.budget),
                Some(operator) => {
                    let all = operands_outcome(
                        doc,
                        items,
                        operator,
                        depth + 1,
                        paid.budget,
                        active,
                        (items.len() - 1) as nat,
                    );
                    Outcome {
                        result: match all.result {
                            Err(error) => Err(error),
                            Ok(operands) => if operands.len() == 0 {
                                Err(OptionalContentError::InvalidExpression)
                            } else {
                                Ok(
                                    match operator {
                                        Operator::And => ExpressionModel::All(operands),
                                        Operator::Or => ExpressionModel::Any(operands),
                                        Operator::Not => ExpressionModel::Not(
                                            Box::new(operands.last()),
                                        ),
                                    },
                                )
                            },
                        },
                        budget: all.budget,
                        looks: all.looks,
                    }
                },
            },
        },
    )
}

/// What a group or membership dictionary gives.
///
/// A visibility expression takes precedence over a policy.
pub open spec fn membership_outcome(
    doc: Document,
    dict: Dict,
    id: Option<ObjectIdentifier>,
    depth: int,
    budget: OptionalContentBudget,
    active: Seq<ObjectIdentifier>,
) -> Outcome
    decreases 65 - depth, 2nat, 0nat,
{
    if is_named(doc.value(dict, "Type"@), "OCG"@) {
        match id {
            None => refused(OptionalContentError::InvalidMembership, budget),
            Some(id) => group_outcome(id, depth, budget),
        }
    } else if is_named(doc.value(dict, "Type"@), "OCMD"@) {
        if dict.has("VE"@) {
            match doc.value(dict, "VE"@) {
                Some(Object::Array(array)) => expression_outcome(
                    doc,
                    array.items@,
                    depth,
                    budget,
                    active,
                ),
                _ => refused(OptionalContentError::InvalidExpression, budget),
            }
        } else {
            policy_outcome(doc, dict, depth, budget)
        }
    } else {
        refused(OptionalContentError::InvalidMembership, budget)
    }
}

/// What the dictionary behind an optional-content entry gives.
pub open spec fn entry_outcome(
    doc: Document,
    dict: Dict,
    reference: Option<ObjectIdentifier>,
    budget: OptionalContentBudget,
) -> Outcome {
    match reference {
        Some(id) => after_looks(
            seq![budget],
            match entry_error(budget, Seq::empty(), id) {
                Some(error) => refused(error, budget),
                None => membership_outcome(doc, dict, reference, 0, budget, seq![id]),
            },
        ),
        None => membership_outcome(doc, dict, reference, 0, budget, Seq::empty()),
    }
}

/// The catalog declares optional content.
pub open spec fn declares_optional_content(doc: Document) -> bool {
    doc.object(doc.root) matches Some(Object::Dict(catalog)) && catalog.has("OCProperties"@)
}

/// The host was asked whether to stop at all looks, and has gone on.
pub open spec fn went_on(
    before: Seq<bool>,
    after: Seq<bool>,
    looks: Seq<OptionalContentBudget>,
) -> bool {
    &&& before.is_prefix_of(after)
    &&& after.len() == before.len() + looks.len()
    &&& forall|i: int| before.len() <= i < after.len() ==> !#[trigger] after[i]
}

/// The host was asked whether to stop at the first looks, and has stopped at the last of them,
/// with what was left of the budget there.
pub open spec fn stopped(
    before: Seq<bool>,
    after: Seq<bool>,
    looks: Seq<OptionalContentBudget>,
    budget: OptionalContentBudget,
) -> bool {
    let asked = after.len() - before.len();
    &&& before.is_prefix_of(after)
    &&& 0 < asked <= looks.len()
    &&& forall|i: int| before.len() <= i < after.len() - 1 ==> !#[trigger] after[i]
    &&& after.last()
    &&& budget == looks[asked - 1]
}

/// Looks follow each other.
proof fn lemma_looks(
    before: Seq<bool>,
    between: Seq<bool>,
    after: Seq<bool>,
    looks: Seq<OptionalContentBudget>,
    more: Seq<OptionalContentBudget>,
)
    requires
        went_on(before, between, looks),
    ensures
        went_on(between, after, more) ==> went_on(before, after, looks + more),
        forall|budget: OptionalContentBudget| #[trigger]
            stopped(between, after, more, budget) ==> stopped(
                before,
                after,
                looks + more,
                budget,
            ),
{
    if between.is_prefix_of(after) {
        assert forall|i: int| 0 <= i < between.len() implies #[trigger] after[i]
            == between[i] by {
            assert(after.subrange(0, between.len() as int)[i] == between[i]);
        }
        assert(before =~= after.subrange(0, before.len() as int)) by {
            assert(before =~= between.subrange(0, before.len() as int));
        }
    }
}

/// Where the host stops, looks behind do not matter. There may be none.
proof fn lemma_early(
    before: Seq<bool>,
    after: Seq<bool>,
    looks: Seq<OptionalContentBudget>,
    more: Seq<OptionalContentBudget>,
    budget: OptionalContentBudget,
)
    ensures
        stopped(before, after, looks, budget) ==> stopped(before, after, looks + more, budget),
        looks + Seq::<OptionalContentBudget>::empty() == looks,
{
    assert(looks + Seq::<OptionalContentBudget>::empty() =~= looks);
    if stopped(before, after, looks, budget) {
        assert(looks.is_prefix_of(looks + more)) by {
            assert((looks + more).subrange(0, looks.len() as int) =~= looks);
        }
        lemma_stopped(before, after, looks, looks + more, budget);
    }
}

/// Where the host stops, further looks do not matter.
proof fn lemma_stopped(
    before: Seq<bool>,
    after: Seq<bool>,
    looks: Seq<OptionalContentBudget>,
    all: Seq<OptionalContentBudget>,
    budget: OptionalContentBudget,
)
    requires
        stopped(before, after, looks, budget),
        looks.is_prefix_of(all),
    ensures
        stopped(before, after, all, budget),
{
    let last = after.len() - before.len() - 1;
    assert(all[last] == looks[last]);
}

/// A result and a budget are the given outcome.
pub open spec fn is_outcome(
    result: Result<OptionalContentExpression, OptionalContentError>,
    budget: OptionalContentBudget,
    outcome: Outcome,
) -> bool {
    &&& budget == outcome.budget
    &&& match (result, outcome.result) {
        (Ok(expression), Ok(e)) => expression@ == e,
        (Err(error), Err(expected)) => error == expected,
        _ => false,
    }
}

/// A result and a budget are the given outcome, unless the host has stopped.
pub open spec fn is_resolved(
    before: Seq<bool>,
    after: Seq<bool>,
    result: Result<OptionalContentExpression, OptionalContentError>,
    budget: OptionalContentBudget,
    outcome: Outcome,
) -> bool {
    ||| went_on(before, after, outcome.looks) && is_outcome(result, budget, outcome)
    ||| stopped(before, after, outcome.looks, budget) && result == Err::<
        OptionalContentExpression,
        OptionalContentError,
    >(OptionalContentError::Cancelled)
}

/// Pay for a node.
fn charge<F: Fn() -> bool>(
    budget: &mut OptionalContentBudget,
    cancelled: &mut Polled<F>,
    depth: u32,
) -> (result: Result<(), OptionalContentError>)
    ensures
        is_polled_more(*old(cancelled), *final(cancelled)),
        ({
            let paid = pay(*old(budget), depth as int);
            let before = old(cancelled).answers();
            let after = final(cancelled).answers();
            ||| went_on(before, after, paid.looks) && result == paid.result && *final(budget)
                == paid.budget
            ||| stopped(before, after, paid.looks, *final(budget)) && result == Err::<
                (),
                OptionalContentError,
            >(OptionalContentError::Cancelled)
        }),
{
    if cancelled.poll() {
        return Err(OptionalContentError::Cancelled);
    }
    let limit: u32 = if budget.max_depth < MAX_VISIBILITY_EXPRESSION_DEPTH {
        budget.max_depth
    } else {
        MAX_VISIBILITY_EXPRESSION_DEPTH
    };
    if depth >= limit {
        return Err(OptionalContentError::DepthLimit);
    }
    if budget.nodes == 0 {
        return Err(OptionalContentError::NodeLimit);
    }
    budget.nodes = budget.nodes - 1;
    let cost: u128 = 4 * core::mem::size_of::<OptionalContentExpression>() as u128
        + core::mem::size_of::<ObjectIdentifier>() as u128;
    if (budget.bytes as u128) < cost {
        return Err(OptionalContentError::ByteLimit);
    }
    budget.bytes = (budget.bytes as u128 - cost) as u64;
    Ok(())
}

/// Whether an identifier is being resolved already.
fn is_active(active: &Vec<ObjectIdentifier>, id: ObjectIdentifier) -> (found: bool)
    ensures
        found == active@.contains(id),
{
    let mut i: usize = 0;
    while i < active.len()
        invariant
            i <= active@.len(),
            forall|k: int| 0 <= k < i ==> active@[k] != id,
        decreases active@.len() - i,
    {
        if active[i] == id {
            return true;
        }
        i = i + 1;
    }
    false
}

/// Follow a reference.
fn enter_reference<F: Fn() -> bool>(
    budget: &OptionalContentBudget,
    cancelled: &mut Polled<F>,
    active: &mut Vec<ObjectIdentifier>,
    id: ObjectIdentifier,
) -> (result: Result<(), OptionalContentError>)
    ensures
        is_polled_more(*old(cancelled), *final(cancelled)),
        ({
            let before = old(cancelled).answers();
            let after = final(cancelled).answers();
            ||| went_on(before, after, seq![*budget]) && match entry_error(
                *budget,
                old(active)@,
                id,
            ) {
                Some(error) => result == Err::<(), OptionalContentError>(error),
                None => {
                    &&& result == Ok::<(), OptionalContentError>(())
                    &&& final(active)@ == old(active)@.push(id)
                },
            }
            ||| stopped(before, after, seq![*budget], *budget) && result == Err::<
                (),
                OptionalContentError,
            >(OptionalContentError::Cancelled)
        }),
        result is Err ==> final(active)@ == old(active)@,
{
    if cancelled.poll() {
        return Err(OptionalContentError::Cancelled);
    }
    if budget.nodes == 0 {
        return Err(OptionalContentError::NodeLimit);
    }
    if budget.bytes < core::mem::size_of::<ObjectIdentifier>() as u64 {
        return Err(OptionalContentError::ByteLimit);
    }
    if is_active(active, id) {
        return Err(OptionalContentError::InvalidMembership);
    }
    active.push(id);
    Ok(())
}

/// Resolve a group.
fn group<F: Fn() -> bool>(
    budget: &mut OptionalContentBudget,
    cancelled: &mut Polled<F>,
    id: ObjectIdentifier,
    depth: u32,
) -> (result: Result<OptionalContentExpression, OptionalContentError>)
    ensures
        is_polled_more(*old(cancelled), *final(cancelled)),
        is_resolved(
            old(cancelled).answers(),
            final(cancelled).answers(),
            result,
            *final(budget),
            group_outcome(id, depth as int, *old(budget)),
        ),
{
    match charge(budget, cancelled, depth) {
        Err(error) => {
            return Err(error);
        },
        Ok(()) => {},
    }
    if id.obj_number <= 0 || id.gen_number < 0 {
        return Err(OptionalContentError::InvalidMembership);
    }
    Ok(
        OptionalContentExpression::Group(
            OptionalContentGroup {
                object_number: id.obj_number,
                generation_number: id.gen_number,
                initially_visible: true,
            },
        ),
    )
}

/// Resolve a group of a membership dictionary.
fn member<F: Fn() -> bool>(
    doc: &Document,
    budget: &mut OptionalContentBudget,
    cancelled: &mut Polled<F>,
    item: &MaybeRef,
    policy: OcmdPolicy,
    depth: u32,
) -> (result: Result<OptionalContentExpression, OptionalContentError>)
    requires
        depth < 64,
    ensures
        is_polled_more(*old(cancelled), *final(cancelled)),
        is_resolved(
            old(cancelled).answers(),
            final(cancelled).answers(),
            result,
            *final(budget),
            member_outcome(*doc, *item, policy, depth as int, *old(budget)),
        ),
{
    let id = match item {
        MaybeRef::Ref(id) => *id,
        MaybeRef::NotRef(_) => {
            return Err(OptionalContentError::InvalidMembership);
        },
    };
    let is_ocg = match doc.get(id) {
        Some(Object::Dict(dict)) => has_name(doc.lookup(dict, "Type"), "OCG"),
        _ => false,
    };
    if !is_ocg {
        return Err(OptionalContentError::InvalidMembership);
    }
    match policy {
        OcmdPolicy::AnyOff | OcmdPolicy::AllOff => {
            let ghost paid = pay(*budget, depth + 1);
            let ghost given = group_outcome(id, depth + 2, paid.budget);
            let ghost first = *cancelled;
            let charged = charge(budget, cancelled, depth + 1);
            let ghost second = *cancelled;
            match charged {
                Err(error) => {
                    proof {
                        lemma_early(
                            first.answers(),
                            second.answers(),
                            paid.looks,
                            given.looks,
                            *budget,
                        );
                    }
                    return Err(error);
                },
                Ok(()) => {},
            }
            let resolved = group(budget, cancelled, id, depth + 2);
            proof {
                lemma_polled_more(first, second, *cancelled);
                lemma_looks(
                    first.answers(),
                    second.answers(),
                    cancelled.answers(),
                    paid.looks,
                    given.looks,
                );
            }
            match resolved {
                Err(error) => Err(error),
                Ok(expression) => Ok(OptionalContentExpression::Not(Box::new(expression))),
            }
        },
        OcmdPolicy::AnyOn | OcmdPolicy::AllOn => group(budget, cancelled, id, depth + 1),
    }
}

proof fn lemma_failed_member(
    doc: Document,
    items: Seq<MaybeRef>,
    policy: OcmdPolicy,
    depth: int,
    budget: OptionalContentBudget,
    count: nat,
    more: nat,
)
    requires
        count <= more,
        members_outcome(doc, items, policy, depth, budget, count).result is Err,
    ensures
        members_outcome(doc, items, policy, depth, budget, more) == members_outcome(
            doc,
            items,
            policy,
            depth,
            budget,
            count,
        ),
    decreases more,
{
    if count < more {
        lemma_failed_member(doc, items, policy, depth, budget, count, (more - 1) as nat);
    }
}

proof fn lemma_member_looks(
    doc: Document,
    items: Seq<MaybeRef>,
    policy: OcmdPolicy,
    depth: int,
    budget: OptionalContentBudget,
    count: nat,
    more: nat,
)
    requires
        count <= more,
    ensures
        members_outcome(doc, items, policy, depth, budget, count).looks.is_prefix_of(
            members_outcome(doc, items, policy, depth, budget, more).looks,
        ),
    decreases more,
{
    let looks = members_outcome(doc, items, policy, depth, budget, count).looks;
    let all = members_outcome(doc, items, policy, depth, budget, more).looks;
    if count < more {
        let fewer = (more - 1) as nat;
        lemma_member_looks(doc, items, policy, depth, budget, count, fewer);
        lemma_prefix(
            looks,
            members_outcome(doc, items, policy, depth, budget, fewer).looks,
            all,
        );
    } else {
        assert(all.subrange(0, looks.len() as int) =~= looks);
    }
}

/// What starts the start of a sequence starts the sequence.
proof fn lemma_prefix(
    a: Seq<OptionalContentBudget>,
    b: Seq<OptionalContentBudget>,
    c: Seq<OptionalContentBudget>,
)
    requires
        a.is_prefix_of(b),
        b.len() <= c.len(),
        forall|i: int| 0 <= i < b.len() ==> b[i] == c[i],
    ensures
        a.is_prefix_of(c),
{
    assert forall|i: int| 0 <= i < a.len() implies #[trigger] a[i] == c[i] by {
        assert(b.subrange(0, a.len() as int)[i] == b[i]);
    }
    assert(c.subrange(0, a.len() as int) =~= a);
}

/// A list of results and a budget are the given operands.
spec fn is_operands(
    result: Result<Vec<OptionalContentExpression>, OptionalContentError>,
    budget: OptionalContentBudget,
    operands: Operands,
) -> bool {
    &&& budget == operands.budget
    &&& match (result, operands.result) {
        (Ok(list), Ok(expected)) => models(list@) == expected,
        (Err(error), Err(expected)) => error == expected,
        _ => false,
    }
}

/// A list of results and a budget are the given operands, unless the host has stopped.
spec fn are_resolved(
    before: Seq<bool>,
    after: Seq<bool>,
    result: Result<Vec<OptionalContentExpression>, OptionalContentError>,
    budget: OptionalContentBudget,
    operands: Operands,
) -> bool {
    ||| went_on(before, after, operands.looks) && is_operands(result, budget, operands)
    ||| stopped(before, after, operands.looks, budget) && result matches Err(
        OptionalContentError::Cancelled,
    )
}

/// Resolve the groups of a membership dictionary.
fn members<F: Fn() -> bool>(
    doc: &Document,
    budget: &mut OptionalContentBudget,
    cancelled: &mut Polled<F>,
    items: &Vec<MaybeRef>,
    policy: OcmdPolicy,
    depth: u32,
) -> (result: Result<Vec<OptionalContentExpression>, OptionalContentError>)
    requires
        depth < 64,
    ensures
        is_polled_more(*old(cancelled), *final(cancelled)),
        are_resolved(
            old(cancelled).answers(),
            final(cancelled).answers(),
            result,
            *final(budget),
            members_outcome(*doc, items@, policy, depth as int, *old(budget), items@.len()),
        ),
{
    let ghost start = *budget;
    let mut list: Vec<OptionalContentExpression> = Vec::new();
    let mut i: usize = 0;
    assert(models(list@) =~= Seq::empty());
    while i < items.len()
        invariant
            i <= items@.len(),
            depth < 64,
            start == *old(budget),
            is_polled_more(*old(cancelled), *cancelled),
            went_on(
                old(cancelled).answers(),
                cancelled.answers(),
                members_outcome(*doc, items@, policy, depth as int, start, i as nat).looks,
            ),
            is_operands(
                Ok(list),
                *budget,
                members_outcome(*doc, items@, policy, depth as int, start, i as nat),
            ),
        decreases items@.len() - i,
    {
        let ghost before = members_outcome(*doc, items@, policy, depth as int, start, i as nat);
        let ghost known = members_outcome(
            *doc,
            items@,
            policy,
            depth as int,
            start,
            (i + 1) as nat,
        );
        let ghost first = *cancelled;
        let ghost given = member_outcome(*doc, items@[i as int], policy, depth as int, *budget);
        let resolved = member(doc, budget, cancelled, &items[i], policy, depth);
        proof {
            lemma_polled_more(*old(cancelled), first, *cancelled);
            lemma_looks(
                old(cancelled).answers(),
                first.answers(),
                cancelled.answers(),
                before.looks,
                given.looks,
            );
        }
        match resolved {
            Err(error) => {
                proof {
                    let count = items@.len();
                    let all = members_outcome(*doc, items@, policy, depth as int, start, count);
                    lemma_member_looks(
                        *doc,
                        items@,
                        policy,
                        depth as int,
                        start,
                        (i + 1) as nat,
                        count,
                    );
                    let asked = old(cancelled).answers();
                    if stopped(asked, cancelled.answers(), known.looks, *budget) {
                        lemma_stopped(
                            asked,
                            cancelled.answers(),
                            known.looks,
                            all.looks,
                            *budget,
                        );
                    }
                    if known.result is Err {
                        lemma_failed_member(
                            *doc,
                            items@,
                            policy,
                            depth as int,
                            start,
                            (i + 1) as nat,
                            items@.len(),
                        );
                    }
                }
                return Err(error);
            },
            Ok(expression) => {
                let ghost before = list@;
                list.push(expression);
                assert(models(list@) =~= models(before).push(expression@));
            },
        }
        i = i + 1;
    }
    Ok(list)
}

/// Resolve the policy of a membership dictionary.
fn policy<F: Fn() -> bool>(
    doc: &Document,
    budget: &mut OptionalContentBudget,
    cancelled: &mut Polled<F>,
    dict: &Dict,
    depth: u32,
) -> (result: Result<OptionalContentExpression, OptionalContentError>)
    ensures
        is_polled_more(*old(cancelled), *final(cancelled)),
        is_resolved(
            old(cancelled).answers(),
            final(cancelled).answers(),
            result,
            *final(budget),
            policy_outcome(*doc, *dict, depth as int, *old(budget)),
        ),
{
    let ghost paid = pay(*budget, depth as int);
    let ghost given = policy_outcome(*doc, *dict, depth as int, *budget);
    let ghost first = *cancelled;
    let charged = charge(budget, cancelled, depth);
    let ghost second = *cancelled;
    proof {
        lemma_early(
            first.answers(),
            second.answers(),
            paid.looks,
            given.looks.skip(1),
            *budget,
        );
        assert(given.looks =~= paid.looks + given.looks.skip(1));
    }
    match charged {
        Err(error) => {
            return Err(error);
        },
        Ok(()) => {},
    }
    let declared = match doc.lookup(dict, "P") {
        Some(Object::Name(name)) => OcmdPolicy::from_name(name.as_slice()),
        _ => if dict.contains_key("P") {
            None
        } else {
            Some(OcmdPolicy::AnyOn)
        },
    };
    let policy = match declared {
        None => {
            return Err(OptionalContentError::InvalidExpression);
        },
        Some(policy) => policy,
    };
    let resolved = match doc.lookup(dict, "OCGs") {
        Some(Object::Array(array)) => members(
            doc,
            budget,
            cancelled,
            &array.items,
            policy,
            depth,
        ),
        _ => {
            let mut single: Vec<MaybeRef> = Vec::new();
            match dict.get_raw("OCGs") {
                Some(MaybeRef::Ref(id)) => {
                    single.push(MaybeRef::Ref(*id));
                },
                Some(MaybeRef::NotRef(_)) => {
                    return Err(OptionalContentError::InvalidMembership);
                },
                None => {},
            }
            assert(declared_members(*doc, *dict) == Some(single@));
            members(doc, budget, cancelled, &single, policy, depth)
        },
    };
    proof {
        lemma_polled_more(first, second, *cancelled);
        lemma_looks(
            first.answers(),
            second.answers(),
            cancelled.answers(),
            paid.looks,
            given.looks.skip(1),
        );
        let items = declared_members(*doc, *dict)->0;
        assert(given.looks.skip(1) =~= members_outcome(
            *doc,
            items,
            policy,
            depth as int,
            paid.budget,
            items.len(),
        ).looks);
    }
    match resolved {
        Err(error) => Err(error),
        Ok(list) => {
            proof {
                lemma_models(list);
            }
            if list.len() == 0 {
                return Ok(OptionalContentExpression::All(list));
            }
            match policy {
                OcmdPolicy::AllOn | OcmdPolicy::AllOff => Ok(OptionalContentExpression::All(list)),
                OcmdPolicy::AnyOn | OcmdPolicy::AnyOff => Ok(OptionalContentExpression::Any(list)),
            }
        },
    }
}

proof fn lemma_failed_operand(
    doc: Document,
    items: Seq<MaybeRef>,
    operator: Operator,
    depth: int,
    budget: OptionalContentBudget,
    active: Seq<ObjectIdentifier>,
    count: nat,
    more: nat,
)
    requires
        count <= more,
        operands_outcome(doc, items, operator, depth, budget, active, count).result is Err,
    ensures
        operands_outcome(doc, items, operator, depth, budget, active, more) == operands_outcome(
            doc,
            items,
            operator,
            depth,
            budget,
            active,
            count,
        ),
    decreases more,
{
    if count < more {
        lemma_failed_operand(
            doc,
            items,
            operator,
            depth,
            budget,
            active,
            count,
            (more - 1) as nat,
        );
    }
}

proof fn lemma_operand_looks(
    doc: Document,
    items: Seq<MaybeRef>,
    operator: Operator,
    depth: int,
    budget: OptionalContentBudget,
    active: Seq<ObjectIdentifier>,
    count: nat,
    more: nat,
)
    requires
        count <= more,
    ensures
        operands_outcome(doc, items, operator, depth, budget, active, count).looks.is_prefix_of(
            operands_outcome(doc, items, operator, depth, budget, active, more).looks,
        ),
    decreases more,
{
    let looks = operands_outcome(doc, items, operator, depth, budget, active, count).looks;
    let all = operands_outcome(doc, items, operator, depth, budget, active, more).looks;
    if count < more {
        let fewer = (more - 1) as nat;
        lemma_operand_looks(doc, items, operator, depth, budget, active, count, fewer);
        lemma_prefix(
            looks,
            operands_outcome(doc, items, operator, depth, budget, active, fewer).looks,
            all,
        );
    } else {
        assert(all.subrange(0, looks.len() as int) =~= looks);
    }
}

/// Resolve an operand of a visibility expression.
fn operand<F: Fn() -> bool>(
    doc: &Document,
    budget: &mut OptionalContentBudget,
    cancelled: &mut Polled<F>,
    active: &mut Vec<ObjectIdentifier>,
    value: &MaybeRef,
    depth: u32,
) -> (result: Result<OptionalContentExpression, OptionalContentError>)
    ensures
        final(active)@ == old(active)@,
        is_polled_more(*old(cancelled), *final(cancelled)),
        is_resolved(
            old(cancelled).answers(),
            final(cancelled).answers(),
            result,
            *final(budget),
            operand_outcome(*doc, *value, depth as int, *old(budget), old(active)@),
        ),
    decreases 65 - depth, 3nat, 0nat,
{
    match value {
        MaybeRef::NotRef(Object::Array(array)) => expression(
            doc,
            budget,
            cancelled,
            active,
            array,
            depth,
        ),
        MaybeRef::NotRef(_) => Err(OptionalContentError::InvalidExpression),
        MaybeRef::Ref(id) => {
            // The depth is checked before references are followed, including aliases.
            let limit: u32 = if budget.max_depth < MAX_VISIBILITY_EXPRESSION_DEPTH {
                budget.max_depth
            } else {
                MAX_VISIBILITY_EXPRESSION_DEPTH
            };
            if depth >= limit {
                return Err(OptionalContentError::DepthLimit);
            }
            let ghost looks = seq![*budget];
            let ghost given = operand_outcome(*doc, *value, depth as int, *budget, active@);
            let ghost first = *cancelled;
            let entered = enter_reference(budget, cancelled, active, *id);
            let ghost second = *cancelled;
            proof {
                lemma_early(
                    first.answers(),
                    second.answers(),
                    looks,
                    given.looks.skip(1),
                    *budget,
                );
                assert(given.looks =~= looks + given.looks.skip(1));
            }
            match entered {
                Err(error) => {
                    return Err(error);
                },
                Ok(()) => {},
            }
            let ghost inner = match doc.object(*id) {
                Some(Object::Array(array)) => expression_outcome(
                    *doc,
                    array.items@,
                    depth as int,
                    *budget,
                    active@,
                ),
                Some(Object::Dict(dict)) => membership_outcome(
                    *doc,
                    dict,
                    Some(*id),
                    depth as int,
                    *budget,
                    active@,
                ),
                _ => refused(OptionalContentError::InvalidMembership, *budget),
            };
            let result = match doc.get(*id) {
                Some(Object::Array(array)) => expression(
                    doc,
                    budget,
                    cancelled,
                    active,
                    array,
                    depth,
                ),
                Some(Object::Dict(dict)) => membership(
                    doc,
                    budget,
                    cancelled,
                    active,
                    dict,
                    Some(*id),
                    depth,
                ),
                _ => Err(OptionalContentError::InvalidMembership),
            };
            proof {
                assert(given == after_looks(looks, inner));
                assert(second.answers().subrange(0, second.answers().len() as int)
                    =~= second.answers());
                lemma_polled_more(first, second, *cancelled);
                lemma_looks(
                    first.answers(),
                    second.answers(),
                    cancelled.answers(),
                    looks,
                    inner.looks,
                );
            }
            let _ = active.pop();
            assert(active@ =~= old(active)@);
            result
        },
    }
}

/// The operator that an expression starts with.
fn read_operator(items: &Vec<MaybeRef>) -> (operator: Option<Operator>)
    ensures
        operator == operator_of(items@),
{
    if items.len() == 0 {
        return None;
    }
    match &items[0] {
        MaybeRef::NotRef(Object::Name(name)) => if spells(name.as_slice(), "And") {
            Some(Operator::And)
        } else if spells(name.as_slice(), "Or") {
            Some(Operator::Or)
        } else if spells(name.as_slice(), "Not") {
            Some(Operator::Not)
        } else {
            None
        },
        _ => None,
    }
}

/// Resolve the operands of a visibility expression.
fn operands<F: Fn() -> bool>(
    doc: &Document,
    budget: &mut OptionalContentBudget,
    cancelled: &mut Polled<F>,
    active: &mut Vec<ObjectIdentifier>,
    array: &Array,
    operator: Operator,
    depth: u32,
) -> (result: Result<Vec<OptionalContentExpression>, OptionalContentError>)
    requires
        array.items@.len() > 0,
        depth <= 64,
    ensures
        final(active)@ == old(active)@,
        is_polled_more(*old(cancelled), *final(cancelled)),
        are_resolved(
            old(cancelled).answers(),
            final(cancelled).answers(),
            result,
            *final(budget),
            operands_outcome(
                *doc,
                array.items@,
                operator,
                depth as int,
                *old(budget),
                old(active)@,
                (array.items@.len() - 1) as nat,
            ),
        ),
    decreases 65 - depth, 4nat, 0nat,
{
    let ghost start = *budget;
    let ghost items = array.items@;
    let mut list: Vec<OptionalContentExpression> = Vec::new();
    let mut i: usize = 1;
    assert(models(list@) =~= Seq::empty());
    while i < array.items.len()
        invariant
            1 <= i <= items.len(),
            items == array.items@,
            start == *old(budget),
            active@ == old(active)@,
            depth <= 64,
            is_polled_more(*old(cancelled), *cancelled),
            went_on(
                old(cancelled).answers(),
                cancelled.answers(),
                operands_outcome(
                    *doc,
                    items,
                    operator,
                    depth as int,
                    start,
                    active@,
                    (i - 1) as nat,
                ).looks,
            ),
            list@.len() == i - 1,
            is_operands(
                Ok(list),
                *budget,
                operands_outcome(
                    *doc,
                    items,
                    operator,
                    depth as int,
                    start,
                    active@,
                    (i - 1) as nat,
                ),
            ),
        decreases items.len() - i,
    {
        let ghost known = operands_outcome(
            *doc,
            items,
            operator,
            depth as int,
            start,
            active@,
            i as nat,
        );
        if operator == Operator::Not && list.len() > 0 {
            proof {
                lemma_failed_operand(
                    *doc,
                    items,
                    operator,
                    depth as int,
                    start,
                    active@,
                    i as nat,
                    (items.len() - 1) as nat,
                );
            }
            return Err(OptionalContentError::InvalidExpression);
        }
        let ghost before = operands_outcome(
            *doc,
            items,
            operator,
            depth as int,
            start,
            active@,
            (i - 1) as nat,
        );
        let ghost first = *cancelled;
        let ghost given = operand_outcome(*doc, items[i as int], depth as int, *budget, active@);
        let resolved = operand(doc, budget, cancelled, active, &array.items[i], depth);
        proof {
            lemma_polled_more(*old(cancelled), first, *cancelled);
            lemma_looks(
                old(cancelled).answers(),
                first.answers(),
                cancelled.answers(),
                before.looks,
                given.looks,
            );
        }
        match resolved {
            Err(error) => {
                proof {
                    let count = (items.len() - 1) as nat;
                    let all = operands_outcome(
                        *doc,
                        items,
                        operator,
                        depth as int,
                        start,
                        active@,
                        count,
                    );
                    lemma_operand_looks(
                        *doc,
                        items,
                        operator,
                        depth as int,
                        start,
                        active@,
                        i as nat,
                        count,
                    );
                    let asked = old(cancelled).answers();
                    if stopped(asked, cancelled.answers(), known.looks, *budget) {
                        lemma_stopped(
                            asked,
                            cancelled.answers(),
                            known.looks,
                            all.looks,
                            *budget,
                        );
                    }
                    if known.result is Err {
                        lemma_failed_operand(
                            *doc,
                            items,
                            operator,
                            depth as int,
                            start,
                            active@,
                            i as nat,
                            (items.len() - 1) as nat,
                        );
                    }
                }
                return Err(error);
            },
            Ok(expression) => {
                let ghost before = list@;
                list.push(expression);
                assert(models(list@) =~= models(before).push(expression@));
            },
        }
        i = i + 1;
    }
    Ok(list)
}

/// Resolve a visibility expression.
fn expression<F: Fn() -> bool>(
    doc: &Document,
    budget: &mut OptionalContentBudget,
    cancelled: &mut Polled<F>,
    active: &mut Vec<ObjectIdentifier>,
    array: &Array,
    depth: u32,
) -> (result: Result<OptionalContentExpression, OptionalContentError>)
    ensures
        final(active)@ == old(active)@,
        is_polled_more(*old(cancelled), *final(cancelled)),
        is_resolved(
            old(cancelled).answers(),
            final(cancelled).answers(),
            result,
            *final(budget),
            expression_outcome(*doc, array.items@, depth as int, *old(budget), old(active)@),
        ),
    decreases 65 - depth, 1nat, 0nat,
{
    let ghost paid = pay(*budget, depth as int);
    let ghost given = expression_outcome(*doc, array.items@, depth as int, *budget, active@);
    let ghost first = *cancelled;
    let charged = charge(budget, cancelled, depth);
    let ghost second = *cancelled;
    proof {
        lemma_early(
            first.answers(),
            second.answers(),
            paid.looks,
            given.looks.skip(1),
            *budget,
        );
        assert(given.looks =~= paid.looks + given.looks.skip(1));
    }
    match charged {
        Err(error) => {
            return Err(error);
        },
        Ok(()) => {},
    }
    let operator = match read_operator(&array.items) {
        None => {
            return Err(OptionalContentError::InvalidExpression);
        },
        Some(operator) => operator,
    };
    let resolved = operands(doc, budget, cancelled, active, array, operator, depth + 1);
    proof {
        lemma_polled_more(first, second, *cancelled);
        lemma_looks(
            first.answers(),
            second.answers(),
            cancelled.answers(),
            paid.looks,
            given.looks.skip(1),
        );
        assert(given.looks.skip(1) =~= operands_outcome(
            *doc,
            array.items@,
            operator,
            depth + 1,
            paid.budget,
            active@,
            (array.items@.len() - 1) as nat,
        ).looks);
    }
    let mut list = match resolved {
        Err(error) => {
            return Err(error);
        },
        Ok(list) => list,
    };
    if list.len() == 0 {
        return Err(OptionalContentError::InvalidExpression);
    }
    match operator {
        Operator::And => {
            proof {
                lemma_models(list);
            }
            Ok(OptionalContentExpression::All(list))
        },
        Operator::Or => {
            proof {
                lemma_models(list);
            }
            Ok(OptionalContentExpression::Any(list))
        },
        Operator::Not => {
            let ghost all = list@;
            match list.pop() {
                Some(last) => {
                    assert(models(all).last() == last@);
                    Ok(OptionalContentExpression::Not(Box::new(last)))
                },
                None => Err(OptionalContentError::InvalidExpression),
            }
        },
    }
}

/// Resolve a group or membership dictionary.
fn membership<F: Fn() -> bool>(
    doc: &Document,
    budget: &mut OptionalContentBudget,
    cancelled: &mut Polled<F>,
    active: &mut Vec<ObjectIdentifier>,
    dict: &Dict,
    id: Option<ObjectIdentifier>,
    depth: u32,
) -> (result: Result<OptionalContentExpression, OptionalContentError>)
    ensures
        final(active)@ == old(active)@,
        is_polled_more(*old(cancelled), *final(cancelled)),
        is_resolved(
            old(cancelled).answers(),
            final(cancelled).answers(),
            result,
            *final(budget),
            membership_outcome(*doc, *dict, id, depth as int, *old(budget), old(active)@),
        ),
    decreases 65 - depth, 2nat, 0nat,
{
    let kind = doc.lookup(dict, "Type");
    if has_name(kind, "OCG") {
        return match id {
            None => Err(OptionalContentError::InvalidMembership),
            Some(id) => group(budget, cancelled, id, depth),
        };
    }
    if has_name(kind, "OCMD") {
        if dict.contains_key("VE") {
            return match doc.lookup(dict, "VE") {
                Some(Object::Array(array)) => expression(
                    doc,
                    budget,
                    cancelled,
                    active,
                    array,
                    depth,
                ),
                _ => Err(OptionalContentError::InvalidExpression),
            };
        }
        return policy(doc, budget, cancelled, dict, depth);
    }
    Err(OptionalContentError::InvalidMembership)
}

/// Resolve a group or membership dictionary that stands in a document.
///
/// The result is the outcome, unless the host cancels.
pub fn resolve_membership<F: Fn() -> bool>(
    doc: &Document,
    dict: &Dict,
    reference: Option<ObjectIdentifier>,
    budget: &mut OptionalContentBudget,
    cancelled: &mut Polled<F>,
) -> (result: Result<OptionalContentExpression, OptionalContentError>)
    ensures
        is_polled_more(*old(cancelled), *final(cancelled)),
        is_resolved(
            old(cancelled).answers(),
            final(cancelled).answers(),
            result,
            *final(budget),
            entry_outcome(*doc, *dict, reference, *old(budget)),
        ),
{
    let mut active: Vec<ObjectIdentifier> = Vec::new();
    let ghost first = *cancelled;
    let ghost looks = seq![*budget];
    let ghost given = entry_outcome(*doc, *dict, reference, *budget);
    match reference {
        Some(id) => {
            let entered = enter_reference(budget, cancelled, &mut active, id);
            proof {
                lemma_early(
                    first.answers(),
                    cancelled.answers(),
                    looks,
                    given.looks.skip(1),
                    *budget,
                );
                assert(given.looks =~= looks + given.looks.skip(1));
            }
            match entered {
                Err(error) => {
                    return Err(error);
                },
                Ok(()) => {},
            }
            assert(active@ =~= seq![id]);
        },
        None => {},
    }
    let ghost second = *cancelled;
    let ghost inner = membership_outcome(*doc, *dict, reference, 0, *budget, active@);
    let result = membership(doc, budget, cancelled, &mut active, dict, reference, 0);
    proof {
        if reference is Some {
            lemma_polled_more(first, second, *cancelled);
            lemma_looks(
                first.answers(),
                second.answers(),
                cancelled.answers(),
                looks,
                inner.looks,
            );
        }
    }
    result
}

/// What the `/OC` of a dictionary gives. The host is asked first.
///
/// With no catalog `/OCProperties`, the entire entry is ignored, even if it is malformed.
pub open spec fn optional_outcome(
    dictionary: Dict,
    doc: Document,
    budget: OptionalContentBudget,
) -> (Option<Outcome>, Seq<OptionalContentBudget>) {
    let looks = seq![budget];
    if !dictionary.has("OC"@) || !declares_optional_content(doc) {
        (None, looks)
    } else {
        match doc.value(dictionary, "OC"@) {
            Some(Object::Dict(membership)) => {
                let reference = match dictionary.raw("OC"@) {
                    Some(MaybeRef::Ref(id)) => Some(id),
                    _ => None,
                };
                let outcome = entry_outcome(doc, membership, reference, budget);
                (Some(outcome), looks + outcome.looks)
            },
            _ => (Some(refused(OptionalContentError::InvalidMembership, budget)), looks),
        }
    }
}

/// What the `/OC` of a dictionary resolves to, with the answers of the host before and after.
pub open spec fn resolves(
    dictionary: Dict,
    doc: Document,
    before: OptionalContentBudget,
    after: OptionalContentBudget,
    asked_before: Seq<bool>,
    asked_after: Seq<bool>,
    result: Result<Option<OptionalContentExpression>, OptionalContentError>,
) -> bool {
    let (outcome, looks) = optional_outcome(dictionary, doc, before);
    ||| went_on(asked_before, asked_after, looks) && match (outcome, result) {
        (None, Ok(None)) => after == before,
        (Some(outcome), Ok(Some(expression))) => is_outcome(Ok(expression), after, outcome),
        (Some(outcome), Err(error)) => is_outcome(Err(error), after, outcome),
        _ => false,
    }
    ||| stopped(asked_before, asked_after, looks, after) && result matches Err(
        OptionalContentError::Cancelled,
    )
}

/// Resolve a dictionary's `/OC` into an owned expression.
///
/// Group leaves have `initially_visible = true`; the host applies its effective catalog state.
/// With no catalog `/OCProperties`, the entire entry is ignored, even if it is malformed.
pub fn resolve_optional_content<F: Fn() -> bool>(
    dictionary: &Dict,
    doc: &Document,
    budget: &mut OptionalContentBudget,
    cancelled: &mut Polled<F>,
) -> (result: Result<Option<OptionalContentExpression>, OptionalContentError>)
    ensures
        is_polled_more(*old(cancelled), *final(cancelled)),
        resolves(
            *dictionary,
            *doc,
            *old(budget),
            *final(budget),
            old(cancelled).answers(),
            final(cancelled).answers(),
            result,
        ),
{
    let ghost first = *cancelled;
    let ghost looks = seq![*budget];
    let ghost given = optional_outcome(*dictionary, *doc, *budget);
    let stop = cancelled.poll();
    let ghost second = *cancelled;
    assert(given.1 =~= looks + given.1.skip(1));
    if stop {
        proof {
            lemma_early(
                first.answers(),
                second.answers(),
                looks,
                given.1.skip(1),
                *budget,
            );
        }
        return Err(OptionalContentError::Cancelled);
    }
    assert(went_on(first.answers(), second.answers(), looks));
    let declared = match doc.get(doc.root) {
        Some(Object::Dict(catalog)) => catalog.contains_key("OCProperties"),
        _ => false,
    };
    if !dictionary.contains_key("OC") || !declared {
        return Ok(None);
    }
    let membership = match doc.lookup(dictionary, "OC") {
        Some(Object::Dict(membership)) => membership,
        _ => {
            return Err(OptionalContentError::InvalidMembership);
        },
    };
    let reference = match dictionary.get_raw("OC") {
        Some(MaybeRef::Ref(id)) => Some(*id),
        _ => None,
    };
    let ghost inner = entry_outcome(*doc, *membership, reference, *budget);
    let result = resolve_membership(doc, membership, reference, budget, cancelled);
    proof {
        lemma_polled_more(first, second, *cancelled);
        lemma_looks(
            first.answers(),
            second.answers(),
            cancelled.answers(),
            looks,
            inner.looks,
        );
    }
    match result {
        Err(error) => Err(error),
        Ok(expression) => Ok(Some(expression)),
    }
}

} // verus!
