//! Visibility expressions.

use vstd::prelude::*;

verus! {

/// A group of optional content.
#[derive(Debug, Clone, Copy, PartialEq, Eq, Structural)]
pub struct OptionalContentGroup {
    pub object_number: i32,
    pub generation_number: i32,
    /// Whether the group is visible by default.
    pub initially_visible: bool,
}

/// When optional content is visible.
#[derive(Debug, PartialEq, Eq)]
pub enum OptionalContentExpression {
    /// If a group is on.
    Group(OptionalContentGroup),
    /// If all operands are.
    All(Vec<OptionalContentExpression>),
    /// If any operand is.
    Any(Vec<OptionalContentExpression>),
    /// If the operand is not.
    Not(Box<OptionalContentExpression>),
}

/// An expression with its operands as sequences.
pub enum ExpressionModel {
    Group(OptionalContentGroup),
    All(Seq<ExpressionModel>),
    Any(Seq<ExpressionModel>),
    Not(Box<ExpressionModel>),
}

impl View for OptionalContentExpression {
    type V = ExpressionModel;

    open spec fn view(&self) -> ExpressionModel {
        model(*self)
    }
}

/// The model of an expression.
pub open spec fn model(e: OptionalContentExpression) -> ExpressionModel
    decreases e,
{
    match e {
        OptionalContentExpression::Group(group) => ExpressionModel::Group(group),
        OptionalContentExpression::All(operands) => ExpressionModel::All(
            Seq::new(
                operands@.len(),
                |i: int|
                    if 0 <= i < operands@.len() {
                        model(operands[i])
                    } else {
                        arbitrary()
                    },
            ),
        ),
        OptionalContentExpression::Any(operands) => ExpressionModel::Any(
            Seq::new(
                operands@.len(),
                |i: int|
                    if 0 <= i < operands@.len() {
                        model(operands[i])
                    } else {
                        arbitrary()
                    },
            ),
        ),
        OptionalContentExpression::Not(operand) => ExpressionModel::Not(Box::new(model(*operand))),
    }
}

/// The models of expressions.
pub open spec fn models(expressions: Seq<OptionalContentExpression>) -> Seq<ExpressionModel> {
    Seq::new(expressions.len(), |i: int| model(expressions[i]))
}

pub proof fn lemma_models(operands: Vec<OptionalContentExpression>)
    ensures
        model(OptionalContentExpression::All(operands)) == ExpressionModel::All(models(operands@)),
        model(OptionalContentExpression::Any(operands)) == ExpressionModel::Any(models(operands@)),
{
    let all = model(OptionalContentExpression::All(operands));
    let any = model(OptionalContentExpression::Any(operands));
    assert(all->All_0 =~= models(operands@));
    assert(any->Any_0 =~= models(operands@));
}

/// Whether an expression holds for given states of the groups.
pub open spec fn holds(e: ExpressionModel, on: spec_fn(OptionalContentGroup) -> bool) -> bool
    decreases e,
{
    match e {
        ExpressionModel::Group(group) => on(group),
        ExpressionModel::All(operands) => forall|i: int|
            0 <= i < operands.len() ==> holds(#[trigger] operands[i], on),
        ExpressionModel::Any(operands) => exists|i: int|
            0 <= i < operands.len() && holds(#[trigger] operands[i], on),
        ExpressionModel::Not(operand) => !holds(*operand, on),
    }
}

/// What an operand says of the expressions that it is part of.
pub proof fn lemma_operand(
    operands: Seq<ExpressionModel>,
    on: spec_fn(OptionalContentGroup) -> bool,
    i: int,
)
    requires
        0 <= i < operands.len(),
    ensures
        !holds(operands[i], on) ==> !holds(ExpressionModel::All(operands), on),
        holds(operands[i], on) ==> holds(ExpressionModel::Any(operands), on),
{
    assert(ExpressionModel::All(operands)->All_0 == operands);
    assert(ExpressionModel::Any(operands)->Any_0 == operands);
}

/// The states of the groups by default.
pub open spec fn default_states() -> spec_fn(OptionalContentGroup) -> bool {
    |group: OptionalContentGroup| group.initially_visible
}

/// Whether an expression is visible by default.
pub open spec fn default_visible(e: ExpressionModel) -> bool {
    holds(e, default_states())
}

/// Whether an expression is visible by default.
pub fn expression_is_visible(expression: &OptionalContentExpression) -> (visible: bool)
    ensures
        visible == default_visible(expression@),
    decreases *expression,
{
    match expression {
        OptionalContentExpression::Group(group) => group.initially_visible,
        OptionalContentExpression::All(operands) => {
            proof {
                lemma_models(*operands);
            }
            let ghost sequence = models(operands@);
            let mut i: usize = 0;
            while i < operands.len()
                invariant
                    i <= operands@.len(),
                    sequence == models(operands@),
                    expression == OptionalContentExpression::All(*operands),
                    model(*expression) == ExpressionModel::All(sequence),
                    forall|k: int|
                        0 <= k < i ==> holds(
                            #[trigger] sequence[k],
                            default_states(),
                        ),
                decreases operands@.len() - i,
            {
                assert(decreases_to!(expression => operands@[i as int]));
                let visible = expression_is_visible(&operands[i]);
                assert(sequence[i as int] == model(operands@[i as int]));
                if !visible {
                    proof {
                        lemma_operand(sequence, default_states(), i as int);
                    }
                    return false;
                }
                i = i + 1;
            }
            true
        },
        OptionalContentExpression::Any(operands) => {
            proof {
                lemma_models(*operands);
            }
            let ghost sequence = models(operands@);
            let mut i: usize = 0;
            while i < operands.len()
                invariant
                    i <= operands@.len(),
                    sequence == models(operands@),
                    expression == OptionalContentExpression::Any(*operands),
                    model(*expression) == ExpressionModel::Any(sequence),
                    forall|k: int|
                        0 <= k < i ==> !holds(
                            #[trigger] sequence[k],
                            default_states(),
                        ),
                decreases operands@.len() - i,
            {
                assert(decreases_to!(expression => operands@[i as int]));
                let visible = expression_is_visible(&operands[i]);
                assert(sequence[i as int] == model(operands@[i as int]));
                if visible {
                    proof {
                        lemma_operand(sequence, default_states(), i as int);
                    }
                    return true;
                }
                i = i + 1;
            }
            false
        },
        OptionalContentExpression::Not(operand) => !expression_is_visible(operand),
    }
}

/// The number of nodes of an expression.
pub open spec fn size(e: ExpressionModel) -> nat
    decreases e, 0nat,
{
    match e {
        ExpressionModel::Group(_) => 1,
        ExpressionModel::All(operands) => 1 + total_size(operands, operands.len()),
        ExpressionModel::Any(operands) => 1 + total_size(operands, operands.len()),
        ExpressionModel::Not(operand) => 1 + size(*operand),
    }
}

/// The number of nodes of the first `count` expressions.
pub open spec fn total_size(es: Seq<ExpressionModel>, count: nat) -> nat
    decreases es, count,
{
    if count == 0 || count > es.len() {
        0
    } else {
        total_size(es, (count - 1) as nat) + size(es[count - 1])
    }
}

/// An expression has at most the given number of levels.
pub open spec fn fits(e: ExpressionModel, levels: int) -> bool
    decreases e,
{
    &&& levels > 0
    &&& match e {
        ExpressionModel::Group(_) => true,
        ExpressionModel::All(operands) => forall|i: int|
            0 <= i < operands.len() ==> fits(#[trigger] operands[i], levels - 1),
        ExpressionModel::Any(operands) => forall|i: int|
            0 <= i < operands.len() ==> fits(#[trigger] operands[i], levels - 1),
        ExpressionModel::Not(operand) => fits(*operand, levels - 1),
    }
}

} // verus!
