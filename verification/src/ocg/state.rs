//! The visibility of optional content while a page is interpreted.

use crate::object::{spelled, spells, Array, Dict, Document, MaybeRef, Object, ObjectIdentifier};
use crate::ocg::expression::{
    default_states, default_visible, expression_is_visible, holds, lemma_models, model, models,
    ExpressionModel, OptionalContentExpression, OptionalContentGroup,
};
use crate::ocg::resolve::{entry_outcome, resolve_membership, OptionalContentBudget};
use crate::polled::Polled;
use vstd::prelude::*;

verus! {

/// The state of groups that a configuration does not mention.
#[derive(Debug, PartialEq, Eq, Copy, Clone, Structural)]
pub enum BaseState {
    On,
    Off,
    Unchanged,
}

/// The base state with a name.
pub open spec fn base_state_named(name: Seq<u8>) -> Option<BaseState> {
    if spelled(name, "ON"@) {
        Some(BaseState::On)
    } else if spelled(name, "OFF"@) {
        Some(BaseState::Off)
    } else if spelled(name, "Unchanged"@) {
        Some(BaseState::Unchanged)
    } else {
        None
    }
}

impl BaseState {
    /// The base state with a name.
    pub fn from_name(name: &[u8]) -> (state: Option<Self>)
        ensures
            state == base_state_named(name@),
    {
        if spells(name, "ON") {
            Some(BaseState::On)
        } else if spells(name, "OFF") {
            Some(BaseState::Off)
        } else if spells(name, "Unchanged") {
            Some(BaseState::Unchanged)
        } else {
            None
        }
    }
}

/// A marked-content sequence that is open.
#[derive(Debug, PartialEq, Eq, Copy, Clone, Structural)]
pub struct VisibilityFrame {
    /// Whether what stands in it is visible.
    pub visible: bool,
    /// Whether its end is reported to the device.
    pub emit_optional_callback: bool,
}

/// The groups that are off, and the open marked-content sequences.
#[derive(Debug)]
pub struct OcgState {
    pub inactive_ocgs: Vec<ObjectIdentifier>,
    pub visibility_stack: Vec<VisibilityFrame>,
    pub preserve_optional_content: bool,
}

/// An array refers to an object.
pub open spec fn listed(items: Seq<MaybeRef>, id: ObjectIdentifier) -> bool {
    exists|i: int| 0 <= i < items.len() && #[trigger] items[i] == MaybeRef::Ref(id)
}

/// The array that a key of a dictionary leads to; empty if there is none.
pub open spec fn array_of(doc: Document, dict: Dict, key: Seq<char>) -> Seq<MaybeRef> {
    match doc.value(dict, key) {
        Some(Object::Array(array)) => array.items@,
        _ => Seq::empty(),
    }
}

/// A configuration starts with all groups off.
pub open spec fn starts_off(doc: Document, config: Dict) -> bool {
    doc.value(config, "BaseState"@) matches Some(Object::Name(name)) && base_state_named(name@)
        == Some(BaseState::Off)
}

/// The default configuration of a catalog turns a group off.
pub open spec fn turned_off(doc: Document, catalog: Dict, id: ObjectIdentifier) -> bool {
    match doc.value(catalog, "OCProperties"@) {
        Some(Object::Dict(properties)) => match doc.value(properties, "D"@) {
            Some(Object::Dict(config)) => {
                ||| listed(array_of(doc, config, "OFF"@), id)
                ||| {
                    &&& starts_off(doc, config)
                    &&& listed(array_of(doc, properties, "OCGs"@), id)
                    &&& !listed(array_of(doc, config, "ON"@), id)
                }
            },
            _ => false,
        },
        _ => false,
    }
}

/// The identifier of a group.
pub open spec fn group_id(group: OptionalContentGroup) -> ObjectIdentifier {
    ObjectIdentifier { obj_number: group.object_number, gen_number: group.generation_number }
}

/// The states of the groups when the given ones are off.
pub open spec fn states_without(inactive: Seq<ObjectIdentifier>) -> spec_fn(
    OptionalContentGroup,
) -> bool {
    |group: OptionalContentGroup| !inactive.contains(group_id(group))
}

/// An expression whose groups have their state by default.
pub open spec fn with_states(
    e: ExpressionModel,
    on: spec_fn(OptionalContentGroup) -> bool,
) -> ExpressionModel
    decreases e,
{
    match e {
        ExpressionModel::Group(group) => ExpressionModel::Group(
            OptionalContentGroup { initially_visible: on(group), ..group },
        ),
        ExpressionModel::All(operands) => ExpressionModel::All(
            Seq::new(
                operands.len(),
                |i: int|
                    if 0 <= i < operands.len() {
                        with_states(operands[i], on)
                    } else {
                        arbitrary()
                    },
            ),
        ),
        ExpressionModel::Any(operands) => ExpressionModel::Any(
            Seq::new(
                operands.len(),
                |i: int|
                    if 0 <= i < operands.len() {
                        with_states(operands[i], on)
                    } else {
                        arbitrary()
                    },
            ),
        ),
        ExpressionModel::Not(operand) => ExpressionModel::Not(Box::new(with_states(*operand, on))),
    }
}

/// Expressions whose groups have their state by default.
pub open spec fn all_with_states(
    es: Seq<ExpressionModel>,
    on: spec_fn(OptionalContentGroup) -> bool,
) -> Seq<ExpressionModel> {
    Seq::new(es.len(), |i: int| with_states(es[i], on))
}

proof fn lemma_with_states(es: Seq<ExpressionModel>, on: spec_fn(OptionalContentGroup) -> bool)
    ensures
        with_states(ExpressionModel::All(es), on) == ExpressionModel::All(all_with_states(es, on)),
        with_states(ExpressionModel::Any(es), on) == ExpressionModel::Any(all_with_states(es, on)),
{
    assert(ExpressionModel::All(es)->All_0 == es);
    assert(ExpressionModel::Any(es)->Any_0 == es);
    assert(with_states(ExpressionModel::All(es), on)->All_0 =~= all_with_states(es, on));
    assert(with_states(ExpressionModel::Any(es), on)->Any_0 =~= all_with_states(es, on));
}

/// With the states applied, the default visibility of an expression is its visibility in those
/// states.
pub proof fn lemma_states_applied(
    e: ExpressionModel,
    on: spec_fn(OptionalContentGroup) -> bool,
)
    ensures
        default_visible(with_states(e, on)) == holds(e, on),
    decreases e,
{
    match e {
        ExpressionModel::Group(_) => {},
        ExpressionModel::All(operands) => {
            lemma_with_states(operands, on);
            let applied = all_with_states(operands, on);
            assert(ExpressionModel::All(applied)->All_0 == applied);
            assert(e->All_0 == operands);
            assert forall|i: int| 0 <= i < operands.len() implies #[trigger] holds(
                applied[i],
                default_states(),
            ) == holds(operands[i], on) by {
                lemma_states_applied(operands[i], on);
            }
            if holds(e, on) {
                assert forall|i: int| 0 <= i < applied.len() implies holds(
                    #[trigger] applied[i],
                    default_states(),
                ) by {
                    assert(holds(operands[i], on));
                }
            } else {
                let i = choose|i: int|
                    0 <= i < operands.len() && !holds(#[trigger] operands[i], on);
                assert(!holds(applied[i], default_states()));
            }
        },
        ExpressionModel::Any(operands) => {
            lemma_with_states(operands, on);
            let applied = all_with_states(operands, on);
            assert(ExpressionModel::Any(applied)->Any_0 == applied);
            assert(e->Any_0 == operands);
            assert forall|i: int| 0 <= i < operands.len() implies #[trigger] holds(
                applied[i],
                default_states(),
            ) == holds(operands[i], on) by {
                lemma_states_applied(operands[i], on);
            }
            if holds(e, on) {
                let i = choose|i: int| 0 <= i < operands.len() && holds(#[trigger] operands[i], on);
                assert(holds(applied[i], default_states()));
            } else {
                assert forall|i: int| 0 <= i < applied.len() implies !holds(
                    #[trigger] applied[i],
                    default_states(),
                ) by {
                    assert(!holds(operands[i], on));
                }
            }
        },
        ExpressionModel::Not(operand) => {
            lemma_states_applied(*operand, on);
        },
    }
}

fn contains_id(ids: &Vec<ObjectIdentifier>, id: ObjectIdentifier) -> (found: bool)
    ensures
        found == ids@.contains(id),
{
    let mut i: usize = 0;
    while i < ids.len()
        invariant
            i <= ids@.len(),
            forall|k: int| 0 <= k < i ==> ids@[k] != id,
        decreases ids@.len() - i,
    {
        if ids[i] == id {
            return true;
        }
        i = i + 1;
    }
    false
}

/// Whether an array refers to an object.
fn lists(items: &Vec<MaybeRef>, id: ObjectIdentifier) -> (found: bool)
    ensures
        found == listed(items@, id),
{
    let mut i: usize = 0;
    while i < items.len()
        invariant
            i <= items@.len(),
            forall|k: int| 0 <= k < i ==> #[trigger] items@[k] != MaybeRef::Ref(id),
        decreases items@.len() - i,
    {
        match &items[i] {
            MaybeRef::Ref(other) => {
                if *other == id {
                    assert(items@[i as int] == MaybeRef::Ref(id));
                    return true;
                }
            },
            MaybeRef::NotRef(_) => {},
        }
        i = i + 1;
    }
    false
}

/// Add what an array refers to, except for what another array refers to.
fn add_listed(inactive: &mut Vec<ObjectIdentifier>, items: &Vec<MaybeRef>, except: Option<&Array>)
    ensures
        forall|id: ObjectIdentifier| #[trigger]
            final(inactive)@.contains(id) == (old(inactive)@.contains(id) || (listed(items@, id)
                && !(except matches Some(array) && listed(array.items@, id)))),
{
    let mut i: usize = 0;
    while i < items.len()
        invariant
            i <= items@.len(),
            forall|id: ObjectIdentifier| #[trigger]
                inactive@.contains(id) == (old(inactive)@.contains(id) || (listed(
                    items@.take(i as int),
                    id,
                ) && !(except matches Some(array) && listed(array.items@, id)))),
        decreases items@.len() - i,
    {
        let ghost before = inactive@;
        let ghost taken = items@.take(i as int);
        let ghost next = items@.take(i + 1);
        match &items[i] {
            MaybeRef::Ref(id) => {
                let excepted = match except {
                    Some(array) => lists(&array.items, *id),
                    None => false,
                };
                if !excepted {
                    inactive.push(*id);
                }
                proof {
                    assert(next[i as int] == MaybeRef::Ref(*id));
                    assert forall|other: ObjectIdentifier| listed(next, other) == (#[trigger] listed(
                        taken,
                        other,
                    ) || other == *id) by {
                        lemma_listed_next(items@, i as int, other);
                    }
                    if !excepted {
                        assert forall|other: ObjectIdentifier| #[trigger]
                            inactive@.contains(other) == (before.contains(other) || other
                            == *id) by {
                            assert(inactive@[before.len() as int] == *id);
                            if before.contains(other) {
                                let k = choose|k: int|
                                    0 <= k < before.len() && before[k] == other;
                                assert(inactive@[k] == other);
                            }
                        }
                    }
                    assert forall|other: ObjectIdentifier| #[trigger]
                        inactive@.contains(other) == (old(inactive)@.contains(other) || (listed(
                        next,
                        other,
                    ) && !(except matches Some(array) && listed(array.items@, other)))) by {
                        assert(listed(next, other) == (listed(taken, other) || other == *id));
                    }
                }
            },
            MaybeRef::NotRef(_) => {
                proof {
                    assert forall|other: ObjectIdentifier| listed(next, other) == #[trigger] listed(
                        taken,
                        other,
                    ) by {
                        lemma_listed_next(items@, i as int, other);
                    }
                    assert forall|other: ObjectIdentifier| #[trigger]
                        inactive@.contains(other) == (old(inactive)@.contains(other) || (listed(
                        next,
                        other,
                    ) && !(except matches Some(array) && listed(array.items@, other)))) by {
                        assert(listed(next, other) == listed(taken, other));
                    }
                }
            },
        }
        i = i + 1;
    }
    assert(items@.take(i as int) =~= items@);
}

proof fn lemma_listed_next(items: Seq<MaybeRef>, i: int, id: ObjectIdentifier)
    requires
        0 <= i < items.len(),
    ensures
        listed(items.take(i + 1), id) == (listed(items.take(i), id) || items[i] == MaybeRef::Ref(
            id,
        )),
{
    let taken = items.take(i);
    let next = items.take(i + 1);
    if listed(taken, id) {
        let k = choose|k: int| 0 <= k < taken.len() && #[trigger] taken[k] == MaybeRef::Ref(id);
        assert(next[k] == MaybeRef::Ref(id));
    }
    if items[i] == MaybeRef::Ref(id) {
        assert(next[i] == MaybeRef::Ref(id));
    }
    if listed(next, id) {
        let k = choose|k: int| 0 <= k < next.len() && #[trigger] next[k] == MaybeRef::Ref(id);
        if k < i {
            assert(taken[k] == MaybeRef::Ref(id));
        }
    }
}

/// Give the groups of an expression their state by default.
fn apply_defaults(
    expression: OptionalContentExpression,
    inactive: &Vec<ObjectIdentifier>,
) -> (applied: OptionalContentExpression)
    ensures
        applied@ == with_states(expression@, states_without(inactive@)),
    decreases expression,
{
    let ghost on = states_without(inactive@);
    match expression {
        OptionalContentExpression::Group(group) => {
            let id = ObjectIdentifier {
                obj_number: group.object_number,
                gen_number: group.generation_number,
            };
            let initially_visible = !contains_id(inactive, id);
            OptionalContentExpression::Group(
                OptionalContentGroup {
                    object_number: group.object_number,
                    generation_number: group.generation_number,
                    initially_visible,
                },
            )
        },
        OptionalContentExpression::All(operands) => {
            proof {
                lemma_models(operands);
                lemma_with_states(models(operands@), on);
            }
            let applied = apply_all(operands, inactive);
            proof {
                lemma_models(applied);
            }
            OptionalContentExpression::All(applied)
        },
        OptionalContentExpression::Any(operands) => {
            proof {
                lemma_models(operands);
                lemma_with_states(models(operands@), on);
            }
            let applied = apply_all(operands, inactive);
            proof {
                lemma_models(applied);
            }
            OptionalContentExpression::Any(applied)
        },
        OptionalContentExpression::Not(operand) => OptionalContentExpression::Not(
            Box::new(apply_defaults(*operand, inactive)),
        ),
    }
}

/// Give the groups of all operands their state by default.
fn apply_all(
    operands: Vec<OptionalContentExpression>,
    inactive: &Vec<ObjectIdentifier>,
) -> (applied: Vec<OptionalContentExpression>)
    ensures
        models(applied@) == all_with_states(models(operands@), states_without(inactive@)),
    decreases operands,
{
    let ghost on = states_without(inactive@);
    let ghost all = operands@;
    let ghost given = operands;
    let mut rest = operands;
    let mut reversed: Vec<OptionalContentExpression> = Vec::new();
    while rest.len() > 0
        invariant
            all == given@,
            rest@ == all.take(rest@.len() as int),
            rest@.len() + reversed@.len() == all.len(),
            given == operands,
            on == states_without(inactive@),
            forall|k: int|
                0 <= k < reversed@.len() ==> model(#[trigger] reversed@[k]) == with_states(
                    model(all[all.len() - 1 - k]),
                    on,
                ),
        decreases rest@.len(),
    {
        let ghost place = rest@.len() - 1;
        match rest.pop() {
            Some(operand) => {
                assert(operand == all[place]);
                assert(decreases_to!(given => given[place]));
                let applied = apply_defaults(operand, inactive);
                reversed.push(applied);
                assert(rest@ =~= all.take(rest@.len() as int));
            },
            None => {},
        }
    }
    let mut applied: Vec<OptionalContentExpression> = Vec::new();
    while reversed.len() > 0
        invariant
            reversed@.len() + applied@.len() == all.len(),
            forall|k: int|
                0 <= k < reversed@.len() ==> model(#[trigger] reversed@[k]) == with_states(
                    model(all[all.len() - 1 - k]),
                    on,
                ),
            forall|k: int|
                0 <= k < applied@.len() ==> model(#[trigger] applied@[k]) == with_states(
                    model(all[k]),
                    on,
                ),
        decreases reversed@.len(),
    {
        match reversed.pop() {
            Some(operand) => {
                applied.push(operand);
            },
            None => {},
        }
    }
    assert(models(applied@) =~= all_with_states(models(all), on));
    applied
}

/// The budget of a single entry.
pub open spec fn entry_budget() -> OptionalContentBudget {
    OptionalContentBudget { nodes: 65_536, bytes: 0x400_0000, max_depth: 64 }
}

/// Optional content was opened: it is visible if what surrounds it is, and its expression, with
/// the states of the groups, is. An entry that cannot be resolved does not hide anything.
pub open spec fn opened(
    before: OcgState,
    after: OcgState,
    doc: Document,
    props: Dict,
    reference: Option<ObjectIdentifier>,
    expression: Option<OptionalContentExpression>,
) -> bool {
    &&& after.same_groups(&before)
    &&& match entry_outcome(doc, props, reference, entry_budget()).result {
        Ok(e) => {
            let applied = with_states(e, states_without(before.inactive_ocgs@));
            &&& expression matches Some(given)
            &&& given@ == applied
            &&& after.visibility_stack@ == before.visibility_stack@.push(
                VisibilityFrame {
                    visible: before.effective() && default_visible(applied),
                    emit_optional_callback: before.preserve_optional_content,
                },
            )
        },
        Err(_) => {
            &&& expression is None
            &&& after.visibility_stack@ == before.visibility_stack@.push(
                VisibilityFrame { visible: before.effective(), emit_optional_callback: false },
            )
        },
    }
}

impl OcgState {
    /// Whether content is visible where nothing overrides the groups.
    pub open spec fn effective(&self) -> bool {
        self.visibility_stack@.len() == 0 || self.visibility_stack@.last().visible
    }

    /// The groups and the mode are the same.
    pub open spec fn same_groups(&self, other: &Self) -> bool {
        &&& self.inactive_ocgs@ == other.inactive_ocgs@
        &&& self.preserve_optional_content == other.preserve_optional_content
    }

    /// A state with all groups on.
    pub fn dummy(preserve_optional_content: bool) -> (state: Self)
        ensures
            state.inactive_ocgs@.len() == 0,
            state.visibility_stack@.len() == 0,
            state.preserve_optional_content == preserve_optional_content,
    {
        OcgState {
            inactive_ocgs: Vec::new(),
            visibility_stack: Vec::new(),
            preserve_optional_content,
        }
    }

    /// The state that the default configuration of a catalog gives.
    pub fn from_catalog(doc: &Document, catalog: &Dict, preserve_optional_content: bool) -> (state:
        Self)
        ensures
            forall|id: ObjectIdentifier| #[trigger]
                state.inactive_ocgs@.contains(id) == turned_off(*doc, *catalog, id),
            state.visibility_stack@.len() == 0,
            state.preserve_optional_content == preserve_optional_content,
    {
        let mut inactive_ocgs: Vec<ObjectIdentifier> = Vec::new();
        let properties = match doc.lookup(catalog, "OCProperties") {
            Some(Object::Dict(properties)) => properties,
            _ => {
                return OcgState::dummy(preserve_optional_content);
            },
        };
        let config = match doc.lookup(properties, "D") {
            Some(Object::Dict(config)) => config,
            _ => {
                return OcgState::dummy(preserve_optional_content);
            },
        };
        let base_state = match doc.lookup(config, "BaseState") {
            Some(Object::Name(name)) => BaseState::from_name(name.as_slice()),
            _ => None,
        };
        let off = match base_state {
            Some(state) => state == BaseState::Off,
            None => false,
        };
        if off {
            match doc.lookup(properties, "OCGs") {
                Some(Object::Array(groups)) => {
                    let on = match doc.lookup(config, "ON") {
                        Some(Object::Array(on)) => Some(on),
                        _ => None,
                    };
                    add_listed(&mut inactive_ocgs, &groups.items, on);
                },
                _ => {},
            }
        }
        match doc.lookup(config, "OFF") {
            Some(Object::Array(off)) => {
                add_listed(&mut inactive_ocgs, &off.items, None);
            },
            _ => {},
        }
        OcgState { inactive_ocgs, visibility_stack: Vec::new(), preserve_optional_content }
    }

    /// Open optional content, given by a group or membership dictionary.
    ///
    /// Returns the expression with the default states of its groups; an entry that cannot be
    /// resolved does not hide anything.
    pub fn begin_membership(
        &mut self,
        doc: &Document,
        props: &Dict,
        reference: Option<ObjectIdentifier>,
    ) -> (expression: Option<OptionalContentExpression>)
        ensures
            opened(*old(self), *final(self), *doc, *props, reference, expression),
    {
        let mut budget = OptionalContentBudget::default();
        let never = || -> (cancel: bool)
            ensures
                !cancel,
            { false };
        let mut polled = Polled::new(never);
        let resolved = resolve_membership(doc, props, reference, &mut budget, &mut polled);
        proof {
            let answers = polled.answers();
            assert(answers.len() > 0 ==> call_ensures(never, (), answers[answers.len() - 1]));
        }
        match resolved {
            Ok(expression) => Some(self.begin_resolved(expression)),
            Err(_) => {
                self.begin_unresolved_optional_content();
                None
            },
        }
    }

    /// Open optional content, given by a membership dictionary in place.
    pub fn begin_ocmd(&mut self, doc: &Document, ocmd: &Dict) -> (expression: Option<
        OptionalContentExpression,
    >)
        ensures
            opened(*old(self), *final(self), *doc, *ocmd, None, expression),
    {
        self.begin_membership(doc, ocmd, None)
    }

    /// Open optional content, given by a dictionary that is an indirect object.
    pub fn begin_ocg(
        &mut self,
        doc: &Document,
        props: &Dict,
        reference: ObjectIdentifier,
    ) -> (expression: Option<OptionalContentExpression>)
        ensures
            opened(*old(self), *final(self), *doc, *props, Some(reference), expression),
    {
        self.begin_membership(doc, props, Some(reference))
    }

    /// Open optional content with a resolved expression.
    ///
    /// Returns the expression with the default states of its groups.
    pub fn begin_resolved(&mut self, expression: OptionalContentExpression) -> (applied:
        OptionalContentExpression)
        ensures
            final(self).same_groups(old(self)),
            applied@ == with_states(expression@, states_without(old(self).inactive_ocgs@)),
            final(self).visibility_stack@ == old(self).visibility_stack@.push(
                VisibilityFrame {
                    visible: old(self).effective() && default_visible(applied@),
                    emit_optional_callback: old(self).preserve_optional_content,
                },
            ),
    {
        let applied = apply_defaults(expression, &self.inactive_ocgs);
        self.push_optional(expression_is_visible(&applied), true);
        applied
    }

    /// Open a marked-content sequence that is not optional.
    pub fn begin_marked_content(&mut self)
        ensures
            final(self).same_groups(old(self)),
            final(self).visibility_stack@ == old(self).visibility_stack@.push(
                VisibilityFrame {
                    visible: old(self).effective(),
                    emit_optional_callback: false,
                },
            ),
    {
        let visible = self.effective_visibility();
        self.visibility_stack.push(VisibilityFrame { visible, emit_optional_callback: false });
    }

    /// Open optional content that could not be resolved.
    pub fn begin_unresolved_optional_content(&mut self)
        ensures
            final(self).same_groups(old(self)),
            final(self).visibility_stack@ == old(self).visibility_stack@.push(
                VisibilityFrame {
                    visible: old(self).effective(),
                    emit_optional_callback: false,
                },
            ),
    {
        self.push_optional(true, false);
    }

    /// Close the innermost sequence; whether its end is reported to the device.
    pub fn end_marked_content(&mut self) -> (emit: bool)
        ensures
            final(self).same_groups(old(self)),
            if old(self).visibility_stack@.len() == 0 {
                !emit && final(self).visibility_stack@ == old(self).visibility_stack@
            } else {
                &&& emit == old(self).visibility_stack@.last().emit_optional_callback
                &&& final(self).visibility_stack@ == old(self).visibility_stack@.drop_last()
            },
    {
        match self.visibility_stack.pop() {
            Some(frame) => frame.emit_optional_callback,
            None => false,
        }
    }

    /// The number of open sequences.
    pub fn marked_content_depth(&self) -> (depth: usize)
        ensures
            depth == self.visibility_stack@.len(),
    {
        self.visibility_stack.len()
    }

    /// Whether content is drawn; in the mode that preserves optional content all of it is.
    pub fn is_visible(&self) -> (visible: bool)
        ensures
            visible == (self.preserve_optional_content || self.effective()),
    {
        self.preserve_optional_content || self.effective_visibility()
    }

    fn effective_visibility(&self) -> (visible: bool)
        ensures
            visible == self.effective(),
    {
        if self.visibility_stack.len() == 0 {
            true
        } else {
            self.visibility_stack[self.visibility_stack.len() - 1].visible
        }
    }

    fn push_optional(&mut self, expression_visible: bool, expression_is_owned: bool)
        ensures
            final(self).same_groups(old(self)),
            final(self).visibility_stack@ == old(self).visibility_stack@.push(
                VisibilityFrame {
                    visible: old(self).effective() && expression_visible,
                    emit_optional_callback: old(self).preserve_optional_content
                        && expression_is_owned,
                },
            ),
    {
        let visible = self.effective_visibility() && expression_visible;
        let emit_optional_callback = self.preserve_optional_content && expression_is_owned;
        self.visibility_stack.push(VisibilityFrame { visible, emit_optional_callback });
    }
}

impl Default for OcgState {
    fn default() -> (state: Self)
        ensures
            state.inactive_ocgs@.len() == 0,
            state.visibility_stack@.len() == 0,
            !state.preserve_optional_content,
    {
        Self::dummy(false)
    }
}

} // verus!
