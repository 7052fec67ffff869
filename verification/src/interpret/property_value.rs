//! Owned values of marked-content properties.

use crate::function::double::{finite, is_finite};
use crate::interpret::key_order::{key_order, sorted_places};
use crate::list::copied;
use crate::object::{Dict, Document, Entry, MaybeRef, Object};
use vstd::prelude::*;

verus! {

/// An owned value of a marked-content property.
#[derive(Debug, PartialEq, Eq)]
pub enum MarkedContentPropertyValue {
    Null,
    Boolean(bool),
    Integer(i64),
    /// The bits of a finite number in double precision.
    Real(u64),
    String(Vec<u8>),
    Name(Vec<u8>),
    Array(Vec<MarkedContentPropertyValue>),
    Dictionary(Vec<MarkedContentProperty>),
}

/// An owned marked-content property.
#[derive(Debug, PartialEq, Eq)]
pub struct MarkedContentProperty {
    pub key: Vec<u8>,
    pub value: MarkedContentPropertyValue,
}

/// A property value with sequences.
pub enum ValueModel {
    Null,
    Boolean(bool),
    Integer(i64),
    Real(u64),
    String(Seq<u8>),
    Name(Seq<u8>),
    Array(Seq<ValueModel>),
    Dictionary(Seq<PropertyModel>),
}

/// A property with sequences.
pub struct PropertyModel {
    pub key: Seq<u8>,
    pub value: ValueModel,
}

/// The model of a value.
pub open spec fn value_model(value: MarkedContentPropertyValue) -> ValueModel
    decreases value,
{
    match value {
        MarkedContentPropertyValue::Null => ValueModel::Null,
        MarkedContentPropertyValue::Boolean(value) => ValueModel::Boolean(value),
        MarkedContentPropertyValue::Integer(value) => ValueModel::Integer(value),
        MarkedContentPropertyValue::Real(value) => ValueModel::Real(value),
        MarkedContentPropertyValue::String(value) => ValueModel::String(value@),
        MarkedContentPropertyValue::Name(value) => ValueModel::Name(value@),
        MarkedContentPropertyValue::Array(items) => ValueModel::Array(
            Seq::new(
                items@.len(),
                |i: int|
                    if 0 <= i < items@.len() {
                        value_model(items[i])
                    } else {
                        arbitrary()
                    },
            ),
        ),
        MarkedContentPropertyValue::Dictionary(entries) => ValueModel::Dictionary(
            Seq::new(
                entries@.len(),
                |i: int|
                    if 0 <= i < entries@.len() {
                        PropertyModel {
                            key: entries[i].key@,
                            value: value_model(entries[i].value),
                        }
                    } else {
                        arbitrary()
                    },
            ),
        ),
    }
}

/// The models of values.
pub open spec fn value_models(values: Seq<MarkedContentPropertyValue>) -> Seq<ValueModel> {
    Seq::new(values.len(), |i: int| value_model(values[i]))
}

/// The model of a property.
pub open spec fn property_model(property: MarkedContentProperty) -> PropertyModel {
    PropertyModel { key: property.key@, value: value_model(property.value) }
}

/// The models of properties.
pub open spec fn property_models(properties: Seq<MarkedContentProperty>) -> Seq<PropertyModel> {
    Seq::new(properties.len(), |i: int| property_model(properties[i]))
}

proof fn lemma_array_model(values: Vec<MarkedContentPropertyValue>)
    ensures
        value_model(MarkedContentPropertyValue::Array(values)) == ValueModel::Array(
            value_models(values@),
        ),
{
    assert(value_model(MarkedContentPropertyValue::Array(values))->Array_0 =~= value_models(
        values@,
    ));
}

proof fn lemma_dictionary_model(entries: Vec<MarkedContentProperty>)
    ensures
        value_model(MarkedContentPropertyValue::Dictionary(entries)) == ValueModel::Dictionary(
            property_models(entries@),
        ),
{
    assert(value_model(MarkedContentPropertyValue::Dictionary(entries))->Dictionary_0
        =~= property_models(entries@));
}

/// The bytes that a value is charged for, besides its text.
pub open spec fn value_cost() -> int {
    vstd::layout::size_of::<MarkedContentPropertyValue>() as int
}

/// The bytes that a property is charged for, besides its key and its value.
pub open spec fn property_cost() -> int {
    vstd::layout::size_of::<MarkedContentProperty>() as int
}

/// The bytes that remain after a charge, and whether there were enough.
pub struct Charge {
    pub paid: bool,
    pub remaining: int,
}

/// Charge bytes.
pub open spec fn charged(remaining: int, bytes: int) -> Charge {
    if remaining < bytes {
        Charge { paid: false, remaining }
    } else {
        Charge { paid: true, remaining: remaining - bytes }
    }
}

/// Something that was copied, unless it could not be, and the bytes that remain.
pub struct Copied<T> {
    pub value: Option<T>,
    pub remaining: int,
}

/// The copy of an object, `depth` objects down.
pub open spec fn value_at(
    doc: Document,
    object: Object,
    depth: int,
    max_depth: int,
    remaining: int,
) -> Copied<ValueModel>
    decreases max_depth - depth + 1, 1nat, 0nat,
{
    let first = charged(remaining, value_cost());
    if depth > max_depth || !first.paid {
        Copied { value: None, remaining }
    } else {
        match object {
            Object::Null => Copied { value: Some(ValueModel::Null), remaining: first.remaining },
            Object::Boolean(value) => Copied {
                value: Some(ValueModel::Boolean(value)),
                remaining: first.remaining,
            },
            Object::Number(number) => Copied {
                value: match number.integer {
                    Some(value) => Some(ValueModel::Integer(value)),
                    None => if finite(number.double) {
                        Some(ValueModel::Real(number.double))
                    } else {
                        None
                    },
                },
                remaining: first.remaining,
            },
            Object::String(text) => {
                let second = charged(first.remaining, text@.len() as int);
                Copied {
                    value: if second.paid {
                        Some(ValueModel::String(text@))
                    } else {
                        None
                    },
                    remaining: second.remaining,
                }
            },
            Object::Name(name) => {
                let second = charged(first.remaining, name@.len() as int);
                Copied {
                    value: if second.paid {
                        Some(ValueModel::Name(name@))
                    } else {
                        None
                    },
                    remaining: second.remaining,
                }
            },
            Object::Array(array) => {
                let items = values_at(
                    doc,
                    array.items@,
                    depth + 1,
                    max_depth,
                    first.remaining,
                    array.items@.len(),
                );
                Copied {
                    value: match items.value {
                        Some(values) => Some(ValueModel::Array(values)),
                        None => None,
                    },
                    remaining: items.remaining,
                }
            },
            Object::Dict(dict) => {
                if depth + 1 > max_depth {
                    Copied { value: None, remaining: first.remaining }
                } else {
                    let entries = properties_at(
                        doc,
                        dict.entries@,
                        depth + 1,
                        max_depth,
                        first.remaining,
                        dict.entries@.len(),
                    );
                    Copied {
                        value: match entries.value {
                            Some(entries) => Some(ValueModel::Dictionary(entries)),
                            None => None,
                        },
                        remaining: entries.remaining,
                    }
                }
            },
            Object::Stream(_) => Copied { value: None, remaining: first.remaining },
        }
    }
}

/// The copies of the first `count` items of an array.
pub open spec fn values_at(
    doc: Document,
    items: Seq<MaybeRef>,
    depth: int,
    max_depth: int,
    remaining: int,
    count: nat,
) -> Copied<Seq<ValueModel>>
    decreases max_depth - depth + 1, 2nat, count,
{
    if count == 0 {
        Copied { value: Some(Seq::empty()), remaining }
    } else {
        let before = values_at(doc, items, depth, max_depth, remaining, (count - 1) as nat);
        match (before.value, doc.resolved(items[count - 1])) {
            (Some(values), Some(object)) => {
                let item = value_at(doc, object, depth, max_depth, before.remaining);
                Copied {
                    value: match item.value {
                        Some(value) => Some(values.push(value)),
                        None => None,
                    },
                    remaining: item.remaining,
                }
            },
            _ => Copied { value: None, remaining: before.remaining },
        }
    }
}

/// The copy of an entry of a dictionary.
pub open spec fn property_at(
    doc: Document,
    entry: Entry,
    depth: int,
    max_depth: int,
    remaining: int,
) -> Copied<PropertyModel>
    decreases max_depth - depth + 1, 2nat, 0nat,
{
    let first = charged(remaining, property_cost());
    let second = charged(first.remaining, entry.key@.len() as int);
    if !first.paid {
        Copied { value: None, remaining }
    } else if !second.paid {
        Copied { value: None, remaining: second.remaining }
    } else {
        match doc.resolved(entry.value) {
            None => Copied { value: None, remaining: second.remaining },
            Some(object) => {
                let value = value_at(doc, object, depth, max_depth, second.remaining);
                Copied {
                    value: match value.value {
                        Some(value) => Some(PropertyModel { key: entry.key@, value }),
                        None => None,
                    },
                    remaining: value.remaining,
                }
            },
        }
    }
}

/// The copies of the first `count` entries of a dictionary, in the order of their keys.
pub open spec fn properties_at(
    doc: Document,
    entries: Seq<Entry>,
    depth: int,
    max_depth: int,
    remaining: int,
    count: nat,
) -> Copied<Seq<PropertyModel>>
    decreases max_depth - depth + 1, 3nat, count,
{
    if count == 0 {
        Copied { value: Some(Seq::empty()), remaining }
    } else {
        let before = properties_at(doc, entries, depth, max_depth, remaining, (count - 1) as nat);
        match before.value {
            Some(properties) => {
                let entry = property_at(
                    doc,
                    entries[key_order(entries, entries.len())[count - 1]],
                    depth,
                    max_depth,
                    before.remaining,
                );
                Copied {
                    value: match entry.value {
                        Some(property) => Some(properties.push(property)),
                        None => None,
                    },
                    remaining: entry.remaining,
                }
            },
            None => before,
        }
    }
}

proof fn lemma_failed_values(
    doc: Document,
    items: Seq<MaybeRef>,
    depth: int,
    max_depth: int,
    remaining: int,
    count: nat,
    more: nat,
)
    requires
        count <= more,
        values_at(doc, items, depth, max_depth, remaining, count).value is None,
    ensures
        values_at(doc, items, depth, max_depth, remaining, more) == values_at(
            doc,
            items,
            depth,
            max_depth,
            remaining,
            count,
        ),
    decreases more,
{
    if count < more {
        lemma_failed_values(doc, items, depth, max_depth, remaining, count, (more - 1) as nat);
    }
}

proof fn lemma_failed_properties(
    doc: Document,
    entries: Seq<Entry>,
    depth: int,
    max_depth: int,
    remaining: int,
    count: nat,
    more: nat,
)
    requires
        count <= more,
        properties_at(doc, entries, depth, max_depth, remaining, count).value is None,
    ensures
        properties_at(doc, entries, depth, max_depth, remaining, more) == properties_at(
            doc,
            entries,
            depth,
            max_depth,
            remaining,
            count,
        ),
    decreases more,
{
    if count < more {
        lemma_failed_properties(
            doc,
            entries,
            depth,
            max_depth,
            remaining,
            count,
            (more - 1) as nat,
        );
    }
}

/// The work that is left for the properties of a marked-content sequence.
#[derive(Clone, Copy, Debug, PartialEq, Eq, Structural)]
pub struct MarkedPropertyBudget {
    pub remaining_bytes: u64,
    pub max_depth: u32,
}

impl MarkedPropertyBudget {
    /// A budget.
    pub fn new(max_bytes: u64, max_depth: u32) -> (budget: Self)
        ensures
            budget.remaining_bytes == max_bytes,
            budget.max_depth == max_depth,
    {
        MarkedPropertyBudget { remaining_bytes: max_bytes, max_depth }
    }

    /// Charge bytes.
    pub fn charge(&mut self, bytes: usize) -> (paid: Option<()>)
        ensures
            paid is Some == charged(old(self).remaining_bytes as int, bytes as int).paid,
            final(self).remaining_bytes == charged(
                old(self).remaining_bytes as int,
                bytes as int,
            ).remaining,
            final(self).max_depth == old(self).max_depth,
    {
        let bytes: u64 = bytes as u64;
        if self.remaining_bytes < bytes {
            None
        } else {
            self.remaining_bytes = self.remaining_bytes - bytes;
            Some(())
        }
    }
}

/// What was copied is the given model, and so many bytes are left.
pub open spec fn is_copy<T, M>(
    copy: Option<T>,
    model: spec_fn(T) -> M,
    remaining: u64,
    expected: Copied<M>,
) -> bool {
    &&& remaining == expected.remaining
    &&& match expected.value {
        Some(expected) => copy matches Some(copy) && model(copy) == expected,
        None => copy is None,
    }
}

/// Copy an object.
pub fn marked_property_value(
    doc: &Document,
    object: &Object,
    depth: u64,
    budget: &mut MarkedPropertyBudget,
) -> (value: Option<MarkedContentPropertyValue>)
    requires
        depth <= u32::MAX + 1,
    ensures
        final(budget).max_depth == old(budget).max_depth,
        is_copy(
            value,
            |value: MarkedContentPropertyValue| value_model(value),
            final(budget).remaining_bytes,
            value_at(
                *doc,
                *object,
                depth as int,
                old(budget).max_depth as int,
                old(budget).remaining_bytes as int,
            ),
        ),
    decreases u32::MAX + 1 - depth, 1nat,
{
    let max_depth: u32 = budget.max_depth;
    if depth > max_depth as u64 {
        return None;
    }
    match budget.charge(core::mem::size_of::<MarkedContentPropertyValue>()) {
        None => {
            return None;
        },
        Some(()) => {},
    }
    match object {
        Object::Null => Some(MarkedContentPropertyValue::Null),
        Object::Boolean(value) => Some(MarkedContentPropertyValue::Boolean(*value)),
        Object::Number(number) => match number.integer {
            Some(value) => Some(MarkedContentPropertyValue::Integer(value)),
            None => if is_finite(number.double) {
                Some(MarkedContentPropertyValue::Real(number.double))
            } else {
                None
            },
        },
        Object::String(text) => match budget.charge(text.len()) {
            None => None,
            Some(()) => Some(MarkedContentPropertyValue::String(copied(text.as_slice()))),
        },
        Object::Name(name) => match budget.charge(name.len()) {
            None => None,
            Some(()) => Some(MarkedContentPropertyValue::Name(copied(name.as_slice()))),
        },
        Object::Array(array) => {
            let ghost start = budget.remaining_bytes as int;
            let mut values: Vec<MarkedContentPropertyValue> = Vec::new();
            let mut i: usize = 0;
            assert(value_models(values@) =~= Seq::empty());
            while i < array.items.len()
                invariant
                    i <= array.items@.len(),
                    *object == Object::Array(*array),
                    depth <= max_depth,
                    budget.max_depth == max_depth == old(budget).max_depth,
                    charged(old(budget).remaining_bytes as int, value_cost()) == (Charge {
                        paid: true,
                        remaining: start,
                    }),
                    ({
                        let read = values_at(
                            *doc,
                            array.items@,
                            depth + 1,
                            max_depth as int,
                            start,
                            i as nat,
                        );
                        &&& read.value == Some(value_models(values@))
                        &&& read.remaining == budget.remaining_bytes
                    }),
                decreases array.items@.len() - i,
            {
                let ghost before = values@;
                let copied = match doc.resolve(&array.items[i]) {
                    None => None,
                    Some(item) => marked_property_value(doc, item, depth + 1, budget),
                };
                match copied {
                    None => {
                        proof {
                            lemma_failed_values(
                                *doc,
                                array.items@,
                                depth + 1,
                                max_depth as int,
                                start,
                                (i + 1) as nat,
                                array.items@.len(),
                            );
                        }
                        return None;
                    },
                    Some(value) => {
                        values.push(value);
                        assert(value_models(values@) =~= value_models(before).push(
                            value_model(value),
                        ));
                    },
                }
                i = i + 1;
            }
            proof {
                lemma_array_model(values);
            }
            Some(MarkedContentPropertyValue::Array(values))
        },
        Object::Dict(dict) => match marked_property_dictionary(doc, dict, depth + 1, budget) {
            None => None,
            Some(entries) => {
                proof {
                    lemma_dictionary_model(entries);
                }
                Some(MarkedContentPropertyValue::Dictionary(entries))
            },
        },
        // Known metadata streams are kept separately. Other streams remain unavailable.
        Object::Stream(_) => None,
    }
}

/// Copy an entry of a dictionary.
pub fn marked_property(
    doc: &Document,
    entry: &Entry,
    depth: u64,
    budget: &mut MarkedPropertyBudget,
) -> (property: Option<MarkedContentProperty>)
    requires
        depth <= u32::MAX + 1,
    ensures
        final(budget).max_depth == old(budget).max_depth,
        is_copy(
            property,
            |property: MarkedContentProperty| property_model(property),
            final(budget).remaining_bytes,
            property_at(
                *doc,
                *entry,
                depth as int,
                old(budget).max_depth as int,
                old(budget).remaining_bytes as int,
            ),
        ),
    decreases u32::MAX + 1 - depth, 2nat,
{
    match budget.charge(core::mem::size_of::<MarkedContentProperty>()) {
        None => {
            return None;
        },
        Some(()) => {},
    }
    match budget.charge(entry.key.len()) {
        None => {
            return None;
        },
        Some(()) => {},
    }
    match doc.resolve(&entry.value) {
        None => None,
        Some(object) => match marked_property_value(doc, object, depth, budget) {
            None => None,
            Some(value) => Some(MarkedContentProperty { key: copied(entry.key.as_slice()), value }),
        },
    }
}

/// Copy a dictionary, in the order of its keys.
pub fn marked_property_dictionary(
    doc: &Document,
    dict: &Dict,
    depth: u64,
    budget: &mut MarkedPropertyBudget,
) -> (properties: Option<Vec<MarkedContentProperty>>)
    requires
        depth <= u32::MAX + 1,
    ensures
        final(budget).max_depth == old(budget).max_depth,
        is_copy(
            properties,
            |properties: Vec<MarkedContentProperty>| property_models(properties@),
            final(budget).remaining_bytes,
            if depth > old(budget).max_depth {
                Copied { value: None, remaining: old(budget).remaining_bytes as int }
            } else {
                properties_at(
                    *doc,
                    dict.entries@,
                    depth as int,
                    old(budget).max_depth as int,
                    old(budget).remaining_bytes as int,
                    dict.entries@.len(),
                )
            },
        ),
    decreases u32::MAX + 1 - depth, 3nat,
{
    let max_depth: u32 = budget.max_depth;
    if depth > max_depth as u64 {
        return None;
    }
    let ghost start = budget.remaining_bytes as int;
    let places = sorted_places(&dict.entries);
    let mut properties: Vec<MarkedContentProperty> = Vec::new();
    let mut i: usize = 0;
    assert(property_models(properties@) =~= Seq::empty());
    while i < places.len()
        invariant
            i <= places@.len() == dict.entries@.len(),
            depth <= max_depth,
            budget.max_depth == max_depth == old(budget).max_depth,
            start == old(budget).remaining_bytes,
            forall|k: int|
                0 <= k < places@.len() ==> #[trigger] places@[k] == key_order(
                    dict.entries@,
                    dict.entries@.len(),
                )[k],
            forall|k: int| 0 <= k < places@.len() ==> #[trigger] places@[k] < dict.entries@.len(),
            ({
                let read = properties_at(
                    *doc,
                    dict.entries@,
                    depth as int,
                    max_depth as int,
                    start,
                    i as nat,
                );
                &&& read.value == Some(property_models(properties@))
                &&& read.remaining == budget.remaining_bytes
            }),
        decreases places@.len() - i,
    {
        let ghost before = properties@;
        let place: usize = places[i];
        match marked_property(doc, &dict.entries[place], depth, budget) {
            None => {
                proof {
                    lemma_failed_properties(
                        *doc,
                        dict.entries@,
                        depth as int,
                        max_depth as int,
                        start,
                        (i + 1) as nat,
                        dict.entries@.len(),
                    );
                }
                return None;
            },
            Some(property) => {
                properties.push(property);
                assert(property_models(properties@) =~= property_models(before).push(
                    property_model(property),
                ));
            },
        }
        i = i + 1;
    }
    Some(properties)
}

} // verus!
