//! What holds of marked-content properties.

use crate::function::double::finite;
use crate::interpret::key_order::{comes_before, entries_before, key_order, lemma_key_order};
use crate::interpret::marked_content::{
    addressable, box_of, describes, identifier_of, is_known, metadata_of, missing, name_of,
    number_at, retained, string_of, unusable, MarkedContentProperties,
};
use crate::interpret::property_value::{
    charged, properties_at, property_at, property_cost, value_at, value_cost, value_model,
    values_at, MarkedContentProperty, MarkedContentPropertyValue, ValueModel,
};
use crate::object::{Array, Dict, Document, Entry, MaybeRef, Number, Object, Stream};
use vstd::prelude::*;

verus! {

/// The bytes that were kept, if any were.
pub open spec fn bytes_in(given: Option<Vec<u8>>) -> Option<Seq<u8>> {
    match given {
        Some(bytes) => Some(bytes@),
        None => None,
    }
}

/// The text of a string.
pub open spec fn text_in(object: Option<Object>) -> Option<Seq<u8>> {
    match object {
        Some(Object::String(text)) => Some(text@),
        _ => None,
    }
}

/// The bytes of a name.
pub open spec fn name_in(object: Option<Object>) -> Option<Seq<u8>> {
    match object {
        Some(Object::Name(name)) => Some(name@),
        _ => None,
    }
}

/// Properties with a meaning of their own stand under their own keys.
pub proof fn lemma_known_properties(
    given: MarkedContentProperties,
    doc: Document,
    props: Dict,
    max_property_bytes: u64,
    max_property_depth: u32,
)
    requires
        describes(given, doc, props, max_property_bytes, max_property_depth),
    ensures
        bytes_in(given.actual_text) == text_in(doc.value(props, "ActualText"@)),
        bytes_in(given.alternate_text) == text_in(doc.value(props, "Alt"@)),
        bytes_in(given.language) == text_in(doc.value(props, "Lang"@)),
        bytes_in(given.name) == text_in(doc.value(props, "Name"@)),
        bytes_in(given.property_type) == name_in(doc.value(props, "Type"@)),
        bytes_in(given.property_subtype) == name_in(doc.value(props, "Subtype"@)),
        bytes_in(given.owner) == name_in(doc.value(props, "O"@)),
        given.mcid matches Some(mcid) ==> (doc.value(props, "MCID"@) matches Some(
            Object::Number(number),
        ) && number.truncated == mcid),
        given.mcid is None ==> !(doc.value(props, "MCID"@) matches Some(Object::Number(number))
            && -0x8000_0000 <= number.truncated <= 0x7FFF_FFFF),
        given.metadata is Some ==> (doc.value(props, "Metadata"@) matches Some(
            Object::Stream(stream),
        ) && name_in(doc.value(stream.dict, "Type"@)) == Some(
            vstd::utf8::encode_utf8("Metadata"@),
        ) && name_in(doc.value(stream.dict, "Subtype"@)) == Some(vstd::utf8::encode_utf8("XML"@))),
{
}

/// A bounding box is four finite numbers in order, and a fifth number makes none.
pub proof fn lemma_bounding_box(doc: Document, dict: Dict, key: Seq<char>)
    ensures
        box_of(doc, dict, key) matches Some(numbers) ==> {
            &&& doc.value(dict, key) matches Some(Object::Array(array))
            &&& array.items@.len() >= 4
            &&& forall|i: int|
                0 <= i < 4 ==> (doc.resolved(array.items@[i]) matches Some(Object::Number(number))
                    && #[trigger] numbers@[i] == number.double && finite(number.double))
            &&& array.items@.len() > 4 ==> !(doc.resolved(array.items@[4]) matches Some(
                Object::Number(_),
            ))
        },
{
    if box_of(doc, dict, key) is Some {
        let numbers = box_of(doc, dict, key)->0;
        let array = doc.value(dict, key)->0->Array_0;
        assert(number_at(doc, array, 0) == Some(numbers@[0]));
        assert(number_at(doc, array, 1) == Some(numbers@[1]));
        assert(number_at(doc, array, 2) == Some(numbers@[2]));
        assert(number_at(doc, array, 3) == Some(numbers@[3]));
    }
}

/// Metadata are the data of an XML stream up to a limit.
pub proof fn lemma_metadata(
    doc: Document,
    dict: Dict,
    limit: usize,
    decoded: spec_fn(Stream, usize) -> Option<Seq<u8>>,
)
    ensures
        metadata_of(doc, dict, limit, decoded) matches Some(metadata) ==> {
            &&& doc.value(dict, "Metadata"@) matches Some(Object::Stream(stream))
            &&& decoded(stream, limit) == Some(metadata.data)
            &&& name_in(doc.value(stream.dict, "Subtype"@)) == Some(metadata.subtype)
            &&& metadata.subtype == vstd::utf8::encode_utf8("XML"@)
        },
        forall|bytes: u64| #![trigger addressable(bytes)] addressable(bytes) <= bytes,
        forall|bytes: u64|
            bytes <= usize::MAX ==> #[trigger] addressable(bytes) == bytes,
{
}

/// A key is missing if it is there without a value that can be used.
pub proof fn lemma_missing(dict: Dict, key: Seq<char>, available: bool)
    ensures
        missing(dict, key, true).len() == 0,
        dict.raw(key) is None ==> missing(dict, key, available).len() == 0,
        dict.raw(key) is Some ==> missing(dict, key, false) == seq![vstd::utf8::encode_utf8(key)],
{
}

proof fn lemma_among(a: Seq<Seq<u8>>, b: Seq<Seq<u8>>, key: Seq<u8>)
    ensures
        (a + b).contains(key) <==> a.contains(key) || b.contains(key),
{
    let both = a + b;
    if a.contains(key) {
        let i = choose|i: int| 0 <= i < a.len() && a[i] == key;
        assert(both[i] == key);
    }
    if b.contains(key) {
        let i = choose|i: int| 0 <= i < b.len() && b[i] == key;
        assert(both[a.len() + i] == key);
    }
    if both.contains(key) {
        let i = choose|i: int| 0 <= i < both.len() && both[i] == key;
        if i < a.len() {
            assert(a[i] == key);
        } else {
            assert(b[i - a.len()] == key);
        }
    }
}

proof fn lemma_joined(
    m0: Seq<Seq<u8>>,
    m1: Seq<Seq<u8>>,
    m2: Seq<Seq<u8>>,
    m3: Seq<Seq<u8>>,
    m4: Seq<Seq<u8>>,
    m5: Seq<Seq<u8>>,
    m6: Seq<Seq<u8>>,
    m7: Seq<Seq<u8>>,
    m8: Seq<Seq<u8>>,
    m9: Seq<Seq<u8>>,
    key: Seq<u8>,
)
    ensures
        (m0 + m1 + m2 + m3 + m4 + m5 + m6 + m7 + m8 + m9).contains(key) <==> m0.contains(key) || m1.contains(key) || m2.contains(key) || m3.contains(key) || m4.contains(key) || m5.contains(key) || m6.contains(key) || m7.contains(key) || m8.contains(key) || m9.contains(key),
{
    let s0 = m0;
    let s1 = s0 + m1;
    lemma_among(s0, m1, key);
    let s2 = s1 + m2;
    lemma_among(s1, m2, key);
    let s3 = s2 + m3;
    lemma_among(s2, m3, key);
    let s4 = s3 + m4;
    lemma_among(s3, m4, key);
    let s5 = s4 + m5;
    lemma_among(s4, m5, key);
    let s6 = s5 + m6;
    lemma_among(s5, m6, key);
    let s7 = s6 + m7;
    lemma_among(s6, m7, key);
    let s8 = s7 + m8;
    lemma_among(s7, m8, key);
    let s9 = s8 + m9;
    lemma_among(s8, m9, key);
}

proof fn lemma_part_unusable(doc: Document, props: Dict, metadata: bool, key: Seq<u8>)
    ensures
        unusable(doc, props, metadata).contains(key) <==> missing(
            props,
            "MCID"@,
            identifier_of(doc, props, "MCID"@) is Some,
        ).contains(key) || missing(
            props,
            "ActualText"@,
            string_of(doc, props, "ActualText"@) is Some,
        ).contains(key) || missing(
            props,
            "Alt"@,
            string_of(doc, props, "Alt"@) is Some,
        ).contains(key) || missing(
            props,
            "Lang"@,
            string_of(doc, props, "Lang"@) is Some,
        ).contains(key) || missing(
            props,
            "Type"@,
            name_of(doc, props, "Type"@) is Some,
        ).contains(key) || missing(
            props,
            "Subtype"@,
            name_of(doc, props, "Subtype"@) is Some,
        ).contains(key) || missing(
            props,
            "Name"@,
            string_of(doc, props, "Name"@) is Some,
        ).contains(key) || missing(
            props,
            "O"@,
            name_of(doc, props, "O"@) is Some,
        ).contains(key) || missing(
            props,
            "BBox"@,
            box_of(doc, props, "BBox"@) is Some,
        ).contains(key) || missing(
            props,
            "Metadata"@,
            metadata,
        ).contains(key),
{
    lemma_joined(
        missing(props, "MCID"@, identifier_of(doc, props, "MCID"@) is Some),
        missing(props, "ActualText"@, string_of(doc, props, "ActualText"@) is Some),
        missing(props, "Alt"@, string_of(doc, props, "Alt"@) is Some),
        missing(props, "Lang"@, string_of(doc, props, "Lang"@) is Some),
        missing(props, "Type"@, name_of(doc, props, "Type"@) is Some),
        missing(props, "Subtype"@, name_of(doc, props, "Subtype"@) is Some),
        missing(props, "Name"@, string_of(doc, props, "Name"@) is Some),
        missing(props, "O"@, name_of(doc, props, "O"@) is Some),
        missing(props, "BBox"@, box_of(doc, props, "BBox"@) is Some),
        missing(props, "Metadata"@, metadata),
        key,
    );
}

proof fn lemma_mcid_unusable(doc: Document, props: Dict, metadata: bool)
    ensures
        props.raw("MCID"@) is Some && !(identifier_of(doc, props, "MCID"@) is Some) ==> unusable(
            doc,
            props,
            metadata,
        ).contains(vstd::utf8::encode_utf8("MCID"@)),
{
    let key = vstd::utf8::encode_utf8("MCID"@);
    let part = missing(props, "MCID"@, identifier_of(doc, props, "MCID"@) is Some);
    if part.len() > 0 {
        assert(part[0] == key);
        assert(part.contains(key));
        lemma_part_unusable(doc, props, metadata, key);
    }
}

proof fn lemma_actualtext_unusable(doc: Document, props: Dict, metadata: bool)
    ensures
        props.raw("ActualText"@) is Some && !(string_of(doc, props, "ActualText"@) is Some) ==> unusable(
            doc,
            props,
            metadata,
        ).contains(vstd::utf8::encode_utf8("ActualText"@)),
{
    let key = vstd::utf8::encode_utf8("ActualText"@);
    let part = missing(props, "ActualText"@, string_of(doc, props, "ActualText"@) is Some);
    if part.len() > 0 {
        assert(part[0] == key);
        assert(part.contains(key));
        lemma_part_unusable(doc, props, metadata, key);
    }
}

proof fn lemma_alt_unusable(doc: Document, props: Dict, metadata: bool)
    ensures
        props.raw("Alt"@) is Some && !(string_of(doc, props, "Alt"@) is Some) ==> unusable(
            doc,
            props,
            metadata,
        ).contains(vstd::utf8::encode_utf8("Alt"@)),
{
    let key = vstd::utf8::encode_utf8("Alt"@);
    let part = missing(props, "Alt"@, string_of(doc, props, "Alt"@) is Some);
    if part.len() > 0 {
        assert(part[0] == key);
        assert(part.contains(key));
        lemma_part_unusable(doc, props, metadata, key);
    }
}

proof fn lemma_lang_unusable(doc: Document, props: Dict, metadata: bool)
    ensures
        props.raw("Lang"@) is Some && !(string_of(doc, props, "Lang"@) is Some) ==> unusable(
            doc,
            props,
            metadata,
        ).contains(vstd::utf8::encode_utf8("Lang"@)),
{
    let key = vstd::utf8::encode_utf8("Lang"@);
    let part = missing(props, "Lang"@, string_of(doc, props, "Lang"@) is Some);
    if part.len() > 0 {
        assert(part[0] == key);
        assert(part.contains(key));
        lemma_part_unusable(doc, props, metadata, key);
    }
}

proof fn lemma_type_unusable(doc: Document, props: Dict, metadata: bool)
    ensures
        props.raw("Type"@) is Some && !(name_of(doc, props, "Type"@) is Some) ==> unusable(
            doc,
            props,
            metadata,
        ).contains(vstd::utf8::encode_utf8("Type"@)),
{
    let key = vstd::utf8::encode_utf8("Type"@);
    let part = missing(props, "Type"@, name_of(doc, props, "Type"@) is Some);
    if part.len() > 0 {
        assert(part[0] == key);
        assert(part.contains(key));
        lemma_part_unusable(doc, props, metadata, key);
    }
}

proof fn lemma_subtype_unusable(doc: Document, props: Dict, metadata: bool)
    ensures
        props.raw("Subtype"@) is Some && !(name_of(doc, props, "Subtype"@) is Some) ==> unusable(
            doc,
            props,
            metadata,
        ).contains(vstd::utf8::encode_utf8("Subtype"@)),
{
    let key = vstd::utf8::encode_utf8("Subtype"@);
    let part = missing(props, "Subtype"@, name_of(doc, props, "Subtype"@) is Some);
    if part.len() > 0 {
        assert(part[0] == key);
        assert(part.contains(key));
        lemma_part_unusable(doc, props, metadata, key);
    }
}

proof fn lemma_name_unusable(doc: Document, props: Dict, metadata: bool)
    ensures
        props.raw("Name"@) is Some && !(string_of(doc, props, "Name"@) is Some) ==> unusable(
            doc,
            props,
            metadata,
        ).contains(vstd::utf8::encode_utf8("Name"@)),
{
    let key = vstd::utf8::encode_utf8("Name"@);
    let part = missing(props, "Name"@, string_of(doc, props, "Name"@) is Some);
    if part.len() > 0 {
        assert(part[0] == key);
        assert(part.contains(key));
        lemma_part_unusable(doc, props, metadata, key);
    }
}

proof fn lemma_o_unusable(doc: Document, props: Dict, metadata: bool)
    ensures
        props.raw("O"@) is Some && !(name_of(doc, props, "O"@) is Some) ==> unusable(
            doc,
            props,
            metadata,
        ).contains(vstd::utf8::encode_utf8("O"@)),
{
    let key = vstd::utf8::encode_utf8("O"@);
    let part = missing(props, "O"@, name_of(doc, props, "O"@) is Some);
    if part.len() > 0 {
        assert(part[0] == key);
        assert(part.contains(key));
        lemma_part_unusable(doc, props, metadata, key);
    }
}

proof fn lemma_bbox_unusable(doc: Document, props: Dict, metadata: bool)
    ensures
        props.raw("BBox"@) is Some && !(box_of(doc, props, "BBox"@) is Some) ==> unusable(
            doc,
            props,
            metadata,
        ).contains(vstd::utf8::encode_utf8("BBox"@)),
{
    let key = vstd::utf8::encode_utf8("BBox"@);
    let part = missing(props, "BBox"@, box_of(doc, props, "BBox"@) is Some);
    if part.len() > 0 {
        assert(part[0] == key);
        assert(part.contains(key));
        lemma_part_unusable(doc, props, metadata, key);
    }
}

proof fn lemma_metadata_unusable(doc: Document, props: Dict, metadata: bool)
    ensures
        props.raw("Metadata"@) is Some && !(metadata) ==> unusable(
            doc,
            props,
            metadata,
        ).contains(vstd::utf8::encode_utf8("Metadata"@)),
{
    let key = vstd::utf8::encode_utf8("Metadata"@);
    let part = missing(props, "Metadata"@, metadata);
    if part.len() > 0 {
        assert(part[0] == key);
        assert(part.contains(key));
        lemma_part_unusable(doc, props, metadata, key);
    }
}

/// A key with a meaning of its own whose value cannot be used is unavailable.
pub proof fn lemma_unusable_keys(doc: Document, props: Dict, metadata: bool)
    ensures
        props.raw("MCID"@) is Some && !((doc.value(props, "MCID"@) matches Some(Object::Number(number)) && i32::MIN <= number.truncated <= i32::MAX)) ==> unusable(
            doc,
            props,
            metadata,
        ).contains(vstd::utf8::encode_utf8("MCID"@)),
        props.raw("ActualText"@) is Some && !((doc.value(props, "ActualText"@) matches Some(Object::String(_)))) ==> unusable(
            doc,
            props,
            metadata,
        ).contains(vstd::utf8::encode_utf8("ActualText"@)),
        props.raw("Alt"@) is Some && !((doc.value(props, "Alt"@) matches Some(Object::String(_)))) ==> unusable(
            doc,
            props,
            metadata,
        ).contains(vstd::utf8::encode_utf8("Alt"@)),
        props.raw("Lang"@) is Some && !((doc.value(props, "Lang"@) matches Some(Object::String(_)))) ==> unusable(
            doc,
            props,
            metadata,
        ).contains(vstd::utf8::encode_utf8("Lang"@)),
        props.raw("Type"@) is Some && !((doc.value(props, "Type"@) matches Some(Object::Name(_)))) ==> unusable(
            doc,
            props,
            metadata,
        ).contains(vstd::utf8::encode_utf8("Type"@)),
        props.raw("Subtype"@) is Some && !((doc.value(props, "Subtype"@) matches Some(Object::Name(_)))) ==> unusable(
            doc,
            props,
            metadata,
        ).contains(vstd::utf8::encode_utf8("Subtype"@)),
        props.raw("Name"@) is Some && !((doc.value(props, "Name"@) matches Some(Object::String(_)))) ==> unusable(
            doc,
            props,
            metadata,
        ).contains(vstd::utf8::encode_utf8("Name"@)),
        props.raw("O"@) is Some && !((doc.value(props, "O"@) matches Some(Object::Name(_)))) ==> unusable(
            doc,
            props,
            metadata,
        ).contains(vstd::utf8::encode_utf8("O"@)),
        props.raw("BBox"@) is Some && !(box_of(doc, props, "BBox"@) is Some) ==> unusable(
            doc,
            props,
            metadata,
        ).contains(vstd::utf8::encode_utf8("BBox"@)),
        props.raw("Metadata"@) is Some && !(metadata) ==> unusable(
            doc,
            props,
            metadata,
        ).contains(vstd::utf8::encode_utf8("Metadata"@)),
{
    lemma_mcid_unusable(doc, props, metadata);
    lemma_actualtext_unusable(doc, props, metadata);
    lemma_alt_unusable(doc, props, metadata);
    lemma_lang_unusable(doc, props, metadata);
    lemma_type_unusable(doc, props, metadata);
    lemma_subtype_unusable(doc, props, metadata);
    lemma_name_unusable(doc, props, metadata);
    lemma_o_unusable(doc, props, metadata);
    lemma_bbox_unusable(doc, props, metadata);
    lemma_metadata_unusable(doc, props, metadata);
}

/// Keys with a meaning of their own.
pub proof fn lemma_known_keys(key: Seq<u8>)
    ensures
        is_known(key) <==> key == vstd::utf8::encode_utf8("MCID"@) || key
            == vstd::utf8::encode_utf8("ActualText"@) || key == vstd::utf8::encode_utf8("Alt"@)
            || key == vstd::utf8::encode_utf8("Lang"@) || key == vstd::utf8::encode_utf8("Type"@)
            || key == vstd::utf8::encode_utf8("Subtype"@) || key == vstd::utf8::encode_utf8(
            "Name"@,
        ) || key == vstd::utf8::encode_utf8("O"@) || key == vstd::utf8::encode_utf8("BBox"@) || key
            == vstd::utf8::encode_utf8("Metadata"@) || key == vstd::utf8::encode_utf8("OC"@),
{
}

/// A charge is paid if there are enough bytes, which are gone then; nothing is taken otherwise.
pub proof fn lemma_charged(remaining: int, bytes: int)
    ensures
        charged(remaining, bytes).paid <==> bytes <= remaining,
        charged(remaining, bytes).paid ==> charged(remaining, bytes).remaining + bytes == remaining,
        !charged(remaining, bytes).paid ==> charged(remaining, bytes).remaining == remaining,
{
}

/// Simple values are copied as they are, and charged for themselves and the bytes of their text. A
/// number that is written as an integer stays one. Streams are not copied.
pub proof fn lemma_simple_copies(
    doc: Document,
    depth: int,
    max_depth: int,
    remaining: int,
    condition: bool,
    number: Number,
    text: Vec<u8>,
    stream: Stream,
)
    requires
        depth <= max_depth,
        remaining >= value_cost(),
    ensures
        ({
            let left = remaining - value_cost();
            &&& value_at(doc, Object::Null, depth, max_depth, remaining).value == Some(
                ValueModel::Null,
            )
            &&& value_at(doc, Object::Boolean(condition), depth, max_depth, remaining).value
                == Some(ValueModel::Boolean(condition))
            &&& value_at(doc, Object::Boolean(condition), depth, max_depth, remaining).remaining
                == left
            &&& value_at(doc, Object::Number(number), depth, max_depth, remaining).value
                == if number.integer is Some {
                Some(ValueModel::Integer(number.integer->0))
            } else if finite(number.double) {
                Some(ValueModel::Real(number.double))
            } else {
                None
            }
            &&& text@.len() <= left ==> {
                let copy = value_at(doc, Object::String(text), depth, max_depth, remaining);
                let named = value_at(doc, Object::Name(text), depth, max_depth, remaining);
                &&& copy.value == Some(ValueModel::String(text@))
                &&& copy.remaining == left - text@.len()
                &&& named.value == Some(ValueModel::Name(text@))
                &&& named.remaining == left - text@.len()
            }
            &&& text@.len() > left ==> {
                let copy = value_at(doc, Object::String(text), depth, max_depth, remaining);
                let named = value_at(doc, Object::Name(text), depth, max_depth, remaining);
                &&& copy.value is None
                &&& named.value is None
            }
            &&& value_at(doc, Object::Stream(stream), depth, max_depth, remaining).value is None
        }),
{
}

/// Nothing is copied beyond the greatest depth or without bytes for it.
pub proof fn lemma_copy_limits(
    doc: Document,
    object: Object,
    depth: int,
    max_depth: int,
    remaining: int,
)
    ensures
        depth > max_depth || remaining < value_cost() ==> value_at(
            doc,
            object,
            depth,
            max_depth,
            remaining,
        ).value is None && value_at(doc, object, depth, max_depth, remaining).remaining
            == remaining,
        depth == max_depth && object is Dict ==> value_at(
            doc,
            object,
            depth,
            max_depth,
            remaining,
        ).value is None,
{
}

/// Copying never gives bytes back, and never takes more than there are.
pub proof fn lemma_copy_costs(
    doc: Document,
    object: Object,
    depth: int,
    max_depth: int,
    remaining: int,
)
    requires
        remaining >= 0,
    ensures
        0 <= value_at(doc, object, depth, max_depth, remaining).remaining <= remaining,
        value_at(doc, object, depth, max_depth, remaining).value is Some ==> value_at(
            doc,
            object,
            depth,
            max_depth,
            remaining,
        ).remaining <= remaining - value_cost(),
    decreases max_depth - depth + 1, 1nat, 0nat,
{
    let first = charged(remaining, value_cost());
    if depth <= max_depth && first.paid {
        match object {
            Object::Array(array) => {
                lemma_items_cost(
                    doc,
                    array.items@,
                    depth + 1,
                    max_depth,
                    first.remaining,
                    array.items@.len(),
                );
            },
            Object::Dict(dict) => {
                if depth + 1 <= max_depth {
                    lemma_entries_cost(
                        doc,
                        dict.entries@,
                        depth + 1,
                        max_depth,
                        first.remaining,
                        dict.entries@.len(),
                    );
                }
            },
            _ => {},
        }
    }
}

proof fn lemma_items_cost(
    doc: Document,
    items: Seq<MaybeRef>,
    depth: int,
    max_depth: int,
    remaining: int,
    count: nat,
)
    requires
        remaining >= 0,
    ensures
        0 <= values_at(doc, items, depth, max_depth, remaining, count).remaining <= remaining,
        values_at(doc, items, depth, max_depth, remaining, count).value matches Some(values)
            ==> values.len() == count,
    decreases max_depth - depth + 1, 2nat, count,
{
    if count > 0 {
        lemma_items_cost(doc, items, depth, max_depth, remaining, (count - 1) as nat);
        let before = values_at(doc, items, depth, max_depth, remaining, (count - 1) as nat);
        if before.value is Some && doc.resolved(items[count - 1]) is Some {
            let object = doc.resolved(items[count - 1])->0;
            if depth <= max_depth {
                lemma_copy_costs(doc, object, depth, max_depth, before.remaining);
            }
        }
    }
}

proof fn lemma_entry_cost(
    doc: Document,
    entry: Entry,
    depth: int,
    max_depth: int,
    remaining: int,
)
    requires
        remaining >= 0,
    ensures
        0 <= property_at(doc, entry, depth, max_depth, remaining).remaining <= remaining,
        property_at(doc, entry, depth, max_depth, remaining).value matches Some(property)
            ==> property.key == entry.key@,
    decreases max_depth - depth + 1, 2nat, 0nat,
{
    let first = charged(remaining, property_cost());
    let second = charged(first.remaining, entry.key@.len() as int);
    if first.paid && second.paid && doc.resolved(entry.value) is Some {
        lemma_copy_costs(doc, doc.resolved(entry.value)->0, depth, max_depth, second.remaining);
    }
}

proof fn lemma_entries_cost(
    doc: Document,
    entries: Seq<Entry>,
    depth: int,
    max_depth: int,
    remaining: int,
    count: nat,
)
    requires
        remaining >= 0,
    ensures
        0 <= properties_at(doc, entries, depth, max_depth, remaining, count).remaining
            <= remaining,
        properties_at(doc, entries, depth, max_depth, remaining, count).value matches Some(kept)
            ==> kept.len() == count,
    decreases max_depth - depth + 1, 3nat, count,
{
    if count > 0 {
        lemma_entries_cost(doc, entries, depth, max_depth, remaining, (count - 1) as nat);
        let before = properties_at(doc, entries, depth, max_depth, remaining, (count - 1) as nat);
        if before.value is Some {
            lemma_entry_cost(
                doc,
                entries[key_order(entries, entries.len())[count - 1]],
                depth,
                max_depth,
                before.remaining,
            );
        }
    }
}

/// The items of an array are copied in order, one level down. None is left out.
pub proof fn lemma_items_copied(
    doc: Document,
    array: Array,
    depth: int,
    max_depth: int,
    remaining: int,
    i: int,
)
    requires
        depth <= max_depth,
        remaining >= value_cost(),
        0 <= i < array.items@.len(),
    ensures
        value_at(doc, Object::Array(array), depth, max_depth, remaining).value matches Some(value)
            ==> {
            let left = remaining - value_cost();
            let before = values_at(doc, array.items@, depth + 1, max_depth, left, i as nat);
            &&& value matches ValueModel::Array(values)
            &&& values.len() == array.items@.len()
            &&& doc.resolved(array.items@[i]) matches Some(object) && value_at(
                doc,
                object,
                depth + 1,
                max_depth,
                before.remaining,
            ).value == Some(values[i])
        },
{
    let left = remaining - value_cost();
    lemma_item_copied(doc, array.items@, depth + 1, max_depth, left, array.items@.len(), i);
}

proof fn lemma_item_copied(
    doc: Document,
    items: Seq<MaybeRef>,
    depth: int,
    max_depth: int,
    remaining: int,
    count: nat,
    i: int,
)
    requires
        0 <= i < count <= items.len(),
    ensures
        values_at(doc, items, depth, max_depth, remaining, count).value matches Some(values) ==> {
            let before = values_at(doc, items, depth, max_depth, remaining, i as nat);
            &&& values.len() == count
            &&& doc.resolved(items[i]) matches Some(object) && value_at(
                doc,
                object,
                depth,
                max_depth,
                before.remaining,
            ).value == Some(values[i])
        },
    decreases count,
{
    if i < count - 1 {
        lemma_item_copied(doc, items, depth, max_depth, remaining, (count - 1) as nat, i);
    } else if count > 1 {
        lemma_item_copied(doc, items, depth, max_depth, remaining, (count - 1) as nat, 0);
    }
}

/// A property is its key and a copy of its value, charged for itself, its key and its value.
pub proof fn lemma_property_copied(
    doc: Document,
    entry: Entry,
    object: Object,
    depth: int,
    max_depth: int,
    remaining: int,
)
    requires
        doc.resolved(entry.value) == Some(object),
    ensures
        ({
            let copy = property_at(doc, entry, depth, max_depth, remaining);
            let left = remaining - property_cost() - entry.key@.len();
            let value = value_at(doc, object, depth, max_depth, left);
            &&& copy.value matches Some(property) ==> left >= 0 && property.key == entry.key@
                && value.value == Some(property.value) && copy.remaining == value.remaining
            &&& left >= 0 && value.value is Some ==> copy.value is Some
        }),
{
}

/// Properties without a meaning of their own are looked at in the order of their keys, each with
/// the bytes that are left. One that cannot be kept is unavailable; the others go on.
pub proof fn lemma_retained_step(
    doc: Document,
    entries: Seq<Entry>,
    max_depth: int,
    max_bytes: int,
    count: nat,
)
    requires
        count < entries.len(),
        max_bytes >= 0,
    ensures
        ({
            let before = retained(doc, entries, max_depth, max_bytes, count);
            let after = retained(doc, entries, max_depth, max_bytes, count + 1);
            let entry = entries[key_order(entries, entries.len())[count as int]];
            let copy = property_at(doc, entry, 0, max_depth, before.remaining);
            &&& is_known(entry.key@) ==> after == before
            &&& !is_known(entry.key@) && copy.value is Some ==> after.kept == before.kept.push(
                copy.value->0,
            ) && after.unavailable == before.unavailable && (copy.value->0).key == entry.key@
            &&& !is_known(entry.key@) && copy.value is None ==> after.kept == before.kept
                && after.unavailable == before.unavailable.push(entry.key@)
            &&& 0 <= after.remaining <= before.remaining <= max_bytes
        }),
{
    lemma_retained_remaining(doc, entries, max_depth, max_bytes, count);
    let before = retained(doc, entries, max_depth, max_bytes, count);
    lemma_entry_cost(
        doc,
        entries[key_order(entries, entries.len())[count as int]],
        0,
        max_depth,
        before.remaining,
    );
}

proof fn lemma_retained_remaining(
    doc: Document,
    entries: Seq<Entry>,
    max_depth: int,
    max_bytes: int,
    count: nat,
)
    requires
        count <= entries.len(),
        max_bytes >= 0,
    ensures
        0 <= retained(doc, entries, max_depth, max_bytes, count).remaining <= max_bytes,
    decreases count,
{
    if count > 0 {
        lemma_retained_remaining(doc, entries, max_depth, max_bytes, (count - 1) as nat);
        lemma_entry_cost(
            doc,
            entries[key_order(entries, entries.len())[count - 1]],
            0,
            max_depth,
            retained(doc, entries, max_depth, max_bytes, (count - 1) as nat).remaining,
        );
    }
}

/// Bytes share a beginning.
pub open spec fn agree_up_to(a: Seq<u8>, b: Seq<u8>, k: int) -> bool {
    &&& 0 <= k <= a.len()
    &&& k <= b.len()
    &&& forall|i: int| 0 <= i < k ==> #[trigger] a[i] == b[i]
}

/// Bytes come before others if they end where the others go on, or have the lesser byte where they
/// first differ.
pub proof fn lemma_byte_order(a: Seq<u8>, b: Seq<u8>, k: int)
    requires
        agree_up_to(a, b, k),
    ensures
        k == a.len() && k < b.len() ==> comes_before(a, b),
        k < a.len() && k < b.len() && a[k] < b[k] ==> comes_before(a, b),
        k < a.len() && k < b.len() && a[k] > b[k] ==> !comes_before(a, b),
        k == b.len() ==> !comes_before(a, b),
    decreases k,
{
    if k > 0 {
        assert(a[0] == b[0]);
        let rest = a.skip(1);
        let other = b.skip(1);
        assert forall|i: int| 0 <= i < k - 1 implies #[trigger] rest[i] == other[i] by {
            assert(a[i + 1] == b[i + 1]);
        }
        lemma_byte_order(rest, other, k - 1);
    }
}

proof fn lemma_not_before_itself(key: Seq<u8>)
    ensures
        !comes_before(key, key),
{
    lemma_byte_order(key, key, key.len() as int);
}

proof fn lemma_entries_before(entries: Seq<Entry>, order: Seq<int>, key: Seq<u8>)
    ensures
        0 <= entries_before(entries, order, key) <= order.len(),
        entries_before(entries, order, key) < order.len() ==> comes_before(
            key,
            entries[order[entries_before(entries, order, key)]].key@,
        ),
    decreases order.len(),
{
    if order.len() > 0 && !comes_before(key, entries[order[0]].key@) {
        let rest = order.skip(1);
        lemma_entries_before(entries, rest, key);
        let n = entries_before(entries, rest, key);
        if n < rest.len() {
            assert(order[n + 1] == rest[n]);
        }
    }
}

/// Entries with the same key keep their order.
pub proof fn lemma_order_stable(entries: Seq<Entry>, count: nat)
    requires
        count <= entries.len(),
    ensures
        key_order(entries, count).len() == count,
        forall|i: int, j: int|
            0 <= i < j < count && entries[#[trigger] key_order(entries, count)[i]].key@
                == entries[#[trigger] key_order(entries, count)[j]].key@ ==> key_order(
                entries,
                count,
            )[i] < key_order(entries, count)[j],
    decreases count,
{
    lemma_key_order(entries, count);
    if count > 0 {
        let before = key_order(entries, (count - 1) as nat);
        lemma_order_stable(entries, (count - 1) as nat);
        lemma_key_order(entries, (count - 1) as nat);
        let key = entries[count - 1].key@;
        let place = entries_before(entries, before, key);
        lemma_entries_before(entries, before, key);
        let order = key_order(entries, count);
        assert(order == before.insert(place, count - 1));
        assert forall|i: int, j: int|
            0 <= i < j < count && entries[#[trigger] order[i]].key@
                == entries[#[trigger] order[j]].key@ implies order[i] < order[j] by {
            if j == place {
                assert(order[i] == before[i]);
            } else if i == place {
                assert(order[j] == before[j - 1]);
                if j - 1 == place {
                    lemma_not_before_itself(key);
                } else {
                    assert(!comes_before(
                        entries[before[j - 1]].key@,
                        entries[before[place]].key@,
                    ));
                }
            } else {
                let a = if i < place {
                    i
                } else {
                    i - 1
                };
                let b = if j < place {
                    j
                } else {
                    j - 1
                };
                assert(order[i] == before[a]);
                assert(order[j] == before[b]);
            }
        }
    }
}

/// The values of an array stand in its model in order, as do the properties of a dictionary with
/// their keys.
pub proof fn lemma_nested_models(
    items: Vec<MarkedContentPropertyValue>,
    entries: Vec<MarkedContentProperty>,
    i: int,
)
    ensures
        ({
            let model = value_model(MarkedContentPropertyValue::Array(items));
            &&& model matches ValueModel::Array(values) ==> values.len() == items@.len() && (0 <= i
                < items@.len() ==> values[i] == value_model(items@[i]))
            &&& model is Array
        }),
        ({
            let model = value_model(MarkedContentPropertyValue::Dictionary(entries));
            &&& model matches ValueModel::Dictionary(list) ==> list.len() == entries@.len() && (0
                <= i < entries@.len() ==> list[i].key == entries@[i].key@ && list[i].value
                == value_model(entries@[i].value))
            &&& model is Dictionary
        }),
{
}

/// Arrays and dictionaries are copied wherever all that they hold is, dictionaries above the
/// greatest depth. The empty ones always are.
pub proof fn lemma_containers_copied(
    doc: Document,
    array: Array,
    dict: Dict,
    depth: int,
    max_depth: int,
    remaining: int,
)
    requires
        depth <= max_depth,
        remaining >= value_cost(),
    ensures
        ({
            let left = remaining - value_cost();
            let items = values_at(
                doc,
                array.items@,
                depth + 1,
                max_depth,
                left,
                array.items@.len(),
            );
            let copy = value_at(doc, Object::Array(array), depth, max_depth, remaining);
            &&& copy.value is Some <==> items.value is Some
            &&& copy.remaining == items.remaining
            &&& array.items@.len() == 0 ==> copy.value is Some && copy.remaining == left
        }),
        depth < max_depth ==> {
            let left = remaining - value_cost();
            let entries = properties_at(
                doc,
                dict.entries@,
                depth + 1,
                max_depth,
                left,
                dict.entries@.len(),
            );
            let copy = value_at(doc, Object::Dict(dict), depth, max_depth, remaining);
            &&& copy.value is Some <==> entries.value is Some
            &&& copy.remaining == entries.remaining
            &&& dict.entries@.len() == 0 ==> copy.value is Some && copy.remaining == left
        },
{
}

/// An item is added to those before it wherever it is there and can be copied.
pub proof fn lemma_item_added(
    doc: Document,
    items: Seq<MaybeRef>,
    depth: int,
    max_depth: int,
    remaining: int,
    count: nat,
)
    ensures
        ({
            let before = values_at(doc, items, depth, max_depth, remaining, count);
            let after = values_at(doc, items, depth, max_depth, remaining, count + 1);
            &&& before.value is Some && doc.resolved(items[count as int]) is Some ==> {
                let item = value_at(
                    doc,
                    doc.resolved(items[count as int])->0,
                    depth,
                    max_depth,
                    before.remaining,
                );
                &&& after.value is Some <==> item.value is Some
                &&& after.remaining == item.remaining
            }
            &&& before.value is None || doc.resolved(items[count as int]) is None
                ==> after.value is None
        }),
{
}

} // verus!
