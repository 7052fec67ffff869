//! Properties of marked-content sequences.

use crate::function::double::{finite, is_finite};
use crate::interpret::key_order::{key_order, lemma_key_order, sorted_places};
use crate::interpret::property_value::{
    marked_property, property_at, property_model, property_models, MarkedContentProperty,
    MarkedPropertyBudget, PropertyModel,
};
use crate::list::copied;
use crate::object::{
    has_name, is_named, spelled, spells, Array, Dict, Document, Entry, Object, Stream,
};
use vstd::prelude::*;
use vstd::utf8::encode_utf8;

verus! {

/// Decoded metadata of a marked-content sequence.
#[derive(Debug, PartialEq, Eq)]
pub struct MarkedContentMetadata {
    pub subtype: Vec<u8>,
    pub data: Vec<u8>,
}

/// Owned properties of a marked-content sequence.
#[derive(Debug, PartialEq, Eq)]
pub struct MarkedContentProperties {
    /// The name of the property list, if it is a resource.
    pub property_list_name: Option<Vec<u8>>,
    /// Whether there is a property list.
    pub property_list_resolved: bool,
    pub mcid: Option<i32>,
    pub actual_text: Option<Vec<u8>>,
    pub alternate_text: Option<Vec<u8>>,
    pub language: Option<Vec<u8>>,
    pub property_type: Option<Vec<u8>>,
    pub property_subtype: Option<Vec<u8>>,
    pub name: Option<Vec<u8>>,
    pub owner: Option<Vec<u8>>,
    /// The bits of finite numbers in double precision.
    pub bounding_box: Option<[u64; 4]>,
    pub metadata: Option<MarkedContentMetadata>,
    /// The other properties, in the order of their keys.
    pub additional_properties: Vec<MarkedContentProperty>,
    /// The keys of properties that could not be kept.
    pub unavailable_keys: Vec<Vec<u8>>,
}

/// A key has a meaning of its own.
pub open spec fn is_known(key: Seq<u8>) -> bool {
    ||| spelled(key, "MCID"@)
    ||| spelled(key, "ActualText"@)
    ||| spelled(key, "Alt"@)
    ||| spelled(key, "Lang"@)
    ||| spelled(key, "Type"@)
    ||| spelled(key, "Subtype"@)
    ||| spelled(key, "Name"@)
    ||| spelled(key, "O"@)
    ||| spelled(key, "BBox"@)
    ||| spelled(key, "Metadata"@)
    ||| spelled(key, "OC"@)
}

fn has_own_meaning(key: &[u8]) -> (result: bool)
    ensures
        result == is_known(key@),
{
    spells(key, "MCID") || spells(key, "ActualText") || spells(key, "Alt") || spells(key, "Lang")
        || spells(key, "Type") || spells(key, "Subtype") || spells(key, "Name") || spells(key, "O")
        || spells(key, "BBox") || spells(key, "Metadata") || spells(key, "OC")
}

/// A string that a key leads to.
pub open spec fn string_of(doc: Document, dict: Dict, key: Seq<char>) -> Option<Seq<u8>> {
    match doc.value(dict, key) {
        Some(Object::String(text)) => Some(text@),
        _ => None,
    }
}

/// A name that a key leads to.
pub open spec fn name_of(doc: Document, dict: Dict, key: Seq<char>) -> Option<Seq<u8>> {
    match doc.value(dict, key) {
        Some(Object::Name(name)) => Some(name@),
        _ => None,
    }
}

/// An identifier that a key leads to.
pub open spec fn identifier_of(doc: Document, dict: Dict, key: Seq<char>) -> Option<i32> {
    match doc.value(dict, key) {
        Some(Object::Number(number)) => if i32::MIN <= number.truncated <= i32::MAX {
            Some(number.truncated as i32)
        } else {
            None
        },
        _ => None,
    }
}

/// The item of an array at a place, if it is a number.
pub open spec fn number_at(doc: Document, array: Array, i: int) -> Option<u64> {
    if i < array.items@.len() {
        match doc.resolved(array.items@[i]) {
            Some(Object::Number(number)) => Some(number.double),
            _ => None,
        }
    } else {
        None
    }
}

/// Four finite numbers that a key leads to.
pub open spec fn box_of(doc: Document, dict: Dict, key: Seq<char>) -> Option<[u64; 4]> {
    match doc.value(dict, key) {
        Some(Object::Array(array)) => match (
            number_at(doc, array, 0),
            number_at(doc, array, 1),
            number_at(doc, array, 2),
            number_at(doc, array, 3),
        ) {
            (Some(a), Some(b), Some(c), Some(d)) => if number_at(doc, array, 4) is None && finite(a)
                && finite(b) && finite(c) && finite(d) {
                Some([a, b, c, d])
            } else {
                None
            },
            _ => None,
        },
        _ => None,
    }
}

/// The metadata that a property list leads to.
pub struct MetadataModel {
    pub subtype: Seq<u8>,
    pub data: Seq<u8>,
}

/// The metadata stream of a property list, and the metadata's subtype.
pub open spec fn metadata_stream(doc: Document, dict: Dict) -> Option<(Stream, Seq<u8>)> {
    match doc.value(dict, "Metadata"@) {
        Some(Object::Stream(stream)) => match name_of(doc, stream.dict, "Subtype"@) {
            Some(subtype) => if is_named(doc.value(stream.dict, "Type"@), "Metadata"@) && spelled(
                subtype,
                "XML"@,
            ) {
                Some((stream, subtype))
            } else {
                None
            },
            None => None,
        },
        _ => None,
    }
}

/// The metadata of a property list. `decoded` are the data of a stream up to a limit.
pub open spec fn metadata_of(
    doc: Document,
    dict: Dict,
    limit: usize,
    decoded: spec_fn(Stream, usize) -> Option<Seq<u8>>,
) -> Option<MetadataModel> {
    match metadata_stream(doc, dict) {
        Some((stream, subtype)) => match decoded(stream, limit) {
            Some(data) => Some(MetadataModel { subtype, data }),
            None => None,
        },
        None => None,
    }
}

/// A number of bytes as far as memory can hold them.
pub open spec fn addressable(bytes: u64) -> usize {
    if bytes > usize::MAX {
        usize::MAX
    } else {
        bytes as usize
    }
}

/// A host decodes streams in a given way.
pub open spec fn decodes<F: Fn(&Stream, usize) -> Option<Vec<u8>>>(
    decode: F,
    decoded: spec_fn(Stream, usize) -> Option<Seq<u8>>,
) -> bool {
    forall|stream: &Stream, limit: usize, data: Option<Vec<u8>>| #[trigger]
        call_ensures(decode, (stream, limit), data) ==> match decoded(*stream, limit) {
            Some(expected) => data matches Some(data) && data@ == expected,
            None => data is None,
        }
}

/// A host decodes all streams.
pub open spec fn decodes_all<F: Fn(&Stream, usize) -> Option<Vec<u8>>>(decode: F) -> bool {
    forall|stream: &Stream, limit: usize| call_requires(decode, (stream, limit))
}

/// A key that is present with a value that cannot be used.
pub open spec fn missing(dict: Dict, key: Seq<char>, available: bool) -> Seq<Seq<u8>> {
    if dict.has(key) && !available {
        seq![encode_utf8(key)]
    } else {
        Seq::empty()
    }
}

/// The other properties that were kept, the keys of those that were not, and the bytes that
/// remain.
pub struct Retained {
    pub kept: Seq<PropertyModel>,
    pub unavailable: Seq<Seq<u8>>,
    pub remaining: int,
}

/// What is kept of the first `count` entries in the order of their keys.
pub open spec fn retained(
    doc: Document,
    entries: Seq<Entry>,
    max_depth: int,
    max_bytes: int,
    count: nat,
) -> Retained
    decreases count,
{
    if count == 0 {
        Retained { kept: Seq::empty(), unavailable: Seq::empty(), remaining: max_bytes }
    } else {
        let before = retained(doc, entries, max_depth, max_bytes, (count - 1) as nat);
        let entry = entries[key_order(entries, entries.len())[count - 1]];
        if is_known(entry.key@) {
            before
        } else {
            let property = property_at(doc, entry, 0, max_depth, before.remaining);
            match property.value {
                Some(value) => Retained {
                    kept: before.kept.push(value),
                    unavailable: before.unavailable,
                    remaining: property.remaining,
                },
                None => Retained {
                    kept: before.kept,
                    unavailable: before.unavailable.push(entry.key@),
                    remaining: property.remaining,
                },
            }
        }
    }
}

/// The models of byte strings.
pub open spec fn byte_strings(strings: Seq<Vec<u8>>) -> Seq<Seq<u8>> {
    Seq::new(strings.len(), |i: int| strings[i]@)
}

/// An optional byte string is the given one.
pub open spec fn same_bytes_option(given: Option<Vec<u8>>, expected: Option<Seq<u8>>) -> bool {
    match expected {
        Some(expected) => given matches Some(given) && given@ == expected,
        None => given is None,
    }
}

/// Optional metadata are the given ones.
pub open spec fn same_metadata(
    given: Option<MarkedContentMetadata>,
    expected: Option<MetadataModel>,
) -> bool {
    match expected {
        Some(expected) => given matches Some(given) && given.subtype@ == expected.subtype
            && given.data@ == expected.data,
        None => given is None,
    }
}

/// The known keys that are present with a value that cannot be used.
pub open spec fn unusable(doc: Document, props: Dict, metadata: bool) -> Seq<Seq<u8>> {
    missing(props, "MCID"@, identifier_of(doc, props, "MCID"@) is Some) + missing(
        props,
        "ActualText"@,
        string_of(doc, props, "ActualText"@) is Some,
    ) + missing(props, "Alt"@, string_of(doc, props, "Alt"@) is Some) + missing(
        props,
        "Lang"@,
        string_of(doc, props, "Lang"@) is Some,
    ) + missing(props, "Type"@, name_of(doc, props, "Type"@) is Some) + missing(
        props,
        "Subtype"@,
        name_of(doc, props, "Subtype"@) is Some,
    ) + missing(props, "Name"@, string_of(doc, props, "Name"@) is Some) + missing(
        props,
        "O"@,
        name_of(doc, props, "O"@) is Some,
    ) + missing(props, "BBox"@, box_of(doc, props, "BBox"@) is Some) + missing(
        props,
        "Metadata"@,
        metadata,
    )
}

fn read_string(doc: &Document, dict: &Dict, key: &str) -> (text: Option<Vec<u8>>)
    ensures
        same_bytes_option(text, string_of(*doc, *dict, key@)),
{
    match doc.lookup(dict, key) {
        Some(Object::String(text)) => Some(copied(text.as_slice())),
        _ => None,
    }
}

fn read_name(doc: &Document, dict: &Dict, key: &str) -> (name: Option<Vec<u8>>)
    ensures
        same_bytes_option(name, name_of(*doc, *dict, key@)),
{
    match doc.lookup(dict, key) {
        Some(Object::Name(name)) => Some(copied(name.as_slice())),
        _ => None,
    }
}

fn read_identifier(doc: &Document, dict: &Dict, key: &str) -> (id: Option<i32>)
    ensures
        id == identifier_of(*doc, *dict, key@),
{
    match doc.lookup(dict, key) {
        Some(Object::Number(number)) => if number.truncated >= i32::MIN as i64 && number.truncated
            <= i32::MAX as i64 {
            Some(number.truncated as i32)
        } else {
            None
        },
        _ => None,
    }
}

fn read_number(doc: &Document, array: &Array, i: usize) -> (number: Option<u64>)
    ensures
        number == number_at(*doc, *array, i as int),
{
    if i < array.items.len() {
        match doc.resolve(&array.items[i]) {
            Some(Object::Number(number)) => Some(number.double),
            _ => None,
        }
    } else {
        None
    }
}

fn read_box(doc: &Document, dict: &Dict, key: &str) -> (result: Option<[u64; 4]>)
    ensures
        result == box_of(*doc, *dict, key@),
{
    match doc.lookup(dict, key) {
        Some(Object::Array(array)) => match (
            read_number(doc, array, 0),
            read_number(doc, array, 1),
            read_number(doc, array, 2),
            read_number(doc, array, 3),
        ) {
            (Some(a), Some(b), Some(c), Some(d)) => if read_number(doc, array, 4).is_none()
                && is_finite(a) && is_finite(b) && is_finite(c) && is_finite(d) {
                Some([a, b, c, d])
            } else {
                None
            },
            _ => None,
        },
        _ => None,
    }
}

fn read_metadata<F: Fn(&Stream, usize) -> Option<Vec<u8>>>(
    doc: &Document,
    dict: &Dict,
    limit: usize,
    decode: &F,
) -> (metadata: Option<MarkedContentMetadata>)
    requires
        decodes_all(*decode),
    ensures
        metadata_stream(*doc, *dict) is None ==> metadata is None,
        forall|decoded: spec_fn(Stream, usize) -> Option<Seq<u8>>| #[trigger]
            decodes(*decode, decoded) ==> same_metadata(
                metadata,
                metadata_of(*doc, *dict, limit, decoded),
            ),
{
    match doc.lookup(dict, "Metadata") {
        Some(Object::Stream(stream)) => {
            let subtype = match doc.lookup(&stream.dict, "Subtype") {
                Some(Object::Name(subtype)) => subtype,
                _ => {
                    return None;
                },
            };
            if !has_name(doc.lookup(&stream.dict, "Type"), "Metadata") || !spells(
                subtype.as_slice(),
                "XML",
            ) {
                return None;
            }
            match decode(stream, limit) {
                None => None,
                Some(data) => Some(
                    MarkedContentMetadata { subtype: copied(subtype.as_slice()), data },
                ),
            }
        },
        _ => None,
    }
}

fn note_missing(keys: &mut Vec<Vec<u8>>, dict: &Dict, key: &str, available: bool)
    ensures
        byte_strings(final(keys)@) == byte_strings(old(keys)@) + missing(*dict, key@, available),
{
    if dict.contains_key(key) && !available {
        keys.push(copied(key.as_bytes()));
    }
    assert(byte_strings(keys@) =~= byte_strings(old(keys)@) + missing(*dict, key@, available));
}

/// What the properties of a property list are, besides its name.
pub open spec fn describes(
    given: MarkedContentProperties,
    doc: Document,
    props: Dict,
    max_property_bytes: u64,
    max_property_depth: u32,
) -> bool {
    let others = retained(
        doc,
        props.entries@,
        max_property_depth as int,
        max_property_bytes as int,
        props.entries@.len(),
    );
    &&& given.mcid == identifier_of(doc, props, "MCID"@)
    &&& same_bytes_option(given.actual_text, string_of(doc, props, "ActualText"@))
    &&& same_bytes_option(given.alternate_text, string_of(doc, props, "Alt"@))
    &&& same_bytes_option(given.language, string_of(doc, props, "Lang"@))
    &&& same_bytes_option(given.property_type, name_of(doc, props, "Type"@))
    &&& same_bytes_option(given.property_subtype, name_of(doc, props, "Subtype"@))
    &&& same_bytes_option(given.name, string_of(doc, props, "Name"@))
    &&& same_bytes_option(given.owner, name_of(doc, props, "O"@))
    &&& given.bounding_box == box_of(doc, props, "BBox"@)
    &&& metadata_stream(doc, props) is None ==> given.metadata is None
    &&& property_models(given.additional_properties@) == others.kept
    &&& byte_strings(given.unavailable_keys@) == unusable(doc, props, given.metadata is Some)
        + others.unavailable
}

/// The properties of a property list.
///
/// `decode` decodes a stream up to a number of bytes.
pub fn marked_content_properties<F: Fn(&Stream, usize) -> Option<Vec<u8>>>(
    doc: &Document,
    props: &Dict,
    max_metadata_bytes: u64,
    max_property_bytes: u64,
    max_property_depth: u32,
    decode: &F,
) -> (properties: MarkedContentProperties)
    requires
        decodes_all(*decode),
    ensures
        properties.property_list_name is None,
        properties.property_list_resolved,
        describes(properties, *doc, *props, max_property_bytes, max_property_depth),
        forall|decoded: spec_fn(Stream, usize) -> Option<Seq<u8>>| #[trigger]
            decodes(*decode, decoded) ==> same_metadata(
                properties.metadata,
                metadata_of(*doc, *props, addressable(max_metadata_bytes), decoded),
            ),
{
    let mcid = read_identifier(doc, props, "MCID");
    let actual_text = read_string(doc, props, "ActualText");
    let alternate_text = read_string(doc, props, "Alt");
    let language = read_string(doc, props, "Lang");
    let property_type = read_name(doc, props, "Type");
    let property_subtype = read_name(doc, props, "Subtype");
    let name = read_string(doc, props, "Name");
    let owner = read_name(doc, props, "O");
    let bounding_box = read_box(doc, props, "BBox");
    let limit: usize = if max_metadata_bytes > usize::MAX as u64 {
        usize::MAX
    } else {
        max_metadata_bytes as usize
    };
    let metadata = read_metadata(doc, props, limit, decode);
    let mut unavailable_keys: Vec<Vec<u8>> = Vec::new();
    assert(byte_strings(unavailable_keys@) =~= Seq::empty());
    note_missing(&mut unavailable_keys, props, "MCID", mcid.is_some());
    note_missing(&mut unavailable_keys, props, "ActualText", actual_text.is_some());
    note_missing(&mut unavailable_keys, props, "Alt", alternate_text.is_some());
    note_missing(&mut unavailable_keys, props, "Lang", language.is_some());
    note_missing(&mut unavailable_keys, props, "Type", property_type.is_some());
    note_missing(&mut unavailable_keys, props, "Subtype", property_subtype.is_some());
    note_missing(&mut unavailable_keys, props, "Name", name.is_some());
    note_missing(&mut unavailable_keys, props, "O", owner.is_some());
    note_missing(&mut unavailable_keys, props, "BBox", bounding_box.is_some());
    note_missing(&mut unavailable_keys, props, "Metadata", metadata.is_some());
    let ghost first = unusable(*doc, *props, metadata is Some);
    assert(byte_strings(unavailable_keys@) =~= first);
    let additional_properties = retain_others(
        doc,
        props,
        max_property_bytes,
        max_property_depth,
        &mut unavailable_keys,
    );
    MarkedContentProperties {
        property_list_name: None,
        property_list_resolved: true,
        mcid,
        actual_text,
        alternate_text,
        language,
        property_type,
        property_subtype,
        name,
        owner,
        bounding_box,
        metadata,
        additional_properties,
        unavailable_keys,
    }
}

/// Keep the properties whose keys have no meaning of their own.
fn retain_others(
    doc: &Document,
    props: &Dict,
    max_property_bytes: u64,
    max_property_depth: u32,
    unavailable_keys: &mut Vec<Vec<u8>>,
) -> (kept: Vec<MarkedContentProperty>)
    ensures
        ({
            let others = retained(
                *doc,
                props.entries@,
                max_property_depth as int,
                max_property_bytes as int,
                props.entries@.len(),
            );
            &&& property_models(kept@) == others.kept
            &&& byte_strings(final(unavailable_keys)@) == byte_strings(old(unavailable_keys)@)
                + others.unavailable
        }),
{
    let ghost start = byte_strings(unavailable_keys@);
    let mut budget = MarkedPropertyBudget::new(max_property_bytes, max_property_depth);
    let mut kept: Vec<MarkedContentProperty> = Vec::new();
    let places = sorted_places(&props.entries);
    let mut i: usize = 0;
    assert(property_models(kept@) =~= Seq::empty());
    assert(start =~= start + Seq::<Seq<u8>>::empty());
    while i < places.len()
        invariant
            i <= places@.len() == props.entries@.len(),
            budget.max_depth == max_property_depth,
            start == byte_strings(old(unavailable_keys)@),
            forall|k: int|
                0 <= k < places@.len() ==> #[trigger] places@[k] == key_order(
                    props.entries@,
                    props.entries@.len(),
                )[k],
            forall|k: int| 0 <= k < places@.len() ==> #[trigger] places@[k] < props.entries@.len(),
            ({
                let others = retained(
                    *doc,
                    props.entries@,
                    max_property_depth as int,
                    max_property_bytes as int,
                    i as nat,
                );
                &&& property_models(kept@) == others.kept
                &&& byte_strings(unavailable_keys@) == start + others.unavailable
                &&& budget.remaining_bytes == others.remaining
            }),
        decreases places@.len() - i,
    {
        let place: usize = places[i];
        let ghost others = retained(
            *doc,
            props.entries@,
            max_property_depth as int,
            max_property_bytes as int,
            i as nat,
        );
        let entry = &props.entries[place];
        if !has_own_meaning(entry.key.as_slice()) {
            let ghost kept_before = kept@;
            let ghost keys_before = unavailable_keys@;
            match marked_property(doc, entry, 0, &mut budget) {
                Some(property) => {
                    kept.push(property);
                    assert(property_models(kept@) =~= property_models(kept_before).push(
                        property_model(property),
                    ));
                },
                None => {
                    unavailable_keys.push(copied(entry.key.as_slice()));
                    assert(byte_strings(unavailable_keys@) =~= byte_strings(keys_before).push(
                        entry.key@,
                    ));
                    assert((start + others.unavailable).push(entry.key@) =~= start
                        + others.unavailable.push(entry.key@));
                },
            }
        }
        i = i + 1;
    }
    kept
}

/// Each entry whose key has no meaning of its own is kept, or its key is unavailable.
pub proof fn lemma_entries_accounted(
    doc: Document,
    entries: Seq<Entry>,
    max_depth: int,
    max_bytes: int,
    i: int,
)
    requires
        0 <= i < entries.len(),
        !is_known(entries[i].key@),
    ensures
        ({
            let others = retained(doc, entries, max_depth, max_bytes, entries.len());
            ||| others.unavailable.contains(entries[i].key@)
            ||| exists|k: int|
                0 <= k < others.kept.len() && (#[trigger] others.kept[k]).key == entries[i].key@
        }),
{
    lemma_key_order(entries, entries.len());
    let order = key_order(entries, entries.len());
    assert(order.contains(i));
    let place = choose|place: int| 0 <= place < order.len() && order[place] == i;
    lemma_accounted_prefix(doc, entries, max_depth, max_bytes, place, entries.len());
}

proof fn lemma_accounted_prefix(
    doc: Document,
    entries: Seq<Entry>,
    max_depth: int,
    max_bytes: int,
    place: int,
    count: nat,
)
    requires
        0 <= place < count <= entries.len(),
        !is_known(entries[key_order(entries, entries.len())[place]].key@),
    ensures
        ({
            let key = entries[key_order(entries, entries.len())[place]].key@;
            let others = retained(doc, entries, max_depth, max_bytes, count);
            ||| others.unavailable.contains(key)
            ||| exists|k: int|
                0 <= k < others.kept.len() && (#[trigger] others.kept[k]).key == key
        }),
    decreases count,
{
    let key = entries[key_order(entries, entries.len())[place]].key@;
    let before = retained(doc, entries, max_depth, max_bytes, (count - 1) as nat);
    let others = retained(doc, entries, max_depth, max_bytes, count);
    if place == count - 1 {
        if others.unavailable.len() > before.unavailable.len() {
            assert(others.unavailable[others.unavailable.len() - 1] == key);
        } else {
            assert(others.kept[others.kept.len() - 1].key == key);
        }
    } else {
        lemma_accounted_prefix(doc, entries, max_depth, max_bytes, place, (count - 1) as nat);
        if before.unavailable.contains(key) {
            let k = choose|k: int| 0 <= k < before.unavailable.len() && before.unavailable[k] == key;
            assert(others.unavailable[k] == key);
        } else {
            let k = choose|k: int|
                0 <= k < before.kept.len() && (#[trigger] before.kept[k]).key == key;
            assert(others.kept[k].key == key);
        }
    }
}

} // verus!
