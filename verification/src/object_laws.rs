//! What holds of looking things up in a document.

use crate::object::{
    entry_place, named_place, object_place, spelled, Dict, Document, Entry, IndirectObject,
    MaybeRef, Object, ObjectIdentifier,
};
use vstd::prelude::*;

verus! {

proof fn lemma_entry_place(entries: Seq<Entry>, key: Seq<char>)
    ensures
        match entry_place(entries, key) {
            Some(place) => {
                &&& 0 <= place < entries.len()
                &&& entries[place].key@ == vstd::utf8::encode_utf8(key)
                &&& forall|i: int|
                    0 <= i < place ==> (#[trigger] entries[i]).key@ != vstd::utf8::encode_utf8(key)
            },
            None => forall|i: int|
                0 <= i < entries.len() ==> (#[trigger] entries[i]).key@
                    != vstd::utf8::encode_utf8(key),
        },
    decreases entries.len(),
{
    if entries.len() > 0 && entries[0].key@ != vstd::utf8::encode_utf8(key) {
        let rest = entries.skip(1);
        lemma_entry_place(rest, key);
        assert(forall|i: int| 0 <= i < rest.len() ==> #[trigger] rest[i] == entries[i + 1]);
        assert forall|i: int| 1 <= i < entries.len() implies #[trigger] entries[i] == rest[i
            - 1] by {}
    }
}

/// The value of a key is that of the first entry with the key, and there is none if and only if
/// no entry has it.
pub proof fn lemma_first_entry(dict: Dict, key: Seq<char>)
    ensures
        dict.has(key) <==> exists|i: int|
            0 <= i < dict.entries@.len() && (#[trigger] dict.entries@[i]).key@
                == vstd::utf8::encode_utf8(key),
        dict.has(key) <==> dict.raw(key) is Some,
        forall|i: int|
            0 <= i < dict.entries@.len() && (#[trigger] dict.entries@[i]).key@
                == vstd::utf8::encode_utf8(key) && (forall|j: int|
                0 <= j < i ==> (#[trigger] dict.entries@[j]).key@ != vstd::utf8::encode_utf8(key))
                ==> dict.raw(key) == Some(dict.entries@[i].value),
{
    lemma_entry_place(dict.entries@, key);
}

proof fn lemma_named_place(entries: Seq<Entry>, key: Seq<u8>)
    ensures
        match named_place(entries, key) {
            Some(place) => {
                &&& 0 <= place < entries.len()
                &&& entries[place].key@ == key
                &&& forall|i: int| 0 <= i < place ==> (#[trigger] entries[i]).key@ != key
            },
            None => forall|i: int| 0 <= i < entries.len() ==> (#[trigger] entries[i]).key@ != key,
        },
    decreases entries.len(),
{
    if entries.len() > 0 && entries[0].key@ != key {
        let rest = entries.skip(1);
        lemma_named_place(rest, key);
        assert(forall|i: int| 0 <= i < rest.len() ==> #[trigger] rest[i] == entries[i + 1]);
        assert forall|i: int| 1 <= i < entries.len() implies #[trigger] entries[i] == rest[i
            - 1] by {}
    }
}

/// Looking up a key by its bytes or by the text that they spell is the same.
pub proof fn lemma_named_entry(dict: Dict, key: Seq<char>)
    ensures
        dict.raw_named(vstd::utf8::encode_utf8(key)) == dict.raw(key),
        forall|name: Seq<u8>, i: int|
            0 <= i < dict.entries@.len() && (#[trigger] dict.entries@[i]).key@ == name && (forall|
                j: int,
            |
                0 <= j < i ==> (#[trigger] dict.entries@[j]).key@ != name) ==> #[trigger]
                dict.raw_named(name) == Some(dict.entries@[i].value),
{
    lemma_entry_place(dict.entries@, key);
    lemma_named_place(dict.entries@, vstd::utf8::encode_utf8(key));
    assert forall|name: Seq<u8>, i: int|
        0 <= i < dict.entries@.len() && (#[trigger] dict.entries@[i]).key@ == name && (forall|
            j: int,
        |
            0 <= j < i ==> (#[trigger] dict.entries@[j]).key@ != name) implies #[trigger]
        dict.raw_named(name) == Some(dict.entries@[i].value) by {
        lemma_named_place(dict.entries@, name);
    }
}

proof fn lemma_object_place(objects: Seq<IndirectObject>, id: ObjectIdentifier)
    ensures
        match object_place(objects, id) {
            Some(place) => {
                &&& 0 <= place < objects.len()
                &&& objects[place].id == id
                &&& forall|i: int| 0 <= i < place ==> (#[trigger] objects[i]).id != id
            },
            None => forall|i: int| 0 <= i < objects.len() ==> (#[trigger] objects[i]).id != id,
        },
    decreases objects.len(),
{
    if objects.len() > 0 && objects[0].id != id {
        let rest = objects.skip(1);
        lemma_object_place(rest, id);
        assert(forall|i: int| 0 <= i < rest.len() ==> #[trigger] rest[i] == objects[i + 1]);
        assert forall|i: int| 1 <= i < objects.len() implies #[trigger] objects[i] == rest[i
            - 1] by {}
    }
}

/// A reference leads to the first object with its identifier, to nothing if there is none, and
/// anything else leads to itself.
pub proof fn lemma_reference_resolved(doc: Document, id: ObjectIdentifier, object: Object)
    ensures
        doc.resolved(MaybeRef::NotRef(object)) == Some(object),
        doc.resolved(MaybeRef::Ref(id)) is Some <==> exists|i: int|
            0 <= i < doc.objects@.len() && (#[trigger] doc.objects@[i]).id == id,
        forall|i: int|
            0 <= i < doc.objects@.len() && (#[trigger] doc.objects@[i]).id == id && (forall|j: int|
                0 <= j < i ==> (#[trigger] doc.objects@[j]).id != id) ==> doc.resolved(
                MaybeRef::Ref(id),
            ) == Some(doc.objects@[i].object),
{
    lemma_object_place(doc.objects@, id);
}

/// A key of a dictionary leads where its value does.
pub proof fn lemma_value_resolved(doc: Document, dict: Dict, key: Seq<char>)
    ensures
        dict.raw(key) is None ==> doc.value(dict, key) is None,
        dict.raw(key) matches Some(MaybeRef::NotRef(object)) ==> doc.value(dict, key) == Some(
            object,
        ),
        dict.raw(key) matches Some(MaybeRef::Ref(id)) ==> doc.value(dict, key) == doc.object(id),
{
}

/// Bytes spell one text at most.
pub proof fn lemma_spelled_once(bytes: Seq<u8>, a: Seq<char>, b: Seq<char>)
    requires
        spelled(bytes, a),
        spelled(bytes, b),
    ensures
        a == b,
        bytes == vstd::utf8::encode_utf8(a),
{
    vstd::utf8::encode_utf8_decode_utf8(a);
    vstd::utf8::encode_utf8_decode_utf8(b);
}

} // verus!
