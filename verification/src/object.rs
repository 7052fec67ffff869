//! PDF objects.

use vstd::prelude::*;

verus! {

/// An identifier for a PDF object.
#[derive(Debug, Clone, Copy, PartialEq, Eq, Structural)]
pub struct ObjectIdentifier {
    /// The object number.
    pub obj_number: i32,
    /// The generation number.
    pub gen_number: i32,
}

/// A number.
#[derive(Debug, Clone, Copy, PartialEq, Eq, Structural)]
pub struct Number {
    /// The value, if the number is written as an integer.
    pub integer: Option<i64>,
    /// The value rounded toward zero.
    pub truncated: i64,
    /// The bits of the value in single precision.
    pub single: u32,
    /// The bits of the value in single precision, rounded to double precision first.
    pub narrowed: u32,
    /// The bits of the value in double precision.
    pub double: u64,
}

/// A primitive PDF object.
#[derive(Debug)]
pub enum Object {
    Null,
    Boolean(bool),
    Number(Number),
    String(Vec<u8>),
    Name(Vec<u8>),
    Dict(Dict),
    Array(Array),
    Stream(Stream),
}

/// An object or a reference to an object.
#[derive(Debug)]
pub enum MaybeRef {
    Ref(ObjectIdentifier),
    NotRef(Object),
}

/// An array of objects.
#[derive(Debug)]
pub struct Array {
    pub items: Vec<MaybeRef>,
}

/// A dictionary.
#[derive(Debug)]
pub struct Dict {
    pub entries: Vec<Entry>,
}

/// An entry of a dictionary.
#[derive(Debug)]
pub struct Entry {
    pub key: Vec<u8>,
    pub value: MaybeRef,
}

/// A stream with its decoded data.
#[derive(Debug)]
pub struct Stream {
    pub dict: Dict,
    /// The decoded data, unless it could not be decoded.
    pub data: Option<Vec<u8>>,
}

/// An indirect object.
#[derive(Debug)]
pub struct IndirectObject {
    pub id: ObjectIdentifier,
    pub object: Object,
}

/// The indirect objects of a document.
#[derive(Debug)]
pub struct Document {
    pub objects: Vec<IndirectObject>,
    /// The identifier of the catalog.
    pub root: ObjectIdentifier,
}

/// Bytes are the UTF-8 form of a text.
pub open spec fn spelled(bytes: Seq<u8>, text: Seq<char>) -> bool {
    bytes == vstd::utf8::encode_utf8(text)
}

/// Whether bytes are the UTF-8 form of a text.
pub fn spells(bytes: &[u8], text: &str) -> (same: bool)
    ensures
        same == spelled(bytes@, text@),
{
    same_bytes(bytes, text.as_bytes())
}

/// Whether two byte strings are the same.
fn same_bytes(a: &[u8], b: &[u8]) -> (same: bool)
    ensures
        same == (a@ == b@),
{
    if a.len() != b.len() {
        return false;
    }
    let mut i: usize = 0;
    while i < a.len()
        invariant
            i <= a@.len(),
            a@.len() == b@.len(),
            forall|k: int| 0 <= k < i ==> a@[k] == b@[k],
        decreases a@.len() - i,
    {
        if a[i] != b[i] {
            return false;
        }
        i = i + 1;
    }
    assert(a@ =~= b@);
    true
}

/// An object is the given name.
pub open spec fn is_named(object: Option<Object>, text: Seq<char>) -> bool {
    object matches Some(Object::Name(name)) && spelled(name@, text)
}

/// Whether an object is the given name.
pub fn has_name(object: Option<&Object>, text: &str) -> (same: bool)
    ensures
        same == match object {
            Some(object) => is_named(Some(*object), text@),
            None => false,
        },
{
    match object {
        Some(Object::Name(name)) => spells(name.as_slice(), text),
        _ => false,
    }
}

/// The place of the first entry with a key.
pub open spec fn entry_place(entries: Seq<Entry>, key: Seq<char>) -> Option<int>
    decreases entries.len(),
{
    if entries.len() == 0 {
        None
    } else if spelled(entries[0].key@, key) {
        Some(0)
    } else {
        match entry_place(entries.skip(1), key) {
            Some(place) => Some(place + 1),
            None => None,
        }
    }
}

impl Dict {
    /// The value of a key as it stands in the dictionary.
    pub open spec fn raw(&self, key: Seq<char>) -> Option<MaybeRef> {
        match entry_place(self.entries@, key) {
            Some(place) => Some(self.entries@[place].value),
            None => None,
        }
    }

    /// Whether the dictionary has a key.
    pub open spec fn has(&self, key: Seq<char>) -> bool {
        self.raw(key) is Some
    }

    /// The value of a key as it stands in the dictionary.
    pub fn get_raw(&self, key: &str) -> (value: Option<&MaybeRef>)
        ensures
            match value {
                Some(value) => self.raw(key@) == Some(*value),
                None => self.raw(key@) is None,
            },
    {
        let mut i: usize = 0;
        assert(self.entries@.skip(0) =~= self.entries@);
        while i < self.entries.len()
            invariant
                i <= self.entries@.len(),
                entry_place(self.entries@, key@) == match entry_place(
                    self.entries@.skip(i as int),
                    key@,
                ) {
                    Some(place) => Some(place + i),
                    None => None,
                },
            decreases self.entries@.len() - i,
        {
            assert(self.entries@.skip(i as int)[0] == self.entries@[i as int]);
            assert(self.entries@.skip(i as int).skip(1) =~= self.entries@.skip(i + 1));
            if spells(self.entries[i].key.as_slice(), key) {
                return Some(&self.entries[i].value);
            }
            i = i + 1;
        }
        None
    }

    /// Whether the dictionary has a key.
    pub fn contains_key(&self, key: &str) -> (contains: bool)
        ensures
            contains == self.has(key@),
    {
        self.get_raw(key).is_some()
    }
}

/// The place of the first entry with a key, given by its bytes.
pub open spec fn named_place(entries: Seq<Entry>, key: Seq<u8>) -> Option<int>
    decreases entries.len(),
{
    if entries.len() == 0 {
        None
    } else if entries[0].key@ == key {
        Some(0)
    } else {
        match named_place(entries.skip(1), key) {
            Some(place) => Some(place + 1),
            None => None,
        }
    }
}

impl Dict {
    /// The value of a key, given by its bytes, as it stands in the dictionary.
    pub open spec fn raw_named(&self, key: Seq<u8>) -> Option<MaybeRef> {
        match named_place(self.entries@, key) {
            Some(place) => Some(self.entries@[place].value),
            None => None,
        }
    }

    /// The value of a key, given by its bytes, as it stands in the dictionary.
    pub fn get_named(&self, key: &[u8]) -> (value: Option<&MaybeRef>)
        ensures
            match value {
                Some(value) => self.raw_named(key@) == Some(*value),
                None => self.raw_named(key@) is None,
            },
    {
        let mut i: usize = 0;
        assert(self.entries@.skip(0) =~= self.entries@);
        while i < self.entries.len()
            invariant
                i <= self.entries@.len(),
                named_place(self.entries@, key@) == match named_place(
                    self.entries@.skip(i as int),
                    key@,
                ) {
                    Some(place) => Some(place + i),
                    None => None,
                },
            decreases self.entries@.len() - i,
        {
            assert(self.entries@.skip(i as int)[0] == self.entries@[i as int]);
            assert(self.entries@.skip(i as int).skip(1) =~= self.entries@.skip(i + 1));
            if same_bytes(self.entries[i].key.as_slice(), key) {
                return Some(&self.entries[i].value);
            }
            i = i + 1;
        }
        None
    }
}

/// The place of the first object with an identifier.
pub open spec fn object_place(objects: Seq<IndirectObject>, id: ObjectIdentifier) -> Option<int>
    decreases objects.len(),
{
    if objects.len() == 0 {
        None
    } else if objects[0].id == id {
        Some(0)
    } else {
        match object_place(objects.skip(1), id) {
            Some(place) => Some(place + 1),
            None => None,
        }
    }
}

impl Document {
    /// The object with an identifier.
    pub open spec fn object(&self, id: ObjectIdentifier) -> Option<Object> {
        match object_place(self.objects@, id) {
            Some(place) => Some(self.objects@[place].object),
            None => None,
        }
    }

    /// The object that stands for itself or that a reference leads to.
    pub open spec fn resolved(&self, value: MaybeRef) -> Option<Object> {
        match value {
            MaybeRef::Ref(id) => self.object(id),
            MaybeRef::NotRef(object) => Some(object),
        }
    }

    /// The object that a key of a dictionary leads to.
    pub open spec fn value(&self, dict: Dict, key: Seq<char>) -> Option<Object> {
        match dict.raw(key) {
            Some(value) => self.resolved(value),
            None => None,
        }
    }

    /// The object with an identifier.
    pub fn get(&self, id: ObjectIdentifier) -> (object: Option<&Object>)
        ensures
            match object {
                Some(object) => self.object(id) == Some(*object),
                None => self.object(id) is None,
            },
    {
        let mut i: usize = 0;
        assert(self.objects@.skip(0) =~= self.objects@);
        while i < self.objects.len()
            invariant
                i <= self.objects@.len(),
                object_place(self.objects@, id) == match object_place(
                    self.objects@.skip(i as int),
                    id,
                ) {
                    Some(place) => Some(place + i),
                    None => None,
                },
            decreases self.objects@.len() - i,
        {
            assert(self.objects@.skip(i as int)[0] == self.objects@[i as int]);
            assert(self.objects@.skip(i as int).skip(1) =~= self.objects@.skip(i + 1));
            if self.objects[i].id == id {
                return Some(&self.objects[i].object);
            }
            i = i + 1;
        }
        None
    }

    /// The object that stands for itself or that a reference leads to.
    pub fn resolve<'a>(&'a self, value: &'a MaybeRef) -> (object: Option<&'a Object>)
        ensures
            match object {
                Some(object) => self.resolved(*value) == Some(*object),
                None => self.resolved(*value) is None,
            },
    {
        match value {
            MaybeRef::Ref(id) => self.get(*id),
            MaybeRef::NotRef(object) => Some(object),
        }
    }

    /// The object that a key of a dictionary leads to.
    pub fn lookup<'a>(&'a self, dict: &'a Dict, key: &str) -> (object: Option<&'a Object>)
        ensures
            match object {
                Some(object) => self.value(*dict, key@) == Some(*object),
                None => self.value(*dict, key@) is None,
            },
    {
        match dict.get_raw(key) {
            Some(value) => self.resolve(value),
            None => None,
        }
    }
}

} // verus!
