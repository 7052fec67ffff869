//! The color spaces of resources.

use crate::list::append;
use crate::object::{Dict, Document, Object};
use crate::types::ColorSpaceKind;
use vstd::prelude::*;

verus! {

/// The color spaces of a content stream, from its own resources out to those around it.
#[derive(Debug)]
pub struct Resources<'a> {
    pub color_spaces: Vec<&'a Dict>,
}

/// Some of the dictionaries has a key.
pub open spec fn has_key(dicts: Seq<&Dict>, key: Seq<char>) -> bool {
    exists|i: int| 0 <= i < dicts.len() && (#[trigger] dicts[i]).has(key)
}

impl<'a> Resources<'a> {
    /// Whether the resources, or those around them, have a color space of a name.
    pub fn contain_color_space(&self, name: &str) -> (result: bool)
        ensures
            result == has_key(self.color_spaces@, name@),
    {
        let mut i: usize = 0;
        while i < self.color_spaces.len()
            invariant
                i <= self.color_spaces@.len(),
                forall|k: int| 0 <= k < i ==> !(#[trigger] self.color_spaces@[k]).has(name@),
            decreases self.color_spaces@.len() - i,
        {
            if self.color_spaces[i].contains_key(name) {
                assert(self.color_spaces@[i as int].has(name@));
                return true;
            }
            i = i + 1;
        }
        false
    }
}

/// A default resource replaces a device color space.
pub open spec fn is_default_overridden(dicts: Seq<&Dict>, kind: Option<ColorSpaceKind>) -> bool {
    match kind {
        Some(ColorSpaceKind::DeviceGray) => has_key(dicts, "DefaultGray"@),
        Some(ColorSpaceKind::DeviceRgb) => has_key(dicts, "DefaultRGB"@),
        Some(ColorSpaceKind::DeviceCmyk) => has_key(dicts, "DefaultCMYK"@),
        _ => false,
    }
}

impl<'a> Resources<'a> {
    /// Whether a default resource replaces a device color space.
    pub fn override_default(&self, kind: Option<ColorSpaceKind>) -> (result: bool)
        ensures
            result == is_default_overridden(self.color_spaces@, kind),
    {
        match kind {
            Some(ColorSpaceKind::DeviceGray) => self.contain_color_space("DefaultGray"),
            Some(ColorSpaceKind::DeviceRgb) => self.contain_color_space("DefaultRGB"),
            Some(ColorSpaceKind::DeviceCmyk) => self.contain_color_space("DefaultCMYK"),
            _ => false,
        }
    }
}

/// A default resource of a form replaces a device color space, whatever stands around the form.
pub proof fn lemma_override_inherited(inner: Seq<&Dict>, outer: Seq<&Dict>, kind: Option<ColorSpaceKind>)
    ensures
        is_default_overridden(inner + outer, kind) == (is_default_overridden(inner, kind)
            || is_default_overridden(outer, kind)),
{
    lemma_has_key(inner, outer, "DefaultGray"@);
    lemma_has_key(inner, outer, "DefaultRGB"@);
    lemma_has_key(inner, outer, "DefaultCMYK"@);
}

proof fn lemma_has_key(inner: Seq<&Dict>, outer: Seq<&Dict>, key: Seq<char>)
    ensures
        has_key(inner + outer, key) == (has_key(inner, key) || has_key(outer, key)),
{
    let all = inner + outer;
    if has_key(inner, key) {
        let i = choose|i: int| 0 <= i < inner.len() && (#[trigger] inner[i]).has(key);
        assert(all[i].has(key));
    }
    if has_key(outer, key) {
        let i = choose|i: int| 0 <= i < outer.len() && (#[trigger] outer[i]).has(key);
        assert(all[inner.len() + i].has(key));
    }
    if has_key(all, key) {
        let i = choose|i: int| 0 <= i < all.len() && (#[trigger] all[i]).has(key);
        if i < inner.len() {
            assert(inner[i].has(key));
        } else {
            assert(outer[i - inner.len()].has(key));
        }
    }
}

/// The object of a color space: what a key leads to, or what a name of a resource leads to.
pub open spec fn named_space(doc: Document, spaces: Dict, name: Seq<u8>) -> Option<Object> {
    match spaces.raw_named(name) {
        Some(value) => doc.resolved(value),
        None => None,
    }
}

/// What the name of a color space leads to.
pub fn lookup_space<'a>(doc: &'a Document, spaces: &'a Dict, name: &[u8]) -> (object: Option<
    &'a Object,
>)
    ensures
        match named_space(*doc, *spaces, name@) {
            Some(expected) => object matches Some(object) && *object == expected,
            None => object is None,
        },
{
    match spaces.get_named(name) {
        Some(value) => doc.resolve(value),
        None => None,
    }
}

/// The color spaces of the resources of a content stream's own dictionary.
pub open spec fn own_spaces<'a>(doc: &'a Document, dict: &'a Dict) -> Seq<&'a Dict> {
    match doc.value(*dict, "Resources"@) {
        Some(Object::Dict(resources)) => match doc.value(resources, "ColorSpace"@) {
            Some(Object::Dict(spaces)) => seq![&spaces],
            _ => Seq::empty(),
        },
        _ => Seq::empty(),
    }
}

/// What the name of a color space leads to, from the innermost resources that lead to anything.
pub open spec fn inherited_space(doc: Document, dicts: Seq<&Dict>, name: Seq<u8>) -> Option<Object>
    decreases dicts.len(),
{
    if dicts.len() == 0 {
        None
    } else {
        match named_space(doc, *dicts[0], name) {
            Some(object) => Some(object),
            None => inherited_space(doc, dicts.skip(1), name),
        }
    }
}

/// A host resolves color spaces to their families in a given way.
pub open spec fn resolves_kinds<F: Fn(&Object) -> Option<ColorSpaceKind>>(
    resolve: F,
    resolved: spec_fn(Object) -> Option<ColorSpaceKind>,
) -> bool {
    forall|object: &Object, kind: Option<ColorSpaceKind>| #[trigger]
        call_ensures(resolve, (object,), kind) ==> kind == resolved(*object)
}

/// A host resolves all color spaces.
pub open spec fn resolves_all_kinds<F: Fn(&Object) -> Option<ColorSpaceKind>>(resolve: F) -> bool {
    forall|object: &Object| call_requires(resolve, (object,))
}

/// The family of a color space: of the object itself, or else of the resource that it names.
pub open spec fn space_kind(
    doc: Document,
    dicts: Seq<&Dict>,
    object: Object,
    resolved: spec_fn(Object) -> Option<ColorSpaceKind>,
) -> Option<ColorSpaceKind> {
    match resolved(object) {
        Some(kind) => Some(kind),
        None => match object {
            Object::Name(name) => match inherited_space(doc, dicts, name@) {
                Some(resource) => resolved(resource),
                None => None,
            },
            _ => None,
        },
    }
}

impl<'a> Resources<'a> {
    /// The resources of a content stream within others.
    pub fn from_parent(doc: &'a Document, dict: &'a Dict, parent: &Resources<'a>) -> (resources:
        Self)
        ensures
            resources.color_spaces@ == own_spaces(doc, dict) + parent.color_spaces@,
    {
        let mut color_spaces: Vec<&'a Dict> = Vec::new();
        match doc.lookup(dict, "Resources") {
            Some(Object::Dict(resources)) => match doc.lookup(resources, "ColorSpace") {
                Some(Object::Dict(spaces)) => {
                    color_spaces.push(spaces);
                },
                _ => {},
            },
            _ => {},
        }
        assert(color_spaces@ =~= own_spaces(doc, dict));
        append(&mut color_spaces, &parent.color_spaces);
        Resources { color_spaces }
    }

    /// What the name of a color space leads to.
    pub fn get_color_space(&self, doc: &'a Document, name: &[u8]) -> (object: Option<&'a Object>)
        ensures
            match inherited_space(*doc, self.color_spaces@, name@) {
                Some(expected) => object matches Some(object) && *object == expected,
                None => object is None,
            },
    {
        let mut i: usize = 0;
        assert(self.color_spaces@.skip(0) =~= self.color_spaces@);
        while i < self.color_spaces.len()
            invariant
                i <= self.color_spaces@.len(),
                inherited_space(*doc, self.color_spaces@, name@) == inherited_space(
                    *doc,
                    self.color_spaces@.skip(i as int),
                    name@,
                ),
            decreases self.color_spaces@.len() - i,
        {
            let ghost rest = self.color_spaces@.skip(i as int);
            assert(rest[0] == self.color_spaces@[i as int]);
            assert(rest.skip(1) =~= self.color_spaces@.skip(i + 1));
            let spaces: &'a Dict = self.color_spaces[i];
            match lookup_space(doc, spaces, name) {
                Some(object) => {
                    return Some(object);
                },
                None => {},
            }
            i = i + 1;
        }
        None
    }

    /// The family of a color space.
    ///
    /// `resolve` gives the family that an object describes by itself.
    pub fn resolve_space<F: Fn(&Object) -> Option<ColorSpaceKind>>(
        &self,
        doc: &'a Document,
        object: &Object,
        resolve: &F,
    ) -> (kind: Option<ColorSpaceKind>)
        requires
            resolves_all_kinds(*resolve),
        ensures
            forall|resolved: spec_fn(Object) -> Option<ColorSpaceKind>| #[trigger]
                resolves_kinds(*resolve, resolved) ==> kind == space_kind(
                    *doc,
                    self.color_spaces@,
                    *object,
                    resolved,
                ),
    {
        match resolve(object) {
            Some(kind) => Some(kind),
            None => match object {
                Object::Name(name) => match self.get_color_space(doc, name.as_slice()) {
                    Some(resource) => resolve(resource),
                    None => None,
                },
                _ => None,
            },
        }
    }
}

} // verus!
