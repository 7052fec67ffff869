//! Form objects.

use crate::object::{
    has_name, is_named, spelled, spells, Array, Dict, Document, MaybeRef, Object, Stream,
};
use crate::types::ColorSpaceKind;
use crate::x_object::resources::{
    is_default_overridden, own_spaces, resolves_all_kinds, resolves_kinds, space_kind, Resources,
};
use vstd::prelude::*;

verus! {

/// Typed properties declared by a form's `/Group` dictionary.
///
/// Consumers that require exact transparency semantics must additionally require
/// [`Self::is_transparency`] before relying on the remaining values.
#[derive(Clone, Copy, Debug, Eq, Hash, PartialEq, Structural)]
pub struct FormGroupProperties {
    pub is_transparency: bool,
    pub isolated: bool,
    pub knockout: bool,
    pub has_color_space: bool,
    pub declared_color_space_kind: Option<ColorSpaceKind>,
    pub color_space_kind: Option<ColorSpaceKind>,
    pub color_space_default_overridden: bool,
}

impl FormGroupProperties {
    /// Whether `/S /Transparency` identifies a transparency group.
    pub fn is_transparency(self) -> (result: bool)
        ensures
            result == self.is_transparency,
    {
        self.is_transparency
    }

    /// Whether the group declares `/I true` isolation.
    pub fn isolated(self) -> (result: bool)
        ensures
            result == self.isolated,
    {
        self.isolated
    }

    /// Whether the group declares `/K true` knockout behavior.
    pub fn knockout(self) -> (result: bool)
        ensures
            result == self.knockout,
    {
        self.knockout
    }

    /// Whether the group explicitly declares a blending color space.
    pub fn has_color_space(self) -> (result: bool)
        ensures
            result == self.has_color_space,
    {
        self.has_color_space
    }

    /// Direct device-space family named by `/CS` before a default resource is applied.
    pub fn declared_color_space_kind(self) -> (result: Option<ColorSpaceKind>)
        ensures
            result == self.declared_color_space_kind,
    {
        self.declared_color_space_kind
    }

    /// Parsed family of the explicit blending color space.
    ///
    /// There is none if the group omits `/CS`, if the color space cannot be parsed, or if a
    /// default resource remaps a direct device-space name.
    pub fn color_space_kind(self) -> (result: Option<ColorSpaceKind>)
        ensures
            result == self.color_space_kind,
    {
        self.color_space_kind
    }

    /// Whether a default device color-space resource remaps the declared `/CS`.
    pub fn color_space_is_default_overridden(self) -> (result: bool)
        ensures
            result == self.color_space_default_overridden,
    {
        self.color_space_default_overridden
    }
}

/// The device color space of a name.
pub open spec fn device_space(name: Seq<u8>) -> Option<ColorSpaceKind> {
    if spelled(name, "DeviceGray"@) || spelled(name, "G"@) {
        Some(ColorSpaceKind::DeviceGray)
    } else if spelled(name, "DeviceRGB"@) || spelled(name, "RGB"@) {
        Some(ColorSpaceKind::DeviceRgb)
    } else if spelled(name, "DeviceCMYK"@) || spelled(name, "CMYK"@) {
        Some(ColorSpaceKind::DeviceCmyk)
    } else {
        None
    }
}

fn read_device_space(name: &[u8]) -> (kind: Option<ColorSpaceKind>)
    ensures
        kind == device_space(name@),
{
    if spells(name, "DeviceGray") || spells(name, "G") {
        Some(ColorSpaceKind::DeviceGray)
    } else if spells(name, "DeviceRGB") || spells(name, "RGB") {
        Some(ColorSpaceKind::DeviceRgb)
    } else if spells(name, "DeviceCMYK") || spells(name, "CMYK") {
        Some(ColorSpaceKind::DeviceCmyk)
    } else {
        None
    }
}

/// A key leads to `true`.
pub open spec fn is_true(doc: Document, dict: Dict, key: Seq<char>) -> bool {
    doc.value(dict, key) matches Some(Object::Boolean(true))
}

fn read_true(doc: &Document, dict: &Dict, key: &str) -> (result: bool)
    ensures
        result == is_true(*doc, *dict, key@),
{
    match doc.lookup(dict, key) {
        Some(Object::Boolean(value)) => *value,
        _ => false,
    }
}

/// The device color space that a group names.
pub open spec fn group_space(doc: Document, group: Dict) -> Option<ColorSpaceKind> {
    match doc.value(group, "CS"@) {
        Some(Object::Name(name)) => device_space(name@),
        _ => None,
    }
}

/// The properties that a group declares.
pub open spec fn declared_group(doc: Document, group: Dict) -> FormGroupProperties {
    FormGroupProperties {
        is_transparency: is_named(doc.value(group, "S"@), "Transparency"@),
        isolated: is_true(doc, group, "I"@),
        knockout: is_true(doc, group, "K"@),
        has_color_space: group.has("CS"@),
        declared_color_space_kind: group_space(doc, group),
        color_space_kind: group_space(doc, group),
        color_space_default_overridden: false,
    }
}

/// The properties of the group of a form.
pub open spec fn form_group(doc: Document, dict: Dict) -> Option<FormGroupProperties> {
    match doc.value(dict, "Group"@) {
        Some(Object::Dict(group)) => Some(declared_group(doc, group)),
        _ => None,
    }
}

/// The properties of the group of a form.
pub fn read_group(doc: &Document, dict: &Dict) -> (properties: Option<FormGroupProperties>)
    ensures
        properties == form_group(*doc, *dict),
{
    match doc.lookup(dict, "Group") {
        Some(Object::Dict(group)) => {
            let kind = match doc.lookup(group, "CS") {
                Some(Object::Name(name)) => read_device_space(name.as_slice()),
                _ => None,
            };
            Some(
                FormGroupProperties {
                    is_transparency: has_name(doc.lookup(group, "S"), "Transparency"),
                    isolated: read_true(doc, group, "I"),
                    knockout: read_true(doc, group, "K"),
                    has_color_space: group.contains_key("CS"),
                    declared_color_space_kind: kind,
                    color_space_kind: kind,
                    color_space_default_overridden: false,
                },
            )
        },
        _ => None,
    }
}

/// The number at a place of an array.
pub open spec fn number_at(doc: Document, items: Seq<MaybeRef>, i: int) -> Option<(u32, u64)> {
    if i < items.len() {
        match doc.resolved(items[i]) {
            Some(Object::Number(number)) => Some((number.narrowed, number.double)),
            _ => None,
        }
    } else {
        None
    }
}

/// The first `count` items are numbers, and the next item, if there is one, is not.
pub open spec fn are_numbers(doc: Document, items: Seq<MaybeRef>, count: int) -> bool {
    &&& forall|i: int| 0 <= i < count ==> #[trigger] number_at(doc, items, i) is Some
    &&& number_at(doc, items, count) is None
}

/// Numbers in double precision that a key leads to, exactly so many.
pub open spec fn doubles_of(doc: Document, dict: Dict, key: Seq<char>, count: int) -> Option<
    Seq<u64>,
> {
    match doc.value(dict, key) {
        Some(Object::Array(array)) => if are_numbers(doc, array.items@, count) {
            Some(Seq::new(count as nat, |i: int| (number_at(doc, array.items@, i)->0).1))
        } else {
            None
        },
        _ => None,
    }
}

/// Numbers in single precision that a key leads to, exactly so many.
pub open spec fn singles_of(doc: Document, dict: Dict, key: Seq<char>, count: int) -> Option<
    Seq<u32>,
> {
    match doc.value(dict, key) {
        Some(Object::Array(array)) => if are_numbers(doc, array.items@, count) {
            Some(Seq::new(count as nat, |i: int| (number_at(doc, array.items@, i)->0).0))
        } else {
            None
        },
        _ => None,
    }
}

fn read_number(doc: &Document, array: &Array, i: usize) -> (number: Option<(u32, u64)>)
    ensures
        number == number_at(*doc, array.items@, i as int),
{
    if i < array.items.len() {
        match doc.resolve(&array.items[i]) {
            Some(Object::Number(number)) => Some((number.narrowed, number.double)),
            _ => None,
        }
    } else {
        None
    }
}

/// Numbers that a key leads to, exactly so many, in both precisions.
fn read_numbers(doc: &Document, dict: &Dict, key: &str, count: usize) -> (numbers: Option<
    (Vec<u32>, Vec<u64>),
>)
    ensures
        match numbers {
            Some((singles, doubles)) => {
                &&& singles_of(*doc, *dict, key@, count as int) == Some(singles@)
                &&& doubles_of(*doc, *dict, key@, count as int) == Some(doubles@)
            },
            None => {
                &&& singles_of(*doc, *dict, key@, count as int) is None
                &&& doubles_of(*doc, *dict, key@, count as int) is None
            },
        },
{
    match doc.lookup(dict, key) {
        Some(Object::Array(array)) => {
            let mut singles: Vec<u32> = Vec::new();
            let mut doubles: Vec<u64> = Vec::new();
            let mut i: usize = 0;
            while i < count
                invariant
                    i <= count,
                    doc.value(*dict, key@) == Some(Object::Array(*array)),
                    singles@.len() == i,
                    doubles@.len() == i,
                    forall|k: int|
                        0 <= k < i ==> #[trigger] number_at(*doc, array.items@, k) == Some(
                            (singles@[k], doubles@[k]),
                        ),
                decreases count - i,
            {
                match read_number(doc, array, i) {
                    Some((single, double)) => {
                        singles.push(single);
                        doubles.push(double);
                    },
                    None => {
                        assert(number_at(*doc, array.items@, i as int) is None);
                        return None;
                    },
                }
                i = i + 1;
            }
            if read_number(doc, array, count).is_some() {
                return None;
            }
            proof {
                let a = Seq::new(count as nat, |k: int| (number_at(*doc, array.items@, k)->0).0);
                let b = Seq::new(count as nat, |k: int| (number_at(*doc, array.items@, k)->0).1);
                assert forall|k: int| 0 <= k < count implies a[k] == singles@[k] && b[k]
                    == doubles@[k] by {
                    assert(number_at(*doc, array.items@, k) == Some((singles@[k], doubles@[k])));
                }
                assert(a =~= singles@);
                assert(b =~= doubles@);
            }
            Some((singles, doubles))
        },
        _ => None,
    }
}

/// The coefficients of a matrix, given by their bits in double precision.
#[derive(Clone, Copy, Debug, PartialEq, Eq, Structural)]
pub struct Matrix {
    pub a: u64,
    pub b: u64,
    pub c: u64,
    pub d: u64,
    pub e: u64,
    pub f: u64,
}

/// The matrix of a dictionary.
pub open spec fn matrix_of(doc: Document, dict: Dict) -> Option<Matrix> {
    match doubles_of(doc, dict, "Matrix"@, 6) {
        Some(values) => Some(
            Matrix {
                a: values[0],
                b: values[1],
                c: values[2],
                d: values[3],
                e: values[4],
                f: values[5],
            },
        ),
        None => None,
    }
}

/// The matrix of a dictionary, exactly six numbers.
pub fn read_matrix(doc: &Document, dict: &Dict) -> (matrix: Option<Matrix>)
    ensures
        matrix == matrix_of(*doc, *dict),
{
    match read_numbers(doc, dict, "Matrix", 6) {
        Some((_, values)) => Some(
            Matrix {
                a: values[0],
                b: values[1],
                c: values[2],
                d: values[3],
                e: values[4],
                f: values[5],
            },
        ),
        None => None,
    }
}

/// A form, as its dictionary describes it.
#[derive(Debug)]
pub struct FormXObject {
    /// The matrix; without one it is the identity.
    pub matrix: Option<Matrix>,
    /// The corners of the bounding box, given by their bits in single precision.
    pub bbox: Vec<u32>,
    pub group_properties: Option<FormGroupProperties>,
}

/// A form is the one that a dictionary describes.
pub open spec fn describes_form(form: FormXObject, doc: Document, dict: Dict) -> bool {
    &&& form.matrix == matrix_of(doc, dict)
    &&& singles_of(doc, dict, "BBox"@, 4) == Some(form.bbox@)
    &&& form.group_properties == form_group(doc, dict)
}

impl FormXObject {
    /// A form, if its content can be decoded and it has a bounding box.
    pub fn new(doc: &Document, stream: &Stream) -> (form: Option<Self>)
        ensures
            match form {
                Some(form) => stream.data is Some && describes_form(form, *doc, stream.dict),
                None => stream.data is None || singles_of(*doc, stream.dict, "BBox"@, 4) is None,
            },
    {
        if stream.data.is_none() {
            return None;
        }
        let matrix = read_matrix(doc, &stream.dict);
        let bbox = match read_numbers(doc, &stream.dict, "BBox", 4) {
            Some((singles, _)) => singles,
            None => {
                return None;
            },
        };
        let group_properties = read_group(doc, &stream.dict);
        Some(FormXObject { matrix, bbox, group_properties })
    }
}

/// The properties of the group of an invocation.
///
/// `resolved` is the family that the color space of the group resolves to. A default resource
/// remaps a direct device-space name.
pub open spec fn invoked_group(
    declared: Option<FormGroupProperties>,
    resolved: Option<ColorSpaceKind>,
    dicts: Seq<&Dict>,
) -> Option<FormGroupProperties> {
    match declared {
        None => None,
        Some(properties) => Some(
            if is_default_overridden(dicts, properties.declared_color_space_kind) {
                FormGroupProperties {
                    color_space_kind: None,
                    color_space_default_overridden: true,
                    ..properties
                }
            } else {
                FormGroupProperties { color_space_kind: resolved, ..properties }
            },
        ),
    }
}

/// What the host does to interpret a form.
#[derive(Clone, Copy, Debug, PartialEq, Eq, Structural)]
pub enum FormAction {
    /// Begin a transparency group with the alpha, the soft mask and the blend mode of the state.
    PushGroup,
    /// Forget the alpha constants.
    ResetAlpha,
    /// Clip to the bounding box.
    PushClip,
    Interpret,
    PopClip,
    PopGroup,
}

/// What the host does to interpret a form.
pub open spec fn form_actions(is_group: bool) -> Seq<FormAction> {
    if is_group {
        seq![
            FormAction::PushGroup,
            FormAction::ResetAlpha,
            FormAction::PushClip,
            FormAction::Interpret,
            FormAction::PopClip,
            FormAction::PopGroup,
        ]
    } else {
        seq![FormAction::PushClip, FormAction::Interpret, FormAction::PopClip]
    }
}

/// The family that the color space of the group of a form resolves to.
pub open spec fn invoked_space(
    doc: Document,
    dict: Dict,
    dicts: Seq<&Dict>,
    resolved: spec_fn(Object) -> Option<ColorSpaceKind>,
) -> Option<ColorSpaceKind> {
    match doc.value(dict, "Group"@) {
        Some(Object::Dict(group)) => match doc.value(group, "CS"@) {
            Some(object) => space_kind(doc, dicts, object, resolved),
            None => None,
        },
        _ => None,
    }
}

/// One invocation of a form.
#[derive(Clone, Copy, Debug, PartialEq, Eq, Structural)]
pub struct FormInvocation {
    pub group_properties: Option<FormGroupProperties>,
    /// The family that the color space of the group resolves to.
    pub group_color_space: Option<ColorSpaceKind>,
    pub has_soft_mask: bool,
}

impl FormInvocation {
    /// An invocation of a form with a dictionary, within the resources around it.
    ///
    /// `resolve` gives the family of a color space that an object describes by itself.
    pub fn new<'a, F: Fn(&Object) -> Option<ColorSpaceKind>>(
        doc: &'a Document,
        dict: &'a Dict,
        form: &FormXObject,
        parent: &Resources<'a>,
        has_soft_mask: bool,
        resolve: &F,
    ) -> (invocation: Self)
        requires
            resolves_all_kinds(*resolve),
        ensures
            forall|resolved: spec_fn(Object) -> Option<ColorSpaceKind>| #[trigger]
                resolves_kinds(*resolve, resolved) ==> {
                    let dicts = own_spaces(doc, dict) + parent.color_spaces@;
                    let kind = invoked_space(*doc, *dict, dicts, resolved);
                    &&& invocation.group_color_space == kind
                    &&& invocation.group_properties == invoked_group(
                        form.group_properties,
                        kind,
                        dicts,
                    )
                },
            invocation.has_soft_mask == has_soft_mask,
    {
        let resources = Resources::from_parent(doc, dict, parent);
        let resolved = match doc.lookup(dict, "Group") {
            Some(Object::Dict(group)) => match doc.lookup(group, "CS") {
                Some(object) => resources.resolve_space(doc, object, resolve),
                None => None,
            },
            _ => None,
        };
        let group_properties = match form.group_properties {
            None => None,
            Some(properties) => {
                let mut properties = properties;
                properties.color_space_kind = resolved;
                if resources.override_default(properties.declared_color_space_kind) {
                    properties.color_space_kind = None;
                    properties.color_space_default_overridden = true;
                }
                Some(properties)
            },
        };
        FormInvocation { group_properties, group_color_space: resolved, has_soft_mask }
    }

    /// Whether the form dictionary declares a transparency group.
    pub fn is_transparency_group(&self) -> (result: bool)
        ensures
            result == (self.group_properties matches Some(properties)
                && properties.is_transparency),
    {
        match self.group_properties {
            Some(properties) => properties.is_transparency,
            None => false,
        }
    }

    /// Typed properties from the form's `/Group` dictionary, when present.
    pub fn group_properties(&self) -> (properties: Option<FormGroupProperties>)
        ensures
            properties == self.group_properties,
    {
        self.group_properties
    }

    /// The family of the blending color space declared by the group, when valid.
    pub fn group_color_space(&self) -> (kind: Option<ColorSpaceKind>)
        ensures
            kind == self.group_color_space,
    {
        self.group_color_space
    }

    /// Whether the invocation inherits a soft mask whose root transform cannot yet be normalized
    /// independently of the page instance.
    pub fn has_inherited_soft_mask(&self) -> (result: bool)
        ensures
            result == self.has_soft_mask,
    {
        self.has_soft_mask
    }

    /// What the host does to interpret the form.
    pub fn interpret_with_root(&self) -> (actions: Vec<FormAction>)
        ensures
            actions@ == form_actions(self.group_properties is Some),
    {
        let is_group = self.group_properties.is_some();
        let mut actions: Vec<FormAction> = Vec::new();
        if is_group {
            actions.push(FormAction::PushGroup);
            actions.push(FormAction::ResetAlpha);
        }
        actions.push(FormAction::PushClip);
        actions.push(FormAction::Interpret);
        actions.push(FormAction::PopClip);
        if is_group {
            actions.push(FormAction::PopGroup);
        }
        assert(actions@ =~= form_actions(is_group));
        actions
    }
}

/// A group whose declared color space is remapped has no family; otherwise it has the resolved
/// one. What the group declares stays.
pub proof fn lemma_invoked_group(
    declared: FormGroupProperties,
    resolved: Option<ColorSpaceKind>,
    dicts: Seq<&Dict>,
)
    requires
        !declared.color_space_default_overridden,
    ensures
        ({
            let invoked = invoked_group(Some(declared), resolved, dicts)->0;
            &&& invoked.color_space_default_overridden ==> invoked.color_space_kind is None
            &&& !invoked.color_space_default_overridden ==> invoked.color_space_kind == resolved
            &&& invoked.declared_color_space_kind == declared.declared_color_space_kind
            &&& invoked.is_transparency == declared.is_transparency
            &&& invoked.isolated == declared.isolated
            &&& invoked.knockout == declared.knockout
        }),
{
}

} // verus!
