//! Opening marked-content sequences with properties.

use crate::interpret::marked_content::{
    addressable, decodes, decodes_all, describes, marked_content_properties, metadata_of,
    same_bytes_option, same_metadata, MarkedContentProperties,
};
use crate::list::copied;
use crate::object::{
    has_name, is_named, Array, Dict, Document, MaybeRef, Object, ObjectIdentifier, Stream,
};
use crate::ocg::expression::OptionalContentExpression;
use crate::ocg::state::{opened, OcgState, VisibilityFrame};
use vstd::prelude::*;

verus! {

/// The limits of marked-content properties.
#[derive(Clone, Copy, Debug, PartialEq, Eq, Structural)]
pub struct PropertyLimits {
    /// Maximum decoded metadata bytes copied from one marked-content property list.
    pub max_metadata_bytes: u64,
    /// Maximum bytes retained for producer-defined entries in one marked-content property list,
    /// including structural accounting.
    pub max_property_bytes: u64,
    /// Maximum nested array and dictionary depth retained for one marked-content property value.
    pub max_property_depth: u32,
}

/// The name of a property list.
pub open spec fn list_name(operand: Object) -> Option<Seq<u8>> {
    match operand {
        Object::Name(name) => Some(name@),
        _ => None,
    }
}

/// The reference of a property list that is a resource.
pub open spec fn list_reference(resources: Dict, operand: Object) -> Option<ObjectIdentifier> {
    match operand {
        Object::Name(name) => match resources.raw_named(name@) {
            Some(MaybeRef::Ref(id)) => Some(id),
            _ => None,
        },
        _ => None,
    }
}

/// The property list that an operand is or names.
pub open spec fn property_list(doc: Document, resources: Dict, operand: Object) -> Option<Dict> {
    match operand {
        Object::Name(name) => match resources.raw_named(name@) {
            Some(value) => match doc.resolved(value) {
                Some(Object::Dict(dict)) => Some(dict),
                _ => None,
            },
            None => None,
        },
        Object::Dict(dict) => Some(dict),
        Object::Stream(stream) => Some(stream.dict),
        _ => None,
    }
}

/// The membership that a property list gives, and the reference to it.
pub open spec fn membership(doc: Document, resources: Dict, operand: Object) -> Option<
    (Dict, Option<ObjectIdentifier>),
> {
    match property_list(doc, resources, operand) {
        None => None,
        Some(props) => match doc.value(props, "OC"@) {
            Some(Object::Dict(dict)) => Some(
                (
                    dict,
                    match props.raw("OC"@) {
                        Some(MaybeRef::Ref(id)) => Some(id),
                        _ => None,
                    },
                ),
            ),
            _ => if is_named(doc.value(props, "Type"@), "OCG"@) || is_named(
                doc.value(props, "Type"@),
                "OCMD"@,
            ) {
                Some((props, list_reference(resources, operand)))
            } else {
                None
            },
        },
    }
}

/// A marked-content sequence that was opened.
#[derive(Debug)]
pub struct BegunContent {
    pub properties: MarkedContentProperties,
    /// The expression of optional content, if there is one.
    pub expression: Option<OptionalContentExpression>,
    /// Whether the beginning of optional content is reported to the device.
    pub begins_optional_content: bool,
    /// Whether a membership could not be converted into an expression.
    pub expression_failed: bool,
}

/// A sequence was opened as the membership says.
pub open spec fn opened_by(
    before: OcgState,
    after: OcgState,
    doc: Document,
    given: Option<(Dict, Option<ObjectIdentifier>)>,
    expression: Option<OptionalContentExpression>,
) -> bool {
    match given {
        Some((dict, Some(reference))) => opened(
            before,
            after,
            doc,
            dict,
            Some(reference),
            expression,
        ),
        Some((dict, None)) if is_named(doc.value(dict, "Type"@), "OCMD"@) => opened(
            before,
            after,
            doc,
            dict,
            None,
            expression,
        ),
        _ => {
            &&& expression is None
            &&& after.same_groups(&before)
            &&& after.visibility_stack@ == before.visibility_stack@.push(
                VisibilityFrame { visible: before.effective(), emit_optional_callback: false },
            )
        },
    }
}

/// Properties of a sequence without a property list.
pub open spec fn is_empty(properties: MarkedContentProperties) -> bool {
    &&& properties.mcid is None
    &&& properties.actual_text is None
    &&& properties.alternate_text is None
    &&& properties.language is None
    &&& properties.property_type is None
    &&& properties.property_subtype is None
    &&& properties.name is None
    &&& properties.owner is None
    &&& properties.bounding_box is None
    &&& properties.metadata is None
    &&& properties.additional_properties@.len() == 0
    &&& properties.unavailable_keys@.len() == 0
}

fn find_list<'a>(doc: &'a Document, resources: &'a Dict, operand: &'a Object) -> (list: Option<
    &'a Dict,
>)
    ensures
        match property_list(*doc, *resources, *operand) {
            Some(expected) => list matches Some(list) && *list == expected,
            None => list is None,
        },
{
    match operand {
        Object::Name(name) => match resources.get_named(name.as_slice()) {
            Some(value) => match doc.resolve(value) {
                Some(Object::Dict(dict)) => Some(dict),
                _ => None,
            },
            None => None,
        },
        Object::Dict(dict) => Some(dict),
        Object::Stream(stream) => Some(&stream.dict),
        _ => None,
    }
}

fn find_reference(resources: &Dict, operand: &Object) -> (reference: Option<ObjectIdentifier>)
    ensures
        reference == list_reference(*resources, *operand),
{
    match operand {
        Object::Name(name) => match resources.get_named(name.as_slice()) {
            Some(MaybeRef::Ref(id)) => Some(*id),
            _ => None,
        },
        _ => None,
    }
}

fn find_membership<'a>(doc: &'a Document, resources: &'a Dict, operand: &'a Object) -> (result:
    Option<(&'a Dict, Option<ObjectIdentifier>)>)
    ensures
        match membership(*doc, *resources, *operand) {
            Some((dict, reference)) => result matches Some((given, id)) && *given == dict && id
                == reference,
            None => result is None,
        },
{
    match find_list(doc, resources, operand) {
        None => None,
        Some(props) => match doc.lookup(props, "OC") {
            Some(Object::Dict(dict)) => Some(
                (
                    dict,
                    match props.get_raw("OC") {
                        Some(MaybeRef::Ref(id)) => Some(*id),
                        _ => None,
                    },
                ),
            ),
            _ => if has_name(doc.lookup(props, "Type"), "OCG") || has_name(
                doc.lookup(props, "Type"),
                "OCMD",
            ) {
                Some((props, find_reference(resources, operand)))
            } else {
                None
            },
        },
    }
}

/// The properties of an opened sequence are those of its property list.
pub open spec fn listed_properties(
    properties: MarkedContentProperties,
    doc: Document,
    resources: Dict,
    operand: Object,
    limits: PropertyLimits,
) -> bool {
    &&& same_bytes_option(properties.property_list_name, list_name(operand))
    &&& properties.property_list_resolved == property_list(doc, resources, operand) is Some
    &&& match property_list(doc, resources, operand) {
        Some(props) => describes(
            properties,
            doc,
            props,
            limits.max_property_bytes,
            limits.max_property_depth,
        ),
        None => is_empty(properties),
    }
}

impl OcgState {
    /// Open a marked-content sequence with properties.
    ///
    /// The properties are either a name of an entry in the resources, or a dictionary in place.
    pub fn begin_marked_content_with_properties<F: Fn(&Stream, usize) -> Option<Vec<u8>>>(
        &mut self,
        doc: &Document,
        resources: &Dict,
        operand: &Object,
        limits: PropertyLimits,
        decode: &F,
    ) -> (begun: BegunContent)
        requires
            decodes_all(*decode),
        ensures
            listed_properties(begun.properties, *doc, *resources, *operand, limits),
            forall|decoded: spec_fn(Stream, usize) -> Option<Seq<u8>>| #[trigger]
                decodes(*decode, decoded) && property_list(*doc, *resources, *operand) is Some
                    ==> same_metadata(
                    begun.properties.metadata,
                    metadata_of(
                        *doc,
                        property_list(*doc, *resources, *operand)->0,
                        addressable(limits.max_metadata_bytes),
                        decoded,
                    ),
                ),
            opened_by(
                *old(self),
                *final(self),
                *doc,
                membership(*doc, *resources, *operand),
                begun.expression,
            ),
            begun.begins_optional_content == (old(self).preserve_optional_content
                && begun.expression is Some),
            begun.expression_failed == (old(self).preserve_optional_content
                && begun.expression is None && membership(*doc, *resources, *operand) is Some),
    {
        let preserve = self.preserve_optional_content;
        let mut properties = match find_list(doc, resources, operand) {
            Some(props) => marked_content_properties(
                doc,
                props,
                limits.max_metadata_bytes,
                limits.max_property_bytes,
                limits.max_property_depth,
                decode,
            ),
            None => MarkedContentProperties {
                property_list_name: None,
                property_list_resolved: false,
                mcid: None,
                actual_text: None,
                alternate_text: None,
                language: None,
                property_type: None,
                property_subtype: None,
                name: None,
                owner: None,
                bounding_box: None,
                metadata: None,
                additional_properties: Vec::new(),
                unavailable_keys: Vec::new(),
            },
        };
        properties.property_list_name = match operand {
            Object::Name(name) => Some(copied(name.as_slice())),
            _ => None,
        };
        let found = find_membership(doc, resources, operand);
        let has_membership = found.is_some();
        let expression = match found {
            Some((dict, Some(reference))) => self.begin_ocg(doc, dict, reference),
            Some((dict, None)) => {
                if has_name(doc.lookup(dict, "Type"), "OCMD") {
                    self.begin_ocmd(doc, dict)
                } else {
                    self.begin_unresolved_optional_content();
                    None
                }
            },
            None => {
                self.begin_marked_content();
                None
            },
        };
        let begins_optional_content = preserve && expression.is_some();
        let expression_failed = preserve && expression.is_none() && has_membership;
        BegunContent { properties, expression, begins_optional_content, expression_failed }
    }
}

/// A step of showing a run of glyphs.
#[derive(Clone, Copy, Debug, PartialEq, Eq, Structural)]
pub enum GlyphStep {
    /// Move by a number, given by its bits in single precision.
    Adjust(u32),
    /// Append the string at a place of the array.
    Append(usize),
}

/// The step of an item of an array.
pub open spec fn step_of(object: Object, place: int) -> Seq<GlyphStep> {
    match object {
        Object::Number(number) => seq![GlyphStep::Adjust(number.single)],
        Object::String(_) => seq![GlyphStep::Append(place as usize)],
        _ => Seq::empty(),
    }
}

/// The steps of the first items of an array, up to one that does not lead to an object.
pub open spec fn steps_of(doc: Document, items: Seq<MaybeRef>, from: int) -> Seq<GlyphStep>
    decreases items.len() - from,
{
    if from >= items.len() {
        Seq::empty()
    } else {
        match doc.resolved(items[from]) {
            Some(object) => step_of(object, from) + steps_of(doc, items, from + 1),
            None => Seq::empty(),
        }
    }
}

/// The steps of showing a run of glyphs.
pub fn glyph_steps(doc: &Document, array: &Array) -> (steps: Vec<GlyphStep>)
    ensures
        steps@ == steps_of(*doc, array.items@, 0),
{
    let mut steps: Vec<GlyphStep> = Vec::new();
    let mut i: usize = 0;
    assert(steps@ + steps_of(*doc, array.items@, 0) =~= steps_of(*doc, array.items@, 0));
    while i < array.items.len()
        invariant
            i <= array.items@.len(),
            steps@ + steps_of(*doc, array.items@, i as int) == steps_of(*doc, array.items@, 0),
        decreases array.items@.len() - i,
    {
        let ghost before = steps@;
        match doc.resolve(&array.items[i]) {
            Some(object) => {
                match object {
                    Object::Number(number) => steps.push(GlyphStep::Adjust(number.single)),
                    Object::String(_) => steps.push(GlyphStep::Append(i)),
                    _ => {},
                }
                assert(steps@ =~= before + step_of(*object, i as int));
                assert(steps@ + steps_of(*doc, array.items@, i + 1) =~= before + (step_of(
                    *object,
                    i as int,
                ) + steps_of(*doc, array.items@, i + 1)));
            },
            None => {
                assert(steps@ =~= steps@ + steps_of(*doc, array.items@, i as int));
                return steps;
            },
        }
        i = i + 1;
    }
    assert(steps@ =~= steps@ + steps_of(*doc, array.items@, i as int));
    steps
}

} // verus!
