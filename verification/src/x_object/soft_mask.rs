//! Soft masks.

use crate::function::argument::RealCall;
use crate::function::definition::{
    hosted, is_function, optional_model, Function, FunctionModel, Judgements,
};
use crate::function::eval::{Affine, Arithmetic, Results};
use crate::function::transfer::{
    is_transfer, sample_of, Quantization, QuantizationResults, TransferFunction,
};
use crate::function::type0::{judges_all, SampledCheck, Type0};
use crate::function::type2::{bounds_all, Type2};
use crate::object::{
    has_name, is_named, spelled, spells, Dict, Document, MaybeRef, Object, ObjectIdentifier, Stream,
};
use crate::types::ColorSpaceKind;
use crate::x_object::form::{describes_form, singles_of, FormGroupProperties, FormXObject};
use crate::x_object::resources::{
    is_default_overridden, own_spaces, resolves_all_kinds, resolves_kinds, space_kind, Resources,
};
use vstd::prelude::*;

verus! {

/// The type of a mask.
#[derive(Clone, Copy, Debug, PartialEq, Eq, Structural)]
pub enum MaskType {
    /// A luminosity mask.
    Luminosity,
    /// An alpha mask.
    Alpha,
}

/// A key is absent, or leads to null or to nothing.
pub open spec fn is_null_or_absent(doc: Document, dict: Dict, key: Seq<char>) -> bool {
    match doc.value(dict, key) {
        None | Some(Object::Null) => true,
        _ => false,
    }
}

fn has_nothing(doc: &Document, dict: &Dict, key: &str) -> (result: bool)
    ensures
        result == is_null_or_absent(*doc, *dict, key@),
{
    match doc.lookup(dict, key) {
        None => true,
        Some(Object::Null) => true,
        _ => false,
    }
}

/// The type of a mask of a name.
pub open spec fn mask_type_of(doc: Document, dict: Dict) -> Option<MaskType> {
    match doc.value(dict, "S"@) {
        Some(Object::Name(name)) => if spelled(name@, "Luminosity"@) {
            Some(MaskType::Luminosity)
        } else if spelled(name@, "Alpha"@) {
            Some(MaskType::Alpha)
        } else {
            None
        },
        _ => None,
    }
}

/// What a soft mask is identified by. The source form alone does not identify it.
#[derive(Clone, Copy, Debug, PartialEq, Eq, Structural, Hash)]
pub struct MaskIdentity {
    /// The key of the dictionary.
    pub dict: u128,
    /// The key of the resources of the group, with those around it.
    pub resources: u128,
    /// The key of the transform at the moment when the mask is set.
    pub transform: u128,
    /// The key of the bounding box.
    pub bbox: u128,
    pub defers_transfer_functions: bool,
}

/// A soft mask, as its dictionary describes it.
#[derive(Debug)]
pub struct SoftMask {
    pub identity: MaskIdentity,
    /// The source form of the mask.
    pub id: ObjectIdentifier,
    pub group: FormXObject,
    pub mask_type: MaskType,
    /// The family of the blending color space of the source group.
    ///
    /// Alpha masks need none; that of an alpha mask without one is never consulted.
    pub group_color_space_kind: ColorSpaceKind,
    pub group_color_space_default_overridden: bool,
    /// The transfer function, unless it is the identity.
    pub transfer_function: Option<TransferFunction>,
    /// Whether the background color of the dictionary counts.
    pub has_background: bool,
}

impl PartialEq for SoftMask {
    fn eq(&self, other: &Self) -> (result: bool) {
        self.identity == other.identity
    }
}

impl vstd::std_specs::cmp::PartialEqSpecImpl for SoftMask {
    open spec fn obeys_eq_spec() -> bool {
        true
    }

    open spec fn eq_spec(&self, other: &Self) -> bool {
        self.identity == other.identity
    }
}

impl Eq for SoftMask {

}

/// Masks are equal if and only if their dictionaries, the resources around them, the transforms,
/// the bounding boxes and the settings agree, whether or not their source form is the same.
pub proof fn lemma_mask_identity(first: SoftMask, second: SoftMask)
    ensures
        vstd::std_specs::cmp::PartialEqSpec::eq_spec(&first, &second) <==> {
            &&& first.identity.dict == second.identity.dict
            &&& first.identity.resources == second.identity.resources
            &&& first.identity.transform == second.identity.transform
            &&& first.identity.bbox == second.identity.bbox
            &&& first.identity.defers_transfer_functions
                == second.identity.defers_transfer_functions
        },
{
}

/// The stream of the source form of a mask.
pub open spec fn source_stream(doc: Document, dict: Dict) -> Option<(ObjectIdentifier, Stream)> {
    match dict.raw("G"@) {
        Some(MaybeRef::Ref(id)) => match doc.object(id) {
            Some(Object::Stream(stream)) => Some((id, stream)),
            _ => None,
        },
        _ => None,
    }
}

/// A mask needs the color space of its group.
pub open spec fn needs_space(doc: Document, group: Dict, mask_type: MaskType) -> bool {
    !(mask_type == MaskType::Alpha && is_null_or_absent(doc, group, "CS"@))
}

/// The family of the blending color space of the group of a mask.
pub open spec fn blending_space(
    doc: Document,
    group: Dict,
    mask_type: MaskType,
    dicts: Seq<&Dict>,
    resolved: spec_fn(Object) -> Option<ColorSpaceKind>,
) -> Option<ColorSpaceKind> {
    if needs_space(doc, group, mask_type) {
        match doc.value(group, "CS"@) {
            Some(object) => space_kind(doc, dicts, object, resolved),
            None => None,
        }
    } else {
        Some(ColorSpaceKind::DeviceGray)
    }
}

/// A mask has a transfer function that is not the identity.
pub open spec fn has_transfer(doc: Document, dict: Dict) -> bool {
    !(is_null_or_absent(doc, dict, "TR"@) || is_named(doc.value(dict, "TR"@), "Identity"@))
}

/// The transfer function of a mask may be the given one, if it can be read. Its outputs are
/// brought to the unit interval.
pub open spec fn is_mask_transfer(
    transfer: Option<Option<TransferFunction>>,
    doc: Document,
    dict: Dict,
    host: Judgements,
    results: Results,
    quantized: QuantizationResults,
) -> bool {
    if has_transfer(doc, dict) {
        exists|read: Option<FunctionModel>|
            {
                &&& #[trigger] is_function(doc, doc.value(dict, "TR"@)->0, host, read)
                &&& match transfer {
                    Some(transfer) => transfers_by(transfer, read, results, quantized),
                    None => read matches Some(function) ==> !is_transfer(
                        function,
                        true,
                        results,
                        quantized,
                    ),
                }
            }
    } else {
        transfer == Some(None::<TransferFunction>)
    }
}

/// A transfer function is that of a function that was read.
pub open spec fn transfers_by(
    transfer: Option<TransferFunction>,
    read: Option<FunctionModel>,
    results: Results,
    quantized: QuantizationResults,
) -> bool {
    &&& transfer matches Some(transfer)
    &&& transfer.wf()
    &&& transfer.clamp_output
    &&& transfer.function matches Some(function)
    &&& read == Some(function@)
    &&& is_transfer(function@, true, results, quantized)
    &&& forall|index: u8| #[trigger]
        sample_of(function@, index, true, results, quantized) == Some(
            transfer.samples@[index as int],
        )
}

/// A dictionary describes a soft mask, but for its transfer function.
pub open spec fn is_soft_mask(
    doc: Document,
    dict: Dict,
    parent: Seq<&Dict>,
    resolved: spec_fn(Object) -> Option<ColorSpaceKind>,
) -> bool {
    &&& source_stream(doc, dict) matches Some((id, stream))
    &&& stream.data is Some
    &&& singles_of(doc, stream.dict, "BBox"@, 4) is Some
    &&& doc.value(stream.dict, "Group"@) matches Some(Object::Dict(group))
    &&& mask_type_of(doc, dict) matches Some(mask_type)
    &&& blending_space(
        doc,
        group,
        mask_type,
        own_spaces(&doc, &stream.dict) + parent,
        resolved,
    ) is Some
}

/// A soft mask is the one that a dictionary describes, but for its transfer function.
pub open spec fn describes_mask(
    mask: SoftMask,
    doc: Document,
    dict: Dict,
    parent: Seq<&Dict>,
    resolved: spec_fn(Object) -> Option<ColorSpaceKind>,
) -> bool {
    &&& source_stream(doc, dict) matches Some((id, stream))
    &&& doc.value(stream.dict, "Group"@) matches Some(Object::Dict(group))
    &&& mask_type_of(doc, dict) == Some(mask.mask_type)
    &&& mask.id == id
    &&& describes_form(mask.group, doc, stream.dict)
    &&& ({
        let dicts = own_spaces(&doc, &stream.dict) + parent;
        &&& blending_space(doc, group, mask.mask_type, dicts, resolved) == Some(
            mask.group_color_space_kind,
        )
        &&& mask.group_color_space_default_overridden == is_default_overridden(
            dicts,
            Some(mask.group_color_space_kind),
        )
    })
    &&& mask.has_background == (mask.mask_type == MaskType::Luminosity)
}

/// Read the transfer function of a soft mask; none is needed for the identity.
fn read_transfer<
    F: Fn(SampledCheck) -> bool,
    G: Fn(&Type2) -> bool,
    S: Fn(&Type0, &Vec<u32>) -> Option<Vec<u32>>,
    E: Fn(&Type2, u32) -> Option<Vec<u32>>,
    A: Fn(Affine) -> u32,
    R: Fn(RealCall) -> u32,
    U: Fn(u8) -> u32,
    B: Fn(u32) -> u8,
>(
    doc: &Document,
    dict: &Dict,
    judge: &F,
    bound: &G,
    arithmetic: &Arithmetic<S, E, A, R>,
    quantization: &Quantization<U, B>,
) -> (result: Option<Option<TransferFunction>>)
    requires
        judges_all(*judge),
        bounds_all(*bound),
        arithmetic.is_total(),
        quantization.is_total(),
    ensures
        forall|host: Judgements, results: Results, quantized: QuantizationResults|
            #[trigger] hosted(*judge, *bound, host) && #[trigger] arithmetic.gives(results)
                && #[trigger] quantization.gives(quantized) ==> is_mask_transfer(
                result,
                *doc,
                *dict,
                host,
                results,
                quantized,
            ),
{
    if has_nothing(doc, dict, "TR") || has_name(doc.lookup(dict, "TR"), "Identity") {
        return Some(None);
    }
    let object = match doc.lookup(dict, "TR") {
        Some(object) => object,
        None => {
            return Some(None);
        },
    };
    let function = Function::new(doc, object, judge, bound);
    let ghost read = optional_model(function);
    assert forall|host: Judgements| #[trigger] hosted(*judge, *bound, host) implies is_function(
        *doc,
        doc.value(*dict, "TR"@)->0,
        host,
        read,
    ) by {}
    let function = match function {
        Some(function) => function,
        None => {
            return None;
        },
    };
    match TransferFunction::new_soft_mask(function, arithmetic, quantization) {
        Some(transfer) => Some(Some(transfer)),
        None => None,
    }
}

impl SoftMask {
    /// A soft mask, within the resources around its source form.
    ///
    /// `identity` holds the keys of what the mask depends on. `resolve` gives the family of a
    /// color space that an object describes by itself. The other functions read and evaluate the
    /// transfer function.
    pub fn new<
        'a,
        K: Fn(&Object) -> Option<ColorSpaceKind>,
        F: Fn(SampledCheck) -> bool,
        G: Fn(&Type2) -> bool,
        S: Fn(&Type0, &Vec<u32>) -> Option<Vec<u32>>,
        E: Fn(&Type2, u32) -> Option<Vec<u32>>,
        A: Fn(Affine) -> u32,
        R: Fn(RealCall) -> u32,
        U: Fn(u8) -> u32,
        B: Fn(u32) -> u8,
    >(
        doc: &'a Document,
        dict: &'a Dict,
        identity: MaskIdentity,
        parent: &Resources<'a>,
        resolve: &K,
        judge: &F,
        bound: &G,
        arithmetic: &Arithmetic<S, E, A, R>,
        quantization: &Quantization<U, B>,
    ) -> (mask: Option<Self>)
        requires
            resolves_all_kinds(*resolve),
            judges_all(*judge),
            bounds_all(*bound),
            arithmetic.is_total(),
            quantization.is_total(),
        ensures
            mask matches Some(mask) ==> mask.identity == identity,
            forall|
                resolved: spec_fn(Object) -> Option<ColorSpaceKind>,
                host: Judgements,
                results: Results,
                quantized: QuantizationResults,
            |
                #[trigger] resolves_kinds(*resolve, resolved) && #[trigger] hosted(
                    *judge,
                    *bound,
                    host,
                ) && #[trigger] arithmetic.gives(results) && #[trigger] quantization.gives(
                    quantized,
                ) ==> match mask {
                    Some(mask) => {
                        &&& is_soft_mask(*doc, *dict, parent.color_spaces@, resolved)
                        &&& describes_mask(mask, *doc, *dict, parent.color_spaces@, resolved)
                        &&& is_mask_transfer(
                            Some(mask.transfer_function),
                            *doc,
                            *dict,
                            host,
                            results,
                            quantized,
                        )
                    },
                    None => !is_soft_mask(*doc, *dict, parent.color_spaces@, resolved)
                        || is_mask_transfer(None, *doc, *dict, host, results, quantized),
                },
    {
        let id = match dict.get_raw("G") {
            Some(MaybeRef::Ref(id)) => *id,
            _ => {
                return None;
            },
        };
        let stream = match doc.get(id) {
            Some(Object::Stream(stream)) => stream,
            _ => {
                return None;
            },
        };
        let group = match FormXObject::new(doc, stream) {
            Some(group) => group,
            None => {
                return None;
            },
        };
        let properties = match doc.lookup(&stream.dict, "Group") {
            Some(Object::Dict(properties)) => properties,
            _ => {
                return None;
            },
        };
        let mask_type = match doc.lookup(dict, "S") {
            Some(Object::Name(name)) => {
                if spells(name.as_slice(), "Luminosity") {
                    MaskType::Luminosity
                } else if spells(name.as_slice(), "Alpha") {
                    MaskType::Alpha
                } else {
                    return None;
                }
            },
            _ => {
                return None;
            },
        };
        let resources = Resources::from_parent(doc, &stream.dict, parent);
        let resolved = if mask_type == MaskType::Alpha && has_nothing(doc, properties, "CS") {
            Some(ColorSpaceKind::DeviceGray)
        } else {
            match doc.lookup(properties, "CS") {
                Some(object) => resources.resolve_space(doc, object, resolve),
                None => None,
            }
        };
        let kind = match resolved {
            Some(kind) => kind,
            None => {
                return None;
            },
        };
        let default_overridden = resources.override_default(Some(kind));
        let transfer_function = match read_transfer(
            doc,
            dict,
            judge,
            bound,
            arithmetic,
            quantization,
        ) {
            Some(transfer_function) => transfer_function,
            None => {
                return None;
            },
        };
        Some(
            SoftMask {
                identity,
                id,
                group,
                mask_type,
                group_color_space_kind: kind,
                group_color_space_default_overridden: default_overridden,
                transfer_function,
                has_background: mask_type == MaskType::Luminosity,
            },
        )
    }

    /// What the mask is identified by.
    pub fn identity(&self) -> (identity: MaskIdentity)
        ensures
            identity == self.identity,
    {
        self.identity
    }

    /// The object identifier of the mask's source form.
    pub fn id(&self) -> (id: ObjectIdentifier)
        ensures
            id == self.id,
    {
        self.id
    }

    /// The underlying mask type.
    pub fn mask_type(&self) -> (mask_type: MaskType)
        ensures
            mask_type == self.mask_type,
    {
        self.mask_type
    }

    /// Typed properties of the transparency-group form used as the mask source.
    pub fn group_properties(&self) -> (properties: Option<FormGroupProperties>)
        ensures
            properties == self.group.group_properties,
    {
        self.group.group_properties
    }

    /// The blending color-space family of the soft mask's transparency group.
    pub fn group_color_space_kind(&self) -> (kind: ColorSpaceKind)
        ensures
            kind == self.group_color_space_kind,
    {
        self.group_color_space_kind
    }

    /// Whether a default device-space resource remaps the resolved mask group color space,
    /// including a device space reached through a resource name.
    pub fn group_color_space_is_default_overridden(&self) -> (result: bool)
        ensures
            result == self.group_color_space_default_overridden,
    {
        self.group_color_space_default_overridden
    }

    /// The transfer function that should be used for the mask.
    pub fn transfer_function(&self) -> (transfer: Option<&TransferFunction>)
        ensures
            match self.transfer_function {
                Some(expected) => transfer matches Some(transfer) && *transfer == expected,
                None => transfer is None,
            },
    {
        self.transfer_function.as_ref()
    }
}

} // verus!
