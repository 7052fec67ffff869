//! What the dictionary of an image says.

use crate::interpret::warning::{ImageColorSpaceError, InterpreterWarning};
use crate::object::{spelled, spells, Dict, Document, MaybeRef, Object, Stream};
use crate::types::{ColorSpaceKind, EmbeddedImageAlphaMode, ImageColorSpaceProperties};
use vstd::prelude::*;

verus! {

/// The value of one of two keys, of which the first one counts if it has a value of the kind.
pub open spec fn either_name(doc: Document, dict: Dict, short: Seq<char>, long: Seq<char>) -> Option<
    Seq<u8>,
> {
    match doc.value(dict, short) {
        Some(Object::Name(name)) => Some(name@),
        _ => match doc.value(dict, long) {
            Some(Object::Name(name)) => Some(name@),
            _ => None,
        },
    }
}

/// The items of the array of one of two keys.
pub open spec fn either_array(
    doc: Document,
    dict: Dict,
    short: Seq<char>,
    long: Seq<char>,
) -> Option<Seq<MaybeRef>> {
    match doc.value(dict, short) {
        Some(Object::Array(array)) => Some(array.items@),
        _ => match doc.value(dict, long) {
            Some(Object::Array(array)) => Some(array.items@),
            _ => None,
        },
    }
}

/// The condition of one of two keys.
pub open spec fn either_bool(doc: Document, dict: Dict, short: Seq<char>, long: Seq<char>) -> Option<
    bool,
> {
    match doc.value(dict, short) {
        Some(Object::Boolean(value)) => Some(value),
        _ => match doc.value(dict, long) {
            Some(Object::Boolean(value)) => Some(value),
            _ => None,
        },
    }
}

/// A number of a key that fits in an unsigned word.
pub open spec fn word_of(doc: Document, dict: Dict, key: Seq<char>) -> Option<u32> {
    match doc.value(dict, key) {
        Some(Object::Number(number)) => if 0 <= number.truncated <= u32::MAX {
            Some(number.truncated as u32)
        } else {
            None
        },
        _ => None,
    }
}

/// The number of one of two keys.
pub open spec fn either_word(doc: Document, dict: Dict, short: Seq<char>, long: Seq<char>) -> Option<
    u32,
> {
    match word_of(doc, dict, short) {
        Some(value) => Some(value),
        None => word_of(doc, dict, long),
    }
}

/// A number of a key that fits in a byte.
pub open spec fn byte_of(doc: Document, dict: Dict, key: Seq<char>) -> Option<u8> {
    match word_of(doc, dict, key) {
        Some(value) => if value <= 255 {
            Some(value as u8)
        } else {
            None
        },
        None => None,
    }
}

/// Read the condition of one of two keys.
pub fn read_bool(doc: &Document, dict: &Dict, short: &str, long: &str) -> (value: Option<bool>)
    ensures
        value == either_bool(*doc, *dict, short@, long@),
{
    match doc.lookup(dict, short) {
        Some(Object::Boolean(value)) => Some(*value),
        _ => match doc.lookup(dict, long) {
            Some(Object::Boolean(value)) => Some(*value),
            _ => None,
        },
    }
}

fn read_word(doc: &Document, dict: &Dict, key: &str) -> (value: Option<u32>)
    ensures
        value == word_of(*doc, *dict, key@),
{
    match doc.lookup(dict, key) {
        Some(Object::Number(number)) => if number.truncated >= 0 && number.truncated
            <= u32::MAX as i64 {
            Some(number.truncated as u32)
        } else {
            None
        },
        _ => None,
    }
}

fn read_either_word(doc: &Document, dict: &Dict, short: &str, long: &str) -> (value: Option<u32>)
    ensures
        value == either_word(*doc, *dict, short@, long@),
{
    match read_word(doc, dict, short) {
        Some(value) => Some(value),
        None => read_word(doc, dict, long),
    }
}

/// Read a number of a key that fits in a byte.
pub fn read_byte(doc: &Document, dict: &Dict, key: &str) -> (value: Option<u8>)
    ensures
        value == byte_of(*doc, *dict, key@),
{
    match read_word(doc, dict, key) {
        Some(value) => if value <= 255 {
            Some(value as u8)
        } else {
            None
        },
        None => None,
    }
}

/// A list of filters names a filter, among its leading names.
pub open spec fn lists_filter(
    doc: Document,
    items: Seq<MaybeRef>,
    filter: Seq<char>,
    from: int,
) -> bool
    decreases items.len() - from,
{
    if from >= items.len() {
        false
    } else {
        match doc.resolved(items[from]) {
            Some(Object::Name(name)) => spelled(name@, filter) || lists_filter(
                doc,
                items,
                filter,
                from + 1,
            ),
            _ => false,
        }
    }
}

/// An image is in JPEG 2000.
pub open spec fn uses_jpx(doc: Document, dict: Dict) -> bool {
    ||| (either_name(doc, dict, "F"@, "Filter"@) matches Some(name) && spelled(name, "JPXDecode"@))
    ||| (either_array(doc, dict, "F"@, "Filter"@) matches Some(items) && lists_filter(
        doc,
        items,
        "JPXDecode"@,
        0,
    ))
}

fn does_list(doc: &Document, items: &Vec<MaybeRef>, filter: &str) -> (result: bool)
    ensures
        result == lists_filter(*doc, items@, filter@, 0),
{
    let mut i: usize = 0;
    while i < items.len()
        invariant
            i <= items@.len(),
            lists_filter(*doc, items@, filter@, 0) == lists_filter(*doc, items@, filter@, i as int),
        decreases items@.len() - i,
    {
        match doc.resolve(&items[i]) {
            Some(Object::Name(name)) => {
                if spells(name.as_slice(), filter) {
                    return true;
                }
            },
            _ => {
                return false;
            },
        }
        i = i + 1;
    }
    false
}

/// Whether an image is in JPEG 2000.
pub fn uses_jpx_decode(doc: &Document, dict: &Dict) -> (result: bool)
    ensures
        result == uses_jpx(*doc, *dict),
{
    let named = match doc.lookup(dict, "F") {
        Some(Object::Name(name)) => spells(name.as_slice(), "JPXDecode"),
        _ => match doc.lookup(dict, "Filter") {
            Some(Object::Name(name)) => spells(name.as_slice(), "JPXDecode"),
            _ => false,
        },
    };
    if named {
        return true;
    }
    match doc.lookup(dict, "F") {
        Some(Object::Array(array)) => does_list(doc, &array.items, "JPXDecode"),
        _ => match doc.lookup(dict, "Filter") {
            Some(Object::Array(array)) => does_list(doc, &array.items, "JPXDecode"),
            _ => false,
        },
    }
}

/// How an opacity channel in JPEG 2000 is associated with the colors.
pub open spec fn alpha_mode(doc: Document, dict: Dict) -> Option<EmbeddedImageAlphaMode> {
    if !uses_jpx(doc, dict) {
        None
    } else {
        match byte_of(doc, dict, "SMaskInData"@) {
            Some(1) => Some(EmbeddedImageAlphaMode::Unassociated),
            Some(2) => Some(EmbeddedImageAlphaMode::Premultiplied),
            _ => None,
        }
    }
}

/// How an opacity channel in JPEG 2000 is associated with the colors.
///
/// `/SMaskInData` is ignored for other images.
pub fn embedded_alpha_mode(doc: &Document, dict: &Dict) -> (mode: Option<EmbeddedImageAlphaMode>)
    ensures
        mode == alpha_mode(*doc, *dict),
{
    if !uses_jpx_decode(doc, dict) {
        return None;
    }
    match read_byte(doc, dict, "SMaskInData") {
        Some(1) => Some(EmbeddedImageAlphaMode::Unassociated),
        Some(2) => Some(EmbeddedImageAlphaMode::Premultiplied),
        _ => None,
    }
}

/// The kinds of images.
#[derive(Clone, Copy, Debug, PartialEq, Eq, Structural)]
pub enum ImageKind {
    Image,
    Mask,
    StencilMask,
}

impl ImageKind {
    /// Whether the image is a mask.
    pub fn is_mask(self) -> (result: bool)
        ensures
            result == (self != ImageKind::Image),
    {
        self != ImageKind::Image
    }
}

/// The properties of the color space of a mask.
pub open spec fn mask_properties() -> ImageColorSpaceProperties {
    ImageColorSpaceProperties {
        has_color_space: false,
        declared_color_space_kind: None,
        color_space_kind: Some(ColorSpaceKind::DeviceGray),
        color_space_components: Some(1),
        color_space_default_overridden: false,
    }
}

/// The properties of the color space of an image that declares none.
pub open spec fn no_properties() -> ImageColorSpaceProperties {
    ImageColorSpaceProperties {
        has_color_space: false,
        declared_color_space_kind: None,
        color_space_kind: None,
        color_space_components: None,
        color_space_default_overridden: false,
    }
}

/// An image, as its dictionary describes it.
#[derive(Clone, Copy, Debug, PartialEq, Eq, Structural)]
pub struct ImageXObject {
    pub width: u32,
    pub height: u32,
    pub color_space_properties: ImageColorSpaceProperties,
    pub interpolate: bool,
    pub kind: ImageKind,
}

/// The object that an image declares as its color space.
pub open spec fn declared_space(doc: Document, dict: Dict) -> Option<Object> {
    match doc.value(dict, "CS"@) {
        Some(object) => Some(object),
        None => doc.value(dict, "ColorSpace"@),
    }
}

/// The kind of an image.
pub open spec fn kind_of(doc: Document, dict: Dict, kind: ImageKind) -> ImageKind {
    if either_bool(doc, dict, "IM"@, "ImageMask"@) == Some(true) {
        ImageKind::StencilMask
    } else {
        kind
    }
}

/// What an image is, or the warning about its color space.
pub struct ImageOutcome {
    pub image: Option<ImageXObject>,
    pub warning: Option<InterpreterWarning>,
}

/// An image with the properties of its color space.
pub open spec fn image_with(
    doc: Document,
    dict: Dict,
    kind: ImageKind,
    color_space_properties: ImageColorSpaceProperties,
) -> Option<ImageXObject> {
    match (either_word(doc, dict, "W"@, "Width"@), either_word(doc, dict, "H"@, "Height"@)) {
        (Some(width), Some(height)) => if width == 0 || height == 0 {
            None
        } else {
            Some(
                ImageXObject {
                    width,
                    height,
                    color_space_properties,
                    interpolate: either_bool(doc, dict, "I"@, "Interpolate"@) == Some(true),
                    kind,
                },
            )
        },
        _ => None,
    }
}

/// What an image is, given what its color space resolves to.
pub open spec fn image_of(
    doc: Document,
    dict: Dict,
    kind: ImageKind,
    resolved: spec_fn(Object) -> Result<ImageColorSpaceProperties, ImageColorSpaceError>,
) -> ImageOutcome {
    let actual = kind_of(doc, dict, kind);
    if actual != ImageKind::Image {
        ImageOutcome {
            image: image_with(doc, dict, actual, mask_properties()),
            warning: None,
        }
    } else {
        match declared_space(doc, dict) {
            None => if dict.has("CS"@) || dict.has("ColorSpace"@) {
                ImageOutcome {
                    image: None,
                    warning: Some(
                        InterpreterWarning::ImageColorSpace(ImageColorSpaceError::Invalid),
                    ),
                }
            } else {
                ImageOutcome {
                    image: image_with(doc, dict, actual, no_properties()),
                    warning: None,
                }
            },
            Some(object) => match resolved(object) {
                Err(error) => ImageOutcome {
                    image: None,
                    warning: Some(InterpreterWarning::ImageColorSpace(error)),
                },
                Ok(properties) => ImageOutcome {
                    image: image_with(doc, dict, actual, properties),
                    warning: None,
                },
            },
        }
    }
}

/// A host resolves color spaces in a given way.
pub open spec fn resolves_spaces<
    F: Fn(&Object) -> Result<ImageColorSpaceProperties, ImageColorSpaceError>,
>(
    resolve: F,
    resolved: spec_fn(Object) -> Result<ImageColorSpaceProperties, ImageColorSpaceError>,
) -> bool {
    forall|object: &Object, result: Result<ImageColorSpaceProperties, ImageColorSpaceError>|
        #[trigger]
        call_ensures(resolve, (object,), result) ==> result == resolved(*object)
}

/// A host resolves all color spaces.
pub open spec fn resolves_all_spaces<
    F: Fn(&Object) -> Result<ImageColorSpaceProperties, ImageColorSpaceError>,
>(resolve: F) -> bool {
    forall|object: &Object| call_requires(resolve, (object,))
}

fn finish_image(
    doc: &Document,
    dict: &Dict,
    kind: ImageKind,
    color_space_properties: ImageColorSpaceProperties,
) -> (image: Option<ImageXObject>)
    ensures
        image == image_with(*doc, *dict, kind, color_space_properties),
{
    let interpolate = match read_bool(doc, dict, "I", "Interpolate") {
        Some(value) => value,
        None => false,
    };
    let width: u32 = match read_either_word(doc, dict, "W", "Width") {
        Some(width) => width,
        None => {
            return None;
        },
    };
    let height: u32 = match read_either_word(doc, dict, "H", "Height") {
        Some(height) => height,
        None => {
            return None;
        },
    };
    if width == 0 || height == 0 {
        return None;
    }
    Some(ImageXObject { width, height, color_space_properties, interpolate, kind })
}

impl ImageXObject {
    /// An image, and a warning about its color space, if there is one.
    ///
    /// `resolve` resolves a color space.
    pub fn new<F: Fn(&Object) -> Result<ImageColorSpaceProperties, ImageColorSpaceError>>(
        doc: &Document,
        dict: &Dict,
        resolve: &F,
    ) -> (result: (Option<Self>, Option<InterpreterWarning>))
        requires
            resolves_all_spaces(*resolve),
        ensures
            forall|resolved: spec_fn(Object) -> Result<
                ImageColorSpaceProperties,
                ImageColorSpaceError,
            >| #[trigger]
                resolves_spaces(*resolve, resolved) ==> {
                    let outcome = image_of(*doc, *dict, ImageKind::Image, resolved);
                    result.0 == outcome.image && result.1 == outcome.warning
                },
    {
        let is_stencil_mask = match read_bool(doc, dict, "IM", "ImageMask") {
            Some(value) => value,
            None => false,
        };
        if is_stencil_mask {
            return (finish_mask(doc, dict, ImageKind::StencilMask), None);
        }
        let declared = match doc.lookup(dict, "CS") {
            Some(object) => Some(object),
            None => doc.lookup(dict, "ColorSpace"),
        };
        match declared {
            None => {
                if dict.contains_key("CS") || dict.contains_key("ColorSpace") {
                    return (
                        None,
                        Some(InterpreterWarning::ImageColorSpace(ImageColorSpaceError::Invalid)),
                    );
                }
                let properties = ImageColorSpaceProperties {
                    has_color_space: false,
                    declared_color_space_kind: None,
                    color_space_kind: None,
                    color_space_components: None,
                    color_space_default_overridden: false,
                };
                (finish_image(doc, dict, ImageKind::Image, properties), None)
            },
            Some(object) => match resolve(object) {
                Err(error) => (None, Some(InterpreterWarning::ImageColorSpace(error))),
                Ok(properties) => (finish_image(doc, dict, ImageKind::Image, properties), None),
            },
        }
    }

    /// A mask.
    pub fn new_mask(doc: &Document, dict: &Dict) -> (result: Option<Self>)
        ensures
            result == image_with(
                *doc,
                *dict,
                kind_of(*doc, *dict, ImageKind::Mask),
                mask_properties(),
            ),
    {
        let is_stencil_mask = match read_bool(doc, dict, "IM", "ImageMask") {
            Some(value) => value,
            None => false,
        };
        if is_stencil_mask {
            finish_mask(doc, dict, ImageKind::StencilMask)
        } else {
            finish_mask(doc, dict, ImageKind::Mask)
        }
    }

    /// The width of the image.
    pub fn width(&self) -> (width: u32)
        ensures
            width == self.width,
    {
        self.width
    }

    /// The height of the image.
    pub fn height(&self) -> (height: u32)
        ensures
            height == self.height,
    {
        self.height
    }
}

fn finish_mask(doc: &Document, dict: &Dict, kind: ImageKind) -> (image: Option<ImageXObject>)
    ensures
        image == image_with(*doc, *dict, kind, mask_properties()),
{
    // Masks always have one channel.
    let properties = ImageColorSpaceProperties {
        has_color_space: false,
        declared_color_space_kind: None,
        color_space_kind: Some(ColorSpaceKind::DeviceGray),
        color_space_components: Some(1),
        color_space_default_overridden: false,
    };
    finish_image(doc, dict, kind, properties)
}

/// An image that was read is not empty.
pub proof fn lemma_image_not_empty(
    doc: Document,
    dict: Dict,
    kind: ImageKind,
    resolved: spec_fn(Object) -> Result<ImageColorSpaceProperties, ImageColorSpaceError>,
)
    ensures
        ({
            let outcome = image_of(doc, dict, kind, resolved);
            &&& outcome.image matches Some(image) ==> image.width > 0 && image.height > 0
            &&& outcome.warning is Some ==> outcome.image is None
        }),
{
}

/// An image has a mask of its own, which replaces the soft mask of the graphics state.
pub open spec fn has_own_mask(doc: Document, dict: Dict) -> bool {
    alpha_mode(doc, dict) is Some || dict.has("SMask"@) || dict.has("Mask"@)
}

/// Whether an image has a mask of its own, which replaces the soft mask of the graphics state.
pub fn has_mask(doc: &Document, dict: &Dict) -> (result: bool)
    ensures
        result == has_own_mask(*doc, *dict),
{
    embedded_alpha_mode(doc, dict).is_some() || dict.contains_key("SMask") || dict.contains_key(
        "Mask",
    )
}

/// The soft mask of an image has a matte, with which its colors are preblended.
pub open spec fn has_matte(doc: Document, dict: Dict) -> bool {
    &&& alpha_mode(doc, dict) is None
    &&& doc.value(dict, "SMask"@) matches Some(Object::Stream(mask)) && mask.dict.has("Matte"@)
}

/// Whether the soft mask of an image has a matte, with which its colors are preblended.
pub fn has_soft_mask_matte(doc: &Document, dict: &Dict) -> (result: bool)
    ensures
        result == has_matte(*doc, *dict),
{
    if embedded_alpha_mode(doc, dict).is_some() {
        return false;
    }
    match doc.lookup(dict, "SMask") {
        Some(Object::Stream(mask)) => mask.dict.contains_key("Matte"),
        _ => false,
    }
}

} // verus!
