//! What holds of the images that dictionaries describe, and of their samples.

use crate::bits::{bit_at, bit_range};
use crate::function::numeric::Interval;
use crate::function::single::{finite, lemma_rank, scaled};
use crate::image::dictionary::{
    alpha_mode, byte_of, either_array, either_bool, either_name, either_word, has_matte,
    has_own_mask, image_of, lists_filter, uses_jpx, word_of, ImageKind,
};
use crate::image::embedded::{
    channels_fit, color_samples, embedded_output, encoded_pixels, ChannelSamples,
};
use crate::image::output::{with_color, Conversions, OutputModel};
use crate::image::palette::{palette_of, PaletteModel};
use crate::image::samples::{is_depth, FloatImageError, SampleContext};
use crate::image::sampling::{base_values, entry_of, Sampled};
use crate::image::tint::{direct_inversion, inverted_bytes, needs_native};
use crate::interpret::warning::{ImageColorSpaceError, InterpreterWarning};
use crate::object::{Dict, Document, MaybeRef, Object};
use crate::sample_reader::sample_at;
use crate::types::{ColorSpaceKind, EmbeddedImageAlphaMode, ImageColorSpaceProperties};
use vstd::prelude::*;

verus! {

/// A number under a key is taken without its fraction, if it is not negative and fits.
pub proof fn lemma_words(doc: Document, dict: Dict, key: Seq<char>)
    ensures
        doc.value(dict, key) matches Some(Object::Number(number)) ==> {
            &&& 0 <= number.truncated <= 0xFFFF_FFFF ==> word_of(doc, dict, key) == Some(
                number.truncated as u32,
            )
            &&& number.truncated < 0 || number.truncated > 0xFFFF_FFFF ==> word_of(
                doc,
                dict,
                key,
            ) is None
            &&& 0 <= number.truncated <= 0xFF ==> byte_of(doc, dict, key) == Some(
                number.truncated as u8,
            )
            &&& number.truncated < 0 || number.truncated > 0xFF ==> byte_of(doc, dict, key) is None
        },
        !(doc.value(dict, key) matches Some(Object::Number(_))) ==> word_of(doc, dict, key) is None
            && byte_of(doc, dict, key) is None,
{
}

/// Of two keys the first one counts if it has a value of the kind, and else the second one.
pub proof fn lemma_either_key(doc: Document, dict: Dict, short: Seq<char>, long: Seq<char>)
    ensures
        either_bool(doc, dict, short, long) == match (
            doc.value(dict, short),
            doc.value(dict, long),
        ) {
            (Some(Object::Boolean(first)), _) => Some(first),
            (_, Some(Object::Boolean(second))) => Some(second),
            _ => None,
        },
        either_word(doc, dict, short, long) == if word_of(doc, dict, short) is Some {
            word_of(doc, dict, short)
        } else {
            word_of(doc, dict, long)
        },
        doc.value(dict, short) matches Some(Object::Name(name)) ==> either_name(
            doc,
            dict,
            short,
            long,
        ) == Some(name@),
        !(doc.value(dict, short) matches Some(Object::Name(_))) ==> either_name(
            doc,
            dict,
            short,
            long,
        ) == (match doc.value(dict, long) {
            Some(Object::Name(name)) => Some(name@),
            _ => None,
        }),
        doc.value(dict, short) matches Some(Object::Array(array)) ==> either_array(
            doc,
            dict,
            short,
            long,
        ) == Some(array.items@),
        !(doc.value(dict, short) matches Some(Object::Array(_))) ==> either_array(
            doc,
            dict,
            short,
            long,
        ) == (match doc.value(dict, long) {
            Some(Object::Array(array)) => Some(array.items@),
            _ => None,
        }),
{
}

/// An item is the name with a text.
pub open spec fn is_item_named(doc: Document, item: MaybeRef, text: Seq<char>) -> bool {
    doc.resolved(item) matches Some(Object::Name(name)) && name@ == vstd::utf8::encode_utf8(text)
}

/// A filter is among the leading names of a list if and only if it is one of the items, with
/// nothing but names before it.
pub proof fn lemma_filter_listed(
    doc: Document,
    items: Seq<MaybeRef>,
    filter: Seq<char>,
    from: int,
)
    requires
        0 <= from,
    ensures
        lists_filter(doc, items, filter, from) <==> exists|i: int|
            from <= i < items.len() && is_item_named(doc, #[trigger] items[i], filter) && (forall|
                j: int,
            |
                from <= j < i ==> (doc.resolved(#[trigger] items[j]) matches Some(
                    Object::Name(_),
                ))),
    decreases items.len() - from,
{
    if from < items.len() {
        lemma_filter_listed(doc, items, filter, from + 1);
        if lists_filter(doc, items, filter, from) {
            if is_item_named(doc, items[from], filter) {
                assert(is_item_named(doc, items[from], filter));
            } else {
                let i = choose|i: int|
                    from + 1 <= i < items.len() && is_item_named(doc, #[trigger] items[i], filter)
                        && (forall|j: int|
                        from + 1 <= j < i ==> (doc.resolved(#[trigger] items[j]) matches Some(
                            Object::Name(_),
                        )));
                assert(is_item_named(doc, items[i], filter));
                assert forall|j: int| from <= j < i implies (doc.resolved(
                    #[trigger] items[j],
                ) matches Some(Object::Name(_))) by {}
            }
        } else if exists|i: int|
            from <= i < items.len() && is_item_named(doc, #[trigger] items[i], filter) && (forall|
                j: int,
            |
                from <= j < i ==> (doc.resolved(#[trigger] items[j]) matches Some(
                    Object::Name(_),
                ))) {
            let i = choose|i: int|
                from <= i < items.len() && is_item_named(doc, #[trigger] items[i], filter) && (
                forall|j: int|
                    from <= j < i ==> (doc.resolved(#[trigger] items[j]) matches Some(
                        Object::Name(_),
                    )));
            if i > from {
                assert(doc.resolved(items[from]) matches Some(Object::Name(_)));
                assert(is_item_named(doc, items[i], filter));
            }
        }
    }
}

/// An image is in JPEG 2000 if its filter is, alone or in a list. Only such an image has an
/// opacity channel that counts, and only if it says how.
pub proof fn lemma_embedded_opacity(doc: Document, dict: Dict)
    ensures
        either_name(doc, dict, "F"@, "Filter"@) == Some(vstd::utf8::encode_utf8("JPXDecode"@))
            ==> uses_jpx(doc, dict),
        either_array(doc, dict, "F"@, "Filter"@) matches Some(items) ==> lists_filter(
            doc,
            items,
            "JPXDecode"@,
            0,
        ) ==> uses_jpx(doc, dict),
        either_name(doc, dict, "F"@, "Filter"@) is None && either_array(
            doc,
            dict,
            "F"@,
            "Filter"@,
        ) is None ==> !uses_jpx(doc, dict),
        alpha_mode(doc, dict) is Some ==> uses_jpx(doc, dict),
        uses_jpx(doc, dict) ==> {
            &&& alpha_mode(doc, dict) == Some(EmbeddedImageAlphaMode::Unassociated) <==> byte_of(
                doc,
                dict,
                "SMaskInData"@,
            ) == Some(1u8)
            &&& alpha_mode(doc, dict) == Some(EmbeddedImageAlphaMode::Premultiplied) <==> byte_of(
                doc,
                dict,
                "SMaskInData"@,
            ) == Some(2u8)
        },
{
}

/// An image has a mask of its own if it has a mask entry or an opacity channel that counts. A
/// matte counts only where the mask does.
pub proof fn lemma_own_mask(doc: Document, dict: Dict)
    ensures
        has_own_mask(doc, dict) <==> dict.raw("SMask"@) is Some || dict.raw("Mask"@) is Some
            || alpha_mode(doc, dict) is Some,
        has_matte(doc, dict) ==> alpha_mode(doc, dict) is None && has_own_mask(doc, dict),
        alpha_mode(doc, dict) is None ==> (has_matte(doc, dict) <==> (doc.value(
            dict,
            "SMask"@,
        ) matches Some(Object::Stream(mask)) && mask.dict.raw("Matte"@) is Some)),
{
}

/// A stencil mask is an image that says so. Masks have one gray component, whatever their
/// dictionaries declare.
pub proof fn lemma_image_kind(
    doc: Document,
    dict: Dict,
    kind: ImageKind,
    resolved: spec_fn(Object) -> Result<ImageColorSpaceProperties, ImageColorSpaceError>,
)
    ensures
        image_of(doc, dict, kind, resolved).image matches Some(image) ==> {
            &&& image.kind == if either_bool(doc, dict, "IM"@, "ImageMask"@) == Some(true) {
                ImageKind::StencilMask
            } else {
                kind
            }
            &&& !(image.kind is Image) ==> {
                let space = image.color_space_properties;
                &&& space.color_space_kind == Some(ColorSpaceKind::DeviceGray)
                &&& space.color_space_components == Some(1usize)
                &&& !space.has_color_space
                &&& space.declared_color_space_kind is None
                &&& !space.color_space_default_overridden
            }
            &&& image.interpolate <==> either_bool(doc, dict, "I"@, "Interpolate"@) == Some(true)
            &&& either_word(doc, dict, "W"@, "Width"@) == Some(image.width)
            &&& either_word(doc, dict, "H"@, "Height"@) == Some(image.height)
        },
{
}

/// Reading an image warns exactly about a color space of a proper image that is not valid; then
/// there is no image. Otherwise there is one if its size is there and not zero.
pub proof fn lemma_image_outcome(
    doc: Document,
    dict: Dict,
    kind: ImageKind,
    resolved: spec_fn(Object) -> Result<ImageColorSpaceProperties, ImageColorSpaceError>,
)
    ensures
        ({
            let outcome = image_of(doc, dict, kind, resolved);
            let proper = kind is Image && either_bool(doc, dict, "IM"@, "ImageMask"@) != Some(true);
            let sized = either_word(doc, dict, "W"@, "Width"@) matches Some(w) && w > 0 && (
            either_word(doc, dict, "H"@, "Height"@) matches Some(h) && h > 0);
            let space = if doc.value(dict, "CS"@) is Some {
                doc.value(dict, "CS"@)
            } else {
                doc.value(dict, "ColorSpace"@)
            };
            let declared = dict.raw("CS"@) is Some || dict.raw("ColorSpace"@) is Some;
            &&& !proper ==> outcome.warning is None && (outcome.image is Some <==> sized)
            &&& proper ==> (space matches Some(object) ==> match resolved(object) {
                Ok(properties) => outcome.warning is None && (outcome.image is Some <==> sized) && (
                outcome.image matches Some(image) ==> image.color_space_properties == properties),
                Err(error) => outcome.image is None && outcome.warning == Some(
                    InterpreterWarning::ImageColorSpace(error),
                ),
            })
            &&& proper && space is None && declared ==> outcome.image is None && outcome.warning
                == Some(InterpreterWarning::ImageColorSpace(ImageColorSpaceError::Invalid))
            &&& proper && !declared ==> outcome.warning is None && (outcome.image is Some
                <==> sized) && (outcome.image matches Some(image) ==> {
                &&& !image.color_space_properties.has_color_space
                &&& image.color_space_properties.color_space_kind is None
                &&& image.color_space_properties.color_space_components is None
                &&& image.color_space_properties.declared_color_space_kind is None
            })
        }),
{
}

/// Samples of a row follow each other without a gap, components of a pixel first, and every row
/// starts at the first byte that is free.
pub proof fn lemma_sample_positions(context: SampleContext, row: int, column: int, component: int)
    requires
        context.is_complete(),
        0 <= row < context.height,
        0 <= column < context.width,
        0 <= component < context.components,
    ensures
        context.position(0, 0, 0) == 0,
        component + 1 < context.components ==> context.position(row, column, component + 1)
            == context.position(row, column, component) + context.bits_per_component,
        context.position(row, column + 1, 0) == context.position(
            row,
            column,
            context.components - 1,
        ) + context.bits_per_component,
        context.position(row, 0, 0) % 8 == 0,
        ({
            let end = context.position(row, context.width as int, 0);
            &&& context.position(row + 1, 0, 0) >= end
            &&& context.position(row + 1, 0, 0) < end + 8
        }),
        context.pixel(row, column).len() == context.components,
        context.pixel(row, column)[component] == sample_at(
            context.data@,
            context.position(row, column, component),
            context.bits_per_component as int,
        ),
{
    let n = context.components as int;
    let b = context.bits_per_component as int;
    let bytes = context.row_bytes();
    let w = context.width as int;
    assert((column * n + component + 1) * b == (column * n + component) * b + b)
        by (nonlinear_arith);
    assert(((column + 1) * n + 0) * b == (column * n + (n - 1)) * b + b) by (nonlinear_arith);
    assert((0 * n + 0) * b == 0) by (nonlinear_arith);
    assert(bytes * (row + 1) == bytes * row + bytes) by (nonlinear_arith);
    assert(bytes * 0 == 0) by (nonlinear_arith);
    assert((w * n + 0) * b == w * n * b) by (nonlinear_arith);
    assert(context.row_bits() == w * n * b);
    assert(8 * bytes >= context.row_bits());
    assert(8 * bytes < context.row_bits() + 8);
}

/// A sample is the number that its bits denote, the most significant first: it is twice the sample
/// without its last bit, and the last bit.
pub proof fn lemma_sample_bits(data: Seq<u8>, position: int, width: int)
    requires
        1 <= width <= 32,
    ensures
        sample_at(data, position, width) == (if width == 1 {
            0
        } else {
            2 * sample_at(data, position, width - 1)
        }) + (if bit_at(data, position + width - 1) {
            1int
        } else {
            0int
        }),
{
    let bits = bit_range(data, position, position + width);
    let shorter = bit_range(data, position, position + width - 1);
    assert(bits.drop_last() =~= shorter);
    assert(bits.last() == bit_at(data, position + width - 1));
    crate::bits::lemma_bits_value_bound(bits);
    crate::bits::lemma_bits_value_bound(shorter);
    vstd::arithmetic::power2::lemma2_to64();
    if width < 32 {
        vstd::arithmetic::power2::lemma_pow2_strictly_increases(width as nat, 32);
    }
    vstd::arithmetic::power2::lemma_pow2_strictly_increases((width - 1) as nat, 32);
    if width == 1 {
        assert(shorter =~= Seq::<bool>::empty());
    }
}

/// Samples have one, two, four, eight or sixteen bits; in JPEG 2000 any number up to sixteen.
pub proof fn lemma_depths(bits: u8)
    ensures
        is_depth(bits, true) <==> bits != 0 && bits <= 16,
        is_depth(bits, false) ==> is_depth(bits, true),
        is_depth(bits, false) <==> bits == 1 || bits == 2 || bits == 4 || bits == 8 || bits == 16,
{
}

/// Samples can be read if and only if the image is not empty, its depth and its maps are valid,
/// and the bytes of all its rows are there.
pub proof fn lemma_readable(context: SampleContext, jpx: bool)
    ensures
        context.error(jpx) is None ==> {
            &&& context.is_complete()
            &&& is_depth(context.bits_per_component, jpx)
            &&& context.decode@.len() == context.components
            &&& forall|i: int|
                0 <= i < context.decode@.len() ==> finite((#[trigger] context.decode@[i]).low)
                    && finite(context.decode@[i].high)
        },
        context.is_complete() && context.required() <= u64::MAX && is_depth(
            context.bits_per_component,
            jpx,
        ) && context.decode@.len() == context.components && (forall|i: int|
            0 <= i < context.decode@.len() ==> finite((#[trigger] context.decode@[i]).low)
                && finite(context.decode@[i].high)) ==> context.error(jpx) is None,
        context.width == 0 || context.height == 0 || context.components == 0 ==> context.error(jpx)
            == Some(FloatImageError::Decode),
        context.width > 0 && context.height > 0 && context.components > 0 && !is_depth(
            context.bits_per_component,
            jpx,
        ) ==> context.error(jpx) == Some(FloatImageError::Unsupported),
{
}

/// A palette has a greatest index, and exactly as many components as its entries need. An indexed
/// color space is over a base that is neither indexed nor a pattern.
pub proof fn lemma_palette(
    doc: Document,
    items: Seq<MaybeRef>,
    base: ColorSpaceKind,
    components: usize,
)
    ensures
        palette_of(doc, items, base, components) matches Some(palette) ==> {
            &&& items.len() == 4
            &&& !(base is Indexed)
            &&& !(base is Pattern)
            &&& palette.components == components
            &&& palette.table.len() == palette.last * components + components
            &&& doc.resolved(items[2]) matches Some(Object::Number(number)) && number.integer
                == Some(palette.last as i64)
            &&& match doc.resolved(items[3]) {
                Some(Object::String(text)) => palette.table == text@,
                Some(Object::Stream(stream)) => stream.data matches Some(data) && palette.table
                    == data@,
                _ => false,
            }
        },
{
    if palette_of(doc, items, base, components) is Some {
        let palette = palette_of(doc, items, base, components)->0;
        assert((palette.last + 1) * components == palette.last * components + components)
            by (nonlinear_arith);
    }
}

/// The entry of an index is the part of the table that belongs to it; indices that are too great
/// stand for the last one.
pub proof fn lemma_palette_entry(palette: PaletteModel, index: u8, component: int)
    requires
        palette.table.len() == (palette.last + 1) * palette.components,
        0 <= component < palette.components,
    ensures
        entry_of(palette, index).len() == palette.components,
        index <= palette.last ==> entry_of(palette, index)[component] == palette.table[index
            * palette.components + component],
        index > palette.last ==> entry_of(palette, index) == entry_of(palette, palette.last),
{
    let n = palette.components as int;
    let place = if index <= palette.last {
        index as int
    } else {
        palette.last as int
    };
    assert((place + 1) * n == place * n + n) by (nonlinear_arith);
    assert((place + 1) * n <= (palette.last + 1) * n) by (nonlinear_arith)
        requires
            place <= palette.last,
            n >= 0,
    ;
    assert(place * n >= 0) by (nonlinear_arith)
        requires
            place >= 0,
            n >= 0,
    ;
}

/// A color of an indexed space is the entry that is nearest to its index; any other color stays.
pub proof fn lemma_indexed_color(palette: PaletteModel, values: Seq<u64>, to: Sampled)
    ensures
        base_values(None, values, to) == values,
        values.len() > 0 ==> base_values(Some(palette), values, to) == (to.entry)(
            entry_of(palette, (to.index)(values[0])),
        ),
{
}

/// Two numbers are the same value.
pub open spec fn equal_numbers(a: u32, b: u32) -> bool {
    scaled(a) == scaled(b)
}

/// Byte samples are components already if every map is that of its range, and inverted components
/// if every map is that of its range with its ends exchanged.
pub proof fn lemma_direct(
    bits: u8,
    decode: Seq<Interval>,
    ranges: Seq<Interval>,
    defaults: Option<Seq<Interval>>,
)
    requires
        forall|i: int|
            0 <= i < decode.len() ==> finite((#[trigger] decode[i]).low) && finite(decode[i].high),
        forall|i: int|
            0 <= i < ranges.len() ==> finite((#[trigger] ranges[i]).low) && finite(ranges[i].high),
    ensures
        bits != 8 ==> direct_inversion(bits, decode, ranges, defaults) is None,
        bits == 8 && decode.len() == ranges.len() && (forall|i: int|
            0 <= i < decode.len() ==> equal_numbers((#[trigger] decode[i]).low, ranges[i].low)
                && equal_numbers(decode[i].high, ranges[i].high)) ==> direct_inversion(
            bits,
            decode,
            ranges,
            defaults,
        ) == Some(false),
        defaults is None && direct_inversion(bits, decode, ranges, defaults) == Some(true) ==> {
            &&& bits == 8
            &&& decode.len() == ranges.len()
            &&& forall|i: int|
                0 <= i < decode.len() ==> equal_numbers((#[trigger] decode[i]).low, ranges[i].high)
                    && equal_numbers(decode[i].high, ranges[i].low)
        },
        defaults is None && direct_inversion(bits, decode, ranges, defaults) == Some(false) ==> {
            &&& bits == 8
            &&& decode.len() == ranges.len()
            &&& forall|i: int|
                0 <= i < decode.len() ==> equal_numbers((#[trigger] decode[i]).low, ranges[i].low)
                    && equal_numbers(decode[i].high, ranges[i].high)
        },
{
    assert forall|i: int, j: int| #![trigger decode[i], ranges[j]] equal_numbers(
        decode[i].low,
        ranges[j].low,
    ) == (crate::function::single::rank(decode[i].low) == crate::function::single::rank(
        ranges[j].low,
    )) && equal_numbers(decode[i].high, ranges[j].high) == (crate::function::single::rank(
        decode[i].high,
    ) == crate::function::single::rank(ranges[j].high)) && equal_numbers(
        decode[i].low,
        ranges[j].high,
    ) == (crate::function::single::rank(decode[i].low) == crate::function::single::rank(
        ranges[j].high,
    )) && equal_numbers(decode[i].high, ranges[j].low) == (crate::function::single::rank(
        decode[i].high,
    ) == crate::function::single::rank(ranges[j].low)) by {
        lemma_rank(decode[i].low, ranges[j].low);
        lemma_rank(decode[i].high, ranges[j].high);
        lemma_rank(decode[i].low, ranges[j].high);
        lemma_rank(decode[i].high, ranges[j].low);
    }
    if defaults is None && direct_inversion(bits, decode, ranges, defaults) is Some {
        let inverted = direct_inversion(bits, decode, ranges, defaults)->0;
        assert(crate::image::tint::all_same(decode, ranges, inverted));
        assert forall|i: int| 0 <= i < decode.len() implies crate::image::tint::is_same_at(
            decode,
            ranges,
            inverted,
            i,
        ) by {}
        assert forall|i: int| 0 <= i < decode.len() implies (if inverted {
            equal_numbers((#[trigger] decode[i]).low, ranges[i].high) && equal_numbers(
                decode[i].high,
                ranges[i].low,
            )
        } else {
            equal_numbers(decode[i].low, ranges[i].low) && equal_numbers(
                decode[i].high,
                ranges[i].high,
            )
        }) by {
            assert(crate::image::tint::is_same_at(decode, ranges, inverted, i));
        }
    }
    if bits == 8 && decode.len() == ranges.len() && (forall|i: int|
        0 <= i < decode.len() ==> equal_numbers((#[trigger] decode[i]).low, ranges[i].low)
            && equal_numbers(decode[i].high, ranges[i].high)) {
        assert forall|i: int| 0 <= i < decode.len() implies #[trigger] crate::image::tint::is_same_at(
            decode,
            ranges,
            false,
            i,
        ) by {
            assert(finite(decode[i].low) && finite(ranges[i].low));
        }
    }
}

/// Inverting a byte gives what is missing to the greatest one.
pub proof fn lemma_inverted(data: Seq<u8>)
    ensures
        inverted_bytes(data).len() == data.len(),
        forall|i: int|
            0 <= i < data.len() ==> #[trigger] inverted_bytes(data)[i] + data[i] == 255,
{
}

/// Samples of more than eight bits never lead to byte inputs, nor do those of a map beyond its
/// range.
pub proof fn lemma_native(bits: u8, decode: Seq<Interval>, ranges: Seq<Interval>)
    ensures
        bits > 8 ==> needs_native(bits, decode, ranges),
        decode.len() != ranges.len() ==> needs_native(bits, decode, ranges),
        (bits == 1 || bits == 2 || bits == 4 || bits == 8) && decode == ranges && (forall|i: int|
            0 <= i < ranges.len() ==> finite((#[trigger] ranges[i]).low) && finite(ranges[i].high))
            ==> !needs_native(bits, decode, ranges),
        (exists|i: int|
            0 <= i < decode.len() && i < ranges.len() && !equal_numbers(
                (#[trigger] decode[i]).low,
                ranges[i].low,
            ) && !equal_numbers(decode[i].low, ranges[i].high)) ==> needs_native(
            bits,
            decode,
            ranges,
        ),
{
    if exists|i: int|
        0 <= i < decode.len() && i < ranges.len() && !equal_numbers(
            (#[trigger] decode[i]).low,
            ranges[i].low,
        ) && !equal_numbers(decode[i].low, ranges[i].high) {
        let i = choose|i: int|
            0 <= i < decode.len() && i < ranges.len() && !equal_numbers(
                (#[trigger] decode[i]).low,
                ranges[i].low,
            ) && !equal_numbers(decode[i].low, ranges[i].high);
        lemma_rank(decode[i].low, ranges[i].low);
        lemma_rank(decode[i].low, ranges[i].high);
        assert(!crate::image::tint::is_plain_map(decode, ranges, i));
    }
    if (bits == 1 || bits == 2 || bits == 4 || bits == 8) && decode == ranges && (forall|i: int|
        0 <= i < ranges.len() ==> finite((#[trigger] ranges[i]).low) && finite(ranges[i].high)) {
        assert forall|i: int| 0 <= i < decode.len() implies #[trigger] crate::image::tint::is_plain_map(
            decode,
            ranges,
            i,
        ) by {
            assert(finite(ranges[i].low));
        }
    }
}

/// The last channel of an image with an opacity channel is the opacity; the others are its colors
/// in order.
pub proof fn lemma_channels_told_apart(channels: Seq<ChannelSamples>, pixel: int, i: int)
    requires
        channels.len() >= 1,
        0 <= i < channels.len() - 1,
    ensures
        color_samples(channels, pixel).len() + 1 == channels.len(),
        color_samples(channels, pixel)[i] == channels[i].samples@[pixel],
{
}

/// Pixels with an opacity channel are put out one after another, and an image with a pixel that is
/// not finite is not.
pub proof fn lemma_embedded_in_order(
    output: OutputModel,
    channels: Seq<ChannelSamples>,
    recovered: spec_fn(u32, Seq<u32>) -> Seq<u64>,
    encoded: spec_fn(u32, Seq<u32>) -> Seq<u8>,
    to: Conversions,
    count: nat,
)
    requires
        channels.len() >= 1,
    ensures
        embedded_output(output, channels, recovered, to, 0) == Some(output),
        (exists|c: int|
            0 <= c < channels.len() && !finite((#[trigger] channels[c]).samples@[count as int]))
            ==> embedded_output(output, channels, recovered, to, count + 1) is None,
        (forall|c: int|
            0 <= c < channels.len() ==> finite((#[trigger] channels[c]).samples@[count as int]))
            ==> embedded_output(output, channels, recovered, to, count + 1) == match embedded_output(
            output,
            channels,
            recovered,
            to,
            count,
        ) {
            Some(before) => with_color(
                before,
                recovered(
                    channels[channels.len() - 1].samples@[count as int],
                    color_samples(channels, count as int),
                ),
                to,
            ),
            None => None,
        },
        encoded_pixels(channels, encoded, 0) == Seq::<u8>::empty(),
        encoded_pixels(channels, encoded, count + 1) == encoded_pixels(channels, encoded, count)
            + encoded(
            channels[channels.len() - 1].samples@[count as int],
            color_samples(channels, count as int),
        ),
{
    reveal_with_fuel(embedded_output, 2);
    reveal_with_fuel(encoded_pixels, 2);
}

/// The channels of an image with opacity are its components and one more, all of them as long as
/// the image.
pub proof fn lemma_channels_fit(
    channels: Seq<ChannelSamples>,
    decode: Seq<Interval>,
    count: int,
    components: int,
)
    ensures
        channels_fit(channels, decode, count, components) ==> {
            &&& channels.len() == decode.len() + 1
            &&& decode.len() == components
            &&& count != 0
            &&& components != 0
            &&& forall|i: int|
                0 <= i < channels.len() ==> (#[trigger] channels[i]).samples@.len() == count
                    && 1 <= channels[i].bits_per_component <= 16
            &&& forall|i: int|
                0 <= i < decode.len() ==> finite((#[trigger] decode[i]).low) && finite(
                    decode[i].high,
                )
        },
{
}

} // verus!
