//! What holds of the colors of images.

use crate::function::double;
use crate::function::numeric::Interval;
use crate::function::single::{finite, lemma_rank, scaled};
use crate::image::dictionary::{byte_of, either_word, uses_jpx, ImageXObject};
use crate::image::icc::{batch_count, batch_looks, batch_of, profile_colors};
use crate::image::matte::{
    belong_together, is_matte_dict, matte_mask_of, matte_of, recovered_output, Decoded,
};
use crate::image::output::{
    channels, colors_for_transfer, finished_colors, full_batch, has_output, is_gray, is_native,
    output_after, tripled, with_color, ColorTarget, Conversions, OutputModel, OutputSpace,
};
use crate::image::palette::PaletteModel;
use crate::image::rgb::{
    block_end, colors_from, decode_fits, direct_components, float_refusal, is_opened_decoded,
    looks_at, output_size, refusal, ImageFacts,
};
use crate::image::samples::{is_depth, FloatImageError, SampleContext};
use crate::image::sampling::{base_values, Sampled};
use crate::object::{Array, Dict, Document, MaybeRef, Object, Stream};
use crate::types::ColorSpaceKind;
use vstd::prelude::*;

verus! {

/// A color is put out for a pixel that is still to come, if it has the components of its space
/// and all of them are finite. What was put out stays.
pub proof fn lemma_color_taken(output: OutputModel, values: Seq<u64>, to: Conversions)
    ensures
        with_color(output, values, to) matches Some(after) ==> {
            &&& output.remaining > 0
            &&& values.len() == output.space.components
            &&& forall|i: int| 0 <= i < values.len() ==> double::finite(#[trigger] values[i])
            &&& after.remaining == output.remaining - 1
            &&& after.space == output.space
            &&& after.target == output.target
            &&& after.batch_length == output.batch_length
            &&& after.data.len() >= output.data.len()
            &&& after.data.take(output.data.len() as int) == output.data
        },
{
    if with_color(output, values, to) is Some {
        let after = with_color(output, values, to)->0;
        assert(after.data.take(output.data.len() as int) =~= output.data);
        assert forall|i: int| 0 <= i < values.len() implies double::finite(
            #[trigger] values[i],
        ) by {}
    }
}

/// Colors for four inks are those of the alternate space, one pixel each.
pub proof fn lemma_inks(output: OutputModel, values: Seq<u64>, to: Conversions)
    requires
        output.target is Cmyk,
        output.remaining > 0,
        values.len() == output.space.components,
        forall|i: int| 0 <= i < values.len() ==> double::finite(#[trigger] values[i]),
        output.byte_tints.len() == 0,
    ensures
        with_color(output, values, to) is Some <==> (to.alternate)(values) is Some,
        with_color(output, values, to) matches Some(after) ==> after.data == output.data + (
        to.alternate)(values)->0@,
{
}

/// Where the colors of byte tints are kept, colors of the same tint come out the same.
pub proof fn lemma_same_tint(
    output: OutputModel,
    first: Seq<u64>,
    second: Seq<u64>,
    to: Conversions,
)
    requires
        output.target is Cmyk,
        output.byte_tints.len() == 256,
        with_color(output, first, to) is Some,
        (to.tint)(first[0]) == (to.tint)(second[0]),
    ensures
        ({
            let once = with_color(output, first, to)->0;
            with_color(once, second, to) matches Some(twice) ==> {
                let pixel = once.data.skip(output.data.len() as int);
                &&& pixel.len() == 4
                &&& twice.data == once.data + pixel
                &&& twice.byte_tints == once.byte_tints
            }
        }),
        output.byte_tints[(to.tint)(first[0]) as int] is None ==> ((to.alternate)(first) matches Some(
            pixel,
        ) && (with_color(output, first, to)->0).data == output.data + pixel@),
{
    let once = with_color(output, first, to)->0;
    let place = (to.tint)(first[0]) as int;
    let pixel = once.byte_tints[place]->0@;
    assert(once.data == output.data + pixel);
    assert(once.data.skip(output.data.len() as int) =~= pixel);
}

/// Colors that are converted without narrowing take three bytes, of which a gray one keeps the
/// first.
pub proof fn lemma_native_color(output: OutputModel, values: Seq<u64>, to: Conversions)
    requires
        output.target is Rgb,
        output.space.icc_components is None,
        is_native(output.space),
        output.remaining > 0,
        values.len() == output.space.components,
        forall|i: int| 0 <= i < values.len() ==> double::finite(#[trigger] values[i]),
    ensures
        match (to.native)(values) {
            None => with_color(output, values, to) is None,
            Some(rgb) => with_color(output, values, to) matches Some(after) && if is_gray(
                output.space,
            ) {
                after.data == output.data.push(rgb@[0])
            } else {
                after.data == output.data.push(rgb@[0]).push(rgb@[1]).push(rgb@[2])
            },
        },
{
    if (to.native)(values) is Some {
        let rgb = (to.native)(values)->0;
        assert(output.data + rgb@.take(1) =~= output.data.push(rgb@[0]));
        assert(output.data + rgb@ =~= output.data.push(rgb@[0]).push(rgb@[1]).push(rgb@[2]));
    }
}

/// Other colors wait until their batch is full or the last pixel has come, and are converted
/// together then.
pub proof fn lemma_batches(output: OutputModel, values: Seq<u64>, to: Conversions)
    requires
        output.target is Rgb,
        output.space.icc_components is None,
        !is_native(output.space),
        output.remaining > 0,
        values.len() == output.space.components,
        forall|i: int| 0 <= i < values.len() ==> double::finite(#[trigger] values[i]),
    ensures
        ({
            let waiting = output.batch + (to.encode)(values);
            let due = waiting.len() == output.batch_length || output.remaining == 1;
            &&& !due ==> (with_color(output, values, to) matches Some(after) && after.data
                == output.data && after.batch == waiting)
            &&& due ==> match (to.convert)(waiting) {
                None => with_color(output, values, to) is None,
                Some(bytes) => with_color(output, values, to) matches Some(after) && after.data
                    == output.data + bytes && after.batch.len() == 0,
            }
        }),
{
}

/// Colors of a profile wait in the same way, with the components that the profile takes.
pub proof fn lemma_profile_batches(output: OutputModel, values: Seq<u64>, to: Conversions)
    requires
        output.target is Rgb,
        output.space.icc_components is Some,
        output.remaining > 0,
        values.len() == output.space.components,
        forall|i: int| 0 <= i < values.len() ==> double::finite(#[trigger] values[i]),
    ensures
        match (to.icc_components)(values) {
            None => with_color(output, values, to) is None,
            Some(components) => {
                let waiting = output.native_batch + components;
                let due = waiting.len() == output.batch_length || output.remaining == 1;
                &&& !due ==> (with_color(output, values, to) matches Some(after) && after.data
                    == output.data && after.native_batch == waiting)
                &&& due ==> match (to.convert_icc)(waiting) {
                    None => with_color(output, values, to) is None,
                    Some(bytes) => with_color(output, values, to) matches Some(after) && after.data
                        == output.data + bytes && after.native_batch.len() == 0,
                }
            },
        },
{
}

/// A pixel takes four bytes for inks, one byte if it is gray, and else three. It is gray in gray
/// device spaces and in spaces over them.
pub proof fn lemma_pixel_bytes(space: OutputSpace, target: ColorTarget)
    ensures
        target is Cmyk ==> channels(space, target) == 4,
        target is Rgb && (space.kind is DeviceGray || space.device_alternate == Some(
            ColorSpaceKind::DeviceGray,
        )) ==> channels(space, target) == 1,
        target is Rgb && !(space.kind is DeviceGray) && space.device_alternate != Some(
            ColorSpaceKind::DeviceGray,
        ) ==> channels(space, target) == 3,
        is_gray(space) ==> channels(space, ColorTarget::Rgb) == 1,
        !space.is_all_colorants && !space.uses_tint_transform && (space.kind is DeviceCmyk
            || space.kind is IccBased || space.kind is Indexed || space.kind is Separation
            || space.kind is DeviceN || space.kind is Pattern) ==> !is_native(space),
        space.is_all_colorants || space.uses_tint_transform || space.kind is DeviceGray
            || space.kind is DeviceRgb || space.kind is CalGray || space.kind is CalRgb
            || space.kind is Lab ==> is_native(space),
{
}

/// A batch holds no more pixels than there are.
pub proof fn lemma_full_batch(space: OutputSpace, count: usize)
    requires
        space.icc_components is None,
    ensures
        full_batch(space, count) <= count * space.components,
        full_batch(space, count) <= 4096 * space.components,
        full_batch(space, count) == count * space.components || full_batch(space, count) == 4096
            * space.components,
{
    let n = space.components as int;
    assert(count <= 4096 ==> count * n <= 4096 * n) by (nonlinear_arith)
        requires
            n >= 0,
    ;
    assert(count >= 4096 ==> count * n >= 4096 * n) by (nonlinear_arith)
        requires
            n >= 0,
    ;
}

/// There is no output for inks but over the device space of inks, nor one of nothing.
pub proof fn lemma_has_output(space: OutputSpace, count: usize, target: ColorTarget)
    ensures
        has_output(space, count, target) ==> {
            &&& count > 0
            &&& space.components > 0
            &&& target is Cmyk ==> space.device_alternate == Some(ColorSpaceKind::DeviceCmyk)
            &&& count * channels(space, target) <= usize::MAX
        },
{
}

/// A gray color as three components has the same component three times.
pub proof fn lemma_tripled(data: Seq<u8>, i: int)
    requires
        0 <= i < data.len(),
    ensures
        tripled(data).len() == data.len() + data.len() + data.len(),
        tripled(data)[3 * i] == data[i],
        tripled(data)[3 * i + 1] == data[i],
        tripled(data)[3 * i + 2] == data[i],
{
}

/// Colors are there once all pixels have come, for other targets than inks. Gray ones stay gray
/// unless their channels are transferred apart.
pub proof fn lemma_finished(output: OutputModel, transfers_channels: bool)
    ensures
        finished_colors(output, transfers_channels) is Some <==> output.remaining == 0
            && output.target is Rgb,
        finished_colors(output, transfers_channels) matches Some((data, gray)) ==> {
            &&& gray <==> is_gray(output.space) && !transfers_channels
            &&& is_gray(output.space) && transfers_channels ==> data == tripled(output.data)
            &&& !(is_gray(output.space) && transfers_channels) ==> data == output.data
        },
        colors_for_transfer(output.data, false, transfers_channels).0 == output.data,
{
}

/// The place of a pixel in reading order.
proof fn lemma_row_and_column(width: int, row: int, column: int)
    requires
        0 <= column < width,
        0 <= row,
    ensures
        (row * width + column) / width == row,
        (row * width + column) % width == column,
{
    vstd::arithmetic::div_mod::lemma_fundamental_div_mod_converse(
        row * width + column,
        width,
        row,
        column,
    );
}

/// Pixels are put out row by row, and in each row from its start.
pub proof fn lemma_reading_order(
    output: OutputModel,
    context: SampleContext,
    decoded: spec_fn(Seq<u32>) -> Seq<u64>,
    to: Conversions,
    row: int,
    column: int,
)
    requires
        0 <= column < context.width,
        0 <= row,
    ensures
        output_after(output, context, decoded, to, 0) == Some(output),
        output_after(output, context, decoded, to, (row * context.width + column + 1) as nat)
            == match output_after(
            output,
            context,
            decoded,
            to,
            (row * context.width + column) as nat,
        ) {
            Some(before) => with_color(before, decoded(context.pixel(row, column)), to),
            None => None,
        },
{
    let width = context.width as int;
    lemma_row_and_column(width, row, column);
    assert(row * width >= 0) by (nonlinear_arith)
        requires
            row >= 0,
            width >= 0,
    ;
}

/// Device, calibrated and Lab spaces convert without a profile; gray ones have one component, the
/// others three.
pub proof fn lemma_direct_components(kind: ColorSpaceKind)
    ensures
        direct_components(kind) == Some(1usize) <==> kind is DeviceGray || kind is CalGray,
        direct_components(kind) == Some(3usize) <==> kind is DeviceRgb || kind is CalRgb
            || kind is Lab,
        direct_components(kind) is None <==> kind is DeviceCmyk || kind is IccBased
            || kind is Indexed || kind is Separation || kind is DeviceN || kind is Pattern,
{
}

/// An output has three components for each pixel and is within the limit; a greater one is refused
/// with the bytes that it would take.
pub proof fn lemma_output_size(width: u32, height: u32, component_bytes: usize, limit: u64)
    ensures
        ({
            let bytes = 3 * (width * height * component_bytes);
            let size = output_size(width, height, component_bytes, limit);
            &&& size matches Ok(n) ==> n == bytes && bytes <= limit
            &&& size is Err ==> bytes > limit || bytes > usize::MAX || 3 * component_bytes
                > u64::MAX
            &&& size matches Err(FloatImageError::Limit { requested }) ==> requested == bytes
                || requested == u64::MAX
            &&& size is Err ==> size->Err_0 is Limit
        }),
{
    let pixels = width * height;
    assert(pixels * (3 * component_bytes) == 3 * (pixels * component_bytes)) by (nonlinear_arith);
}

/// The entry of a key leaves the maps of samples as they are, or gives two finite ends for each
/// component.
pub open spec fn is_map_entry(doc: Document, object: Option<Object>, components: usize) -> bool {
    match object {
        None => true,
        Some(Object::Null) => true,
        Some(Object::Array(array)) => array.items@.len() == components + components && (forall|
            i: int,
        |
            0 <= i < array.items@.len() ==> (doc.resolved(#[trigger] array.items@[i]) matches Some(
                Object::Number(number),
            ) && finite(number.narrowed))),
        _ => false,
    }
}

/// Maps of samples fit if both of their entries do. Images in JPEG 2000 ignore them.
pub proof fn lemma_maps_fit(doc: Document, dict: Dict, components: usize)
    ensures
        decode_fits(doc, dict, components) <==> uses_jpx(doc, dict) || (is_map_entry(
            doc,
            doc.value(dict, "D"@),
            components,
        ) && is_map_entry(doc, doc.value(dict, "Decode"@), components)),
{
    lemma_map_entry(doc, dict, "D"@, components);
    lemma_map_entry(doc, dict, "Decode"@, components);
}

proof fn lemma_map_entry(doc: Document, dict: Dict, key: Seq<char>, components: usize)
    ensures
        crate::image::rgb::decode_entry_fits(doc, dict, key, components) <==> is_map_entry(
            doc,
            doc.value(dict, key),
            components,
        ),
{
    match doc.value(dict, key) {
        Some(Object::Array(array)) => {
            if crate::image::rgb::all_numbers_finite(doc, array) {
                assert forall|i: int| 0 <= i < array.items@.len() implies (doc.resolved(
                    #[trigger] array.items@[i],
                ) matches Some(Object::Number(number)) && finite(number.narrowed)) by {
                    assert(crate::image::rgb::is_finite_item(doc, array.items@[i]));
                }
            }
            if is_map_entry(doc, doc.value(dict, key), components) {
                assert forall|i: int|
                    0 <= i < array.items@.len() implies crate::image::rgb::is_finite_item(
                    doc,
                    #[trigger] array.items@[i],
                ) by {}
            }
        },
        _ => {},
    }
}

/// The colors of pixels follow each other in reading order: those of some pixels, then those of
/// the next ones. There are none if one of them has none.
pub proof fn lemma_colors_follow(
    context: SampleContext,
    color: spec_fn(Seq<u32>) -> Option<Seq<u8>>,
    start: int,
    count: nat,
    more: nat,
)
    ensures
        colors_from(context, color, start, count + more) == match (
            colors_from(context, color, start, count),
            colors_from(context, color, start + count, more),
        ) {
            (Some(first), Some(second)) => Some(first + second),
            _ => None,
        },
    decreases more,
{
    if more == 0 {
        if colors_from(context, color, start, count) is Some {
            let first = colors_from(context, color, start, count)->0;
            assert(first + Seq::<u8>::empty() =~= first);
        }
    } else {
        lemma_colors_follow(context, color, start, count, (more - 1) as nat);
        let i = start + count + more - 1;
        let width = context.width as int;
        let last = color(context.pixel(i / width, i % width));
        if colors_from(context, color, start, count) is Some && colors_from(
            context,
            color,
            start + count,
            (more - 1) as nat,
        ) is Some && last is Some {
            let a = colors_from(context, color, start, count)->0;
            let b = colors_from(context, color, start + count, (more - 1) as nat)->0;
            assert((a + b) + last->0 =~= a + (b + last->0));
        }
    }
}

/// The color of one pixel is that of its samples.
pub proof fn lemma_color_of_pixel(
    context: SampleContext,
    color: spec_fn(Seq<u32>) -> Option<Seq<u8>>,
    row: int,
    column: int,
)
    requires
        0 <= column < context.width,
        0 <= row,
    ensures
        colors_from(context, color, row * context.width + column, 1) == color(
            context.pixel(row, column),
        ),
{
    let width = context.width as int;
    lemma_row_and_column(width, row, column);
    reveal_with_fuel(colors_from, 2);
    if color(context.pixel(row, column)) is Some {
        let bytes = color(context.pixel(row, column))->0;
        assert(Seq::<u8>::empty() + bytes =~= bytes);
    }
}

/// Colors are given for images of direct spaces without opacity, whose samples fit their space and
/// are all there, within the limit. Every other image is refused.
pub proof fn lemma_refusal(
    context: SampleContext,
    kind: ColorSpaceKind,
    has_alpha: bool,
    jpx: bool,
    component_bytes: usize,
    max_bytes: u64,
)
    ensures
        ({
            let error = refusal(context, kind, has_alpha, jpx, component_bytes, max_bytes);
            let fits = is_depth(context.bits_per_component, jpx) && direct_components(kind) == Some(
                context.components,
            ) && context.decode@.len() == context.components && (forall|i: int|
                0 <= i < context.decode@.len() ==> finite((#[trigger] context.decode@[i]).low)
                    && finite(context.decode@[i].high)) && !has_alpha;
            let size = output_size(context.width, context.height, component_bytes, max_bytes);
            &&& !fits ==> error == Some(FloatImageError::Unsupported)
            &&& fits && size is Err ==> error == Some(size->Err_0)
            &&& fits && size is Ok && context.row_bits() <= u64::MAX && context.required()
                <= u64::MAX ==> error == if context.required() > context.data@.len() {
                Some(FloatImageError::Decode)
            } else {
                None
            }
            &&& fits && size is Ok && (context.row_bits() > u64::MAX || context.required()
                > u64::MAX) ==> error == Some(FloatImageError::Limit { requested: u64::MAX })
        }),
{
}

/// A host is asked before every block of pixels, and once more at the end.
pub proof fn lemma_looks(total: int, blocks: int)
    requires
        total >= 0,
        blocks >= 0,
    ensures
        (looks_at(total) - 1) * 1024 >= total,
        total > 0 ==> (looks_at(total) - 2) * 1024 < total,
        block_end(total, blocks) <= total,
        block_end(total, blocks) <= blocks * 1024,
        block_end(total, blocks) == total || block_end(total, blocks) == blocks * 1024,
        (batch_looks(total) - 1) * 1024 >= total,
        total > 0 ==> (batch_looks(total) - 2) * 1024 < total,
{
}

/// Full precision is for images of direct spaces without masks, opacity or transfer functions,
/// whose maps fit.
pub proof fn lemma_float_refusal(
    doc: Document,
    dict: Dict,
    facts: ImageFacts,
    has_embedded_alpha: bool,
    component_bytes: usize,
    max_bytes: u64,
)
    ensures
        ({
            let error = float_refusal(
                doc,
                dict,
                facts,
                has_embedded_alpha,
                component_bytes,
                max_bytes,
            );
            let components = match facts.color_space {
                Some(kind) => direct_components(kind),
                None => None,
            };
            let plain = facts.is_image && !facts.has_transfer_function && dict.raw("Mask"@) is None
                && dict.raw("SMask"@) is None && !has_embedded_alpha && (components matches Some(n)
                && decode_fits(doc, dict, n));
            let size = output_size(facts.width, facts.height, component_bytes, max_bytes);
            &&& !plain ==> error == Some(FloatImageError::Unsupported)
            &&& plain ==> error == (match size {
                Ok(_) => None,
                Err(error) => Some(error),
            })
        }),
{
}

/// An image that cannot be opened cannot be decoded, and no one is asked. Otherwise the host is
/// asked at once, and nothing is decoded if it refuses.
pub proof fn lemma_opened(
    opened: Option<(SampleContext, bool)>,
    kind: ColorSpaceKind,
    jpx: bool,
    component_bytes: usize,
    max_bytes: u64,
    color: spec_fn(Seq<u32>) -> Option<Seq<u8>>,
    asked: Seq<bool>,
    result: Result<Seq<u8>, FloatImageError>,
)
    requires
        is_opened_decoded(
            opened,
            kind,
            jpx,
            component_bytes,
            max_bytes,
            color,
            asked,
            result,
        ),
    ensures
        opened is None <==> asked.len() == 0,
        opened is None ==> result == Err::<Seq<u8>, FloatImageError>(FloatImageError::Decode),
        asked.len() > 0 && !asked[0] ==> asked.len() == 1 && result == Err::<
            Seq<u8>,
            FloatImageError,
        >(FloatImageError::Cancelled),
        opened matches Some((context, has_alpha)) ==> {
            &&& result is Ok ==> !has_alpha && direct_components(kind) == Some(context.components)
                && is_depth(context.bits_per_component, jpx)
            &&& asked[0] && direct_components(kind) != Some(context.components) ==> result == Err::<
                Seq<u8>,
                FloatImageError,
            >(FloatImageError::Unsupported)
        },
        result is Ok ==> forall|i: int| 0 <= i < asked.len() ==> #[trigger] asked[i],
{
    if result is Ok {
        let rest = asked.skip(1);
        assert forall|i: int| 0 <= i < asked.len() implies #[trigger] asked[i] by {
            if i > 0 {
                assert(rest[i - 1] == asked[i]);
                assert(rest.last() == rest[rest.len() - 1]);
            }
        }
    }
}

/// The components of pixels for a profile follow each other in reading order, as many for each
/// pixel as the profile takes.
pub proof fn lemma_components_follow(
    context: SampleContext,
    components: usize,
    mapped: spec_fn(Seq<u32>) -> Option<Seq<u64>>,
    row: int,
    column: int,
    start: int,
)
    requires
        0 <= column < context.width,
        0 <= row,
        start <= row * context.width + column,
    ensures
        batch_of(context, components, mapped, start, 0) == Some(Seq::<u64>::empty()),
        ({
            let i = row * context.width + column;
            let values = mapped(context.pixel(row, column));
            batch_of(context, components, mapped, start, (i - start + 1) as nat) == match batch_of(
                context,
                components,
                mapped,
                start,
                (i - start) as nat,
            ) {
                Some(before) => if values is Some && (values->0).len() == components {
                    Some(before + values->0)
                } else {
                    None
                },
                None => None,
            }
        }),
{
    lemma_row_and_column(context.width as int, row, column);
}

/// Batches for a profile follow each other without a gap; each is full but the last one.
pub proof fn lemma_profile_batches_follow(
    context: SampleContext,
    components: usize,
    mapped: spec_fn(Seq<u32>) -> Option<Seq<u64>>,
    converted: spec_fn(Seq<u64>) -> Option<Seq<u8>>,
    start: int,
    total: int,
)
    requires
        start < total,
    ensures
        1 <= batch_count(start, total) <= 1024,
        start + batch_count(start, total) <= total,
        batch_count(start, total) == 1024 || start + batch_count(start, total) == total,
        ({
            let next = start + batch_count(start, total);
            let rest = profile_colors(context, components, mapped, converted, next, total);
            profile_colors(context, components, mapped, converted, start, total) == match batch_of(
                context,
                components,
                mapped,
                start,
                (next - start) as nat,
            ) {
                Some(batch) => match (converted(batch), rest) {
                    (Some(bytes), Some(rest)) => Some(bytes + rest),
                    _ => None,
                },
                None => None,
            }
        }),
        profile_colors(context, components, mapped, converted, total, total) == Some(
            Seq::<u8>::empty(),
        ),
{
}

/// A matte has one finite number for each component, within the range of the component.
pub proof fn lemma_matte(doc: Document, items: Seq<MaybeRef>, ranges: Seq<Interval>)
    ensures
        matte_of(doc, items, ranges) matches Some(matte) ==> {
            &&& items.len() == ranges.len()
            &&& matte.len() == items.len()
            &&& forall|i: int|
                0 <= i < items.len() ==> (doc.resolved(items[i]) matches Some(
                    Object::Number(number),
                ) && #[trigger] matte[i] == number.narrowed) && finite(matte[i]) && scaled(
                    ranges[i].low,
                ) <= scaled(matte[i]) <= scaled(ranges[i].high)
        },
{
    if matte_of(doc, items, ranges) is Some {
        let matte = matte_of(doc, items, ranges)->0;
        assert forall|i: int| 0 <= i < items.len() implies (doc.resolved(items[i]) matches Some(
            Object::Number(number),
        ) && #[trigger] matte[i] == number.narrowed) && finite(matte[i]) && scaled(ranges[i].low)
            <= scaled(matte[i]) <= scaled(ranges[i].high) by {
            assert(crate::image::matte::matte_component(doc, items[i], ranges[i]) is Some);
            lemma_rank(matte[i], ranges[i].low);
            lemma_rank(ranges[i].high, matte[i]);
        }
    }
}

/// An object is the name with a text.
pub open spec fn is_name(object: Option<Object>, text: Seq<char>) -> bool {
    object matches Some(Object::Name(name)) && name@ == vstd::utf8::encode_utf8(text)
}

/// An object leaves an image what it is.
pub open spec fn is_no_stencil(object: Option<Object>) -> bool {
    object is None || object == Some(Object::Null) || object == Some(Object::Boolean(false))
}

/// A soft mask with a matte is a gray image without masks of its own, and no stencil.
pub proof fn lemma_matte_dict(doc: Document, dict: Dict)
    requires
        is_matte_dict(doc, dict),
    ensures
        is_name(doc.value(dict, "Subtype"@), "Image"@),
        is_name(doc.value(dict, "ColorSpace"@), "DeviceGray"@) || (!(doc.value(
            dict,
            "ColorSpace"@,
        ) matches Some(Object::Name(_))) && is_name(doc.value(dict, "CS"@), "DeviceGray"@)),
        dict.raw("Mask"@) is None,
        dict.raw("SMask"@) is None,
        dict.raw("Type"@) is Some ==> is_name(doc.value(dict, "Type"@), "XObject"@),
        is_no_stencil(doc.value(dict, "IM"@)),
        is_no_stencil(doc.value(dict, "ImageMask"@)),
        !uses_jpx(doc, dict) ==> byte_of(doc, dict, "BitsPerComponent"@) is Some || byte_of(
            doc,
            dict,
            "BPC"@,
        ) is Some,
{
}

/// A matte is undone for a soft mask of the size of the image, if the maps of both fit.
pub proof fn lemma_matte_mask(
    doc: Document,
    dict: Dict,
    image: ImageXObject,
    ranges: Seq<Interval>,
)
    ensures
        matte_mask_of(doc, dict, image, ranges) matches Some(found) ==> {
            &&& doc.value(dict, "SMask"@) == Some(Object::Stream(found.mask))
            &&& doc.value(found.mask.dict, "Matte"@) matches Some(Object::Array(array)) && matte_of(
                doc,
                array.items@,
                ranges,
            ) == Some(found.matte)
            &&& is_matte_dict(doc, found.mask.dict)
            &&& found.image.width == image.width
            &&& found.image.height == image.height
            &&& either_word(doc, found.mask.dict, "W"@, "Width"@) == Some(image.width)
            &&& either_word(doc, found.mask.dict, "H"@, "Height"@) == Some(image.height)
            &&& found.image.color_space_properties.color_space_components == Some(1usize)
            &&& decode_fits(doc, dict, ranges.len() as usize)
            &&& decode_fits(doc, found.mask.dict, 1)
        },
        !(doc.value(dict, "SMask"@) matches Some(Object::Stream(_))) ==> matte_mask_of(
            doc,
            dict,
            image,
            ranges,
        ) is None,
{
}

/// Undoing a matte goes pixel by pixel in reading order: each color is recovered from its own
/// samples, the matte and the opacity of the mask at the same place, and its opacity is kept.
pub proof fn lemma_recovered_in_order(
    output: OutputModel,
    source: SampleContext,
    mask: SampleContext,
    palette: Option<PaletteModel>,
    matte: Seq<u32>,
    of: Sampled,
    to: Conversions,
    row: int,
    column: int,
)
    requires
        0 <= column < source.width,
        0 <= row,
    ensures
        ({
            let i = (row * source.width + column) as nat;
            let (opacity, byte) = (of.opacity)(mask, mask.pixel(row, column)[0]);
            let color = (of.recover)(
                base_values(palette, (of.decode)(source.pixel(row, column)), of),
                base_values(palette, (of.widen)(matte), of),
                opacity,
            );
            let before = recovered_output(output, source, mask, palette, matte, of, to, i);
            let after = recovered_output(output, source, mask, palette, matte, of, to, i + 1);
            match before {
                Some(before) => match with_color(before.output, color, to) {
                    Some(output) => after matches Some(after) && after.output == output
                        && after.alpha == before.alpha.push(byte),
                    None => after is None,
                },
                None => after is None,
            }
        }),
        recovered_output(output, source, mask, palette, matte, of, to, 0) matches Some(start)
            && start.output == output && start.alpha.len() == 0,
{
    let width = source.width as int;
    lemma_row_and_column(width, row, column);
    assert(row * width >= 0) by (nonlinear_arith)
        requires
            row >= 0,
            width >= 0,
    ;
}

/// The samples of an image and of its soft mask belong together if they are of the same size,
/// without opacity channels, and both can be read.
pub proof fn lemma_belong_together(source: Decoded, opacity: Decoded)
    requires
        belong_together(source, opacity),
    ensures
        source.context.width == opacity.context.width,
        source.context.height == opacity.context.height,
        !source.has_alpha && !opacity.has_alpha,
        source.context.is_complete() && opacity.context.is_complete(),
        is_depth(source.context.bits_per_component, source.jpx),
        is_depth(opacity.context.bits_per_component, opacity.jpx),
{
}

} // verus!
