//! Full-precision decoded image colors.

use crate::function::single::{finite, is_finite};
use crate::image::dictionary::{uses_jpx, uses_jpx_decode};
use crate::image::samples::{
    all_ends_finite, are_ends_finite, can_be_depth, is_depth, required_bytes, FloatImageError,
    SampleContext, Samples,
};
use crate::list::append;
use crate::object::{Array, Dict, Document, MaybeRef, Object};
use crate::polled::{added, is_polled_more, Polled};
use crate::types::ColorSpaceKind;
use vstd::prelude::*;

verus! {

/// The components of a color space whose colors convert without a profile or a function.
pub open spec fn direct_components(kind: ColorSpaceKind) -> Option<usize> {
    match kind {
        ColorSpaceKind::DeviceGray | ColorSpaceKind::CalGray => Some(1),
        ColorSpaceKind::DeviceRgb | ColorSpaceKind::CalRgb | ColorSpaceKind::Lab => Some(3),
        _ => None,
    }
}

/// The components of a color space whose colors convert without a profile or a function.
pub fn components_of(kind: ColorSpaceKind) -> (components: Option<usize>)
    ensures
        components == direct_components(kind),
{
    match kind {
        ColorSpaceKind::DeviceGray | ColorSpaceKind::CalGray => Some(1),
        ColorSpaceKind::DeviceRgb | ColorSpaceKind::CalRgb | ColorSpaceKind::Lab => Some(3),
        _ => None,
    }
}

/// The bytes of an output of three components a pixel, or why there is none.
pub open spec fn output_size(width: u32, height: u32, component_bytes: usize, limit: u64) -> Result<
    usize,
    FloatImageError,
> {
    let bytes = width * height * (3 * component_bytes);
    if 3 * component_bytes > u64::MAX || bytes > u64::MAX {
        Err(FloatImageError::Limit { requested: u64::MAX })
    } else if bytes > limit || bytes > usize::MAX {
        Err(FloatImageError::Limit { requested: bytes as u64 })
    } else {
        Ok(bytes as usize)
    }
}

/// The bytes of an output of three components a pixel.
pub fn output_bytes(width: u32, height: u32, component_bytes: usize, limit: u64) -> (bytes: Result<
    usize,
    FloatImageError,
>)
    ensures
        bytes == output_size(width, height, component_bytes, limit),
{
    let pixels: u64 = {
        assert(width * height <= 0xFFFF_FFFF * 0xFFFF_FFFF) by (nonlinear_arith)
            requires
                width <= 0xFFFF_FFFF,
                height <= 0xFFFF_FFFF,
        ;
        width as u64 * height as u64
    };
    let pixel_bytes: u128 = 3 * component_bytes as u128;
    if pixel_bytes > u64::MAX as u128 {
        return Err(FloatImageError::Limit { requested: u64::MAX });
    }
    assert(pixels * pixel_bytes <= 0xFFFF_FFFF_FFFF_FFFF * 0xFFFF_FFFF_FFFF_FFFF && 0 <= pixels
        * pixel_bytes) by (nonlinear_arith)
        requires
            pixels <= 0xFFFF_FFFF_FFFF_FFFF,
            pixel_bytes <= 0xFFFF_FFFF_FFFF_FFFF,
    ;
    let bytes: u128 = pixels as u128 * pixel_bytes;
    if bytes > u64::MAX as u128 {
        return Err(FloatImageError::Limit { requested: u64::MAX });
    }
    if bytes > limit as u128 || bytes > usize::MAX as u128 {
        return Err(FloatImageError::Limit { requested: bytes as u64 });
    }
    Ok(bytes as usize)
}

/// An item is a finite number.
pub open spec fn is_finite_item(doc: Document, item: MaybeRef) -> bool {
    doc.resolved(item) matches Some(Object::Number(number)) && finite(number.narrowed)
}

/// All items of an array are finite numbers.
pub open spec fn all_numbers_finite(doc: Document, array: Array) -> bool {
    forall|i: int|
        0 <= i < array.items@.len() ==> is_finite_item(doc, #[trigger] array.items@[i])
}

/// An array holds two finite numbers for each component.
pub open spec fn is_decode_array(doc: Document, array: Array, components: usize) -> bool {
    &&& array.items@.len() == 2 * components
    &&& all_numbers_finite(doc, array)
}

/// Whether an array holds two finite numbers for each component.
pub fn valid_decode(doc: &Document, array: &Array, components: usize) -> (result: bool)
    ensures
        result == is_decode_array(*doc, *array, components),
{
    if array.items.len() / 2 != components || array.items.len() % 2 != 0 {
        return false;
    }
    let mut i: usize = 0;
    while i < array.items.len()
        invariant
            i <= array.items@.len(),
            forall|k: int|
                0 <= k < i ==> is_finite_item(*doc, #[trigger] array.items@[k]),
        decreases array.items@.len() - i,
    {
        let ghost item = array.items@[i as int];
        match doc.resolve(&array.items[i]) {
            Some(Object::Number(number)) => {
                if !is_finite(number.narrowed) {
                    assert(!is_finite_item(*doc, item));
                    return false;
                }
            },
            _ => {
                assert(!is_finite_item(*doc, item));
                return false;
            },
        }
        i = i + 1;
    }
    true
}

/// The entry of a key is absent, or an array of two finite numbers for each component.
pub open spec fn decode_entry_fits(
    doc: Document,
    dict: Dict,
    key: Seq<char>,
    components: usize,
) -> bool {
    match doc.value(dict, key) {
        None | Some(Object::Null) => true,
        Some(Object::Array(array)) => is_decode_array(doc, array, components),
        _ => false,
    }
}

/// The decode entries of an image fit its components. Images in JPEG 2000 ignore them.
pub open spec fn decode_fits(doc: Document, dict: Dict, components: usize) -> bool {
    uses_jpx(doc, dict) || (decode_entry_fits(doc, dict, "D"@, components) && decode_entry_fits(
        doc,
        dict,
        "Decode"@,
        components,
    ))
}

fn entry_fits(doc: &Document, dict: &Dict, key: &str, components: usize) -> (result: bool)
    ensures
        result == decode_entry_fits(*doc, *dict, key@, components),
{
    match doc.lookup(dict, key) {
        None => true,
        Some(Object::Null) => true,
        Some(Object::Array(array)) => valid_decode(doc, array, components),
        _ => false,
    }
}

/// Check the decode entries of an image. No typed iteration discards malformed members.
pub fn validate_decode(doc: &Document, dict: &Dict, components: usize) -> (result: Result<
    (),
    FloatImageError,
>)
    ensures
        result == (if decode_fits(*doc, *dict, components) {
            Ok::<(), FloatImageError>(())
        } else {
            Err::<(), FloatImageError>(FloatImageError::Unsupported)
        }),
{
    if uses_jpx_decode(doc, dict) || (entry_fits(doc, dict, "D", components) && entry_fits(
        doc,
        dict,
        "Decode",
        components,
    )) {
        Ok(())
    } else {
        Err(FloatImageError::Unsupported)
    }
}

/// A host converts the samples of a pixel in a given way.
pub open spec fn converts<P: Fn(&Vec<u32>) -> Option<Vec<u8>>>(
    pixel: P,
    color: spec_fn(Seq<u32>) -> Option<Seq<u8>>,
) -> bool {
    forall|samples: &Vec<u32>, bytes: Option<Vec<u8>>| #[trigger]
        call_ensures(pixel, (samples,), bytes) ==> match color(samples@) {
            Some(expected) => bytes matches Some(bytes) && bytes@ == expected,
            None => bytes is None,
        }
}

/// A host converts the samples of all pixels.
pub open spec fn converts_all<P: Fn(&Vec<u32>) -> Option<Vec<u8>>>(pixel: P) -> bool {
    forall|samples: &Vec<u32>| call_requires(pixel, (samples,))
}

/// The colors of so many pixels from a pixel on, row by row.
pub open spec fn colors_from(
    context: SampleContext,
    color: spec_fn(Seq<u32>) -> Option<Seq<u8>>,
    start: int,
    count: nat,
) -> Option<Seq<u8>>
    decreases count,
{
    if count == 0 {
        Some(Seq::empty())
    } else {
        let i = start + count - 1;
        match (
            colors_from(context, color, start, (count - 1) as nat),
            color(context.pixel(i / (context.width as int), i % (context.width as int))),
        ) {
            (Some(before), Some(bytes)) => Some(before + bytes),
            _ => None,
        }
    }
}

/// The colors of the first `count` pixels, row by row.
pub open spec fn colors(
    context: SampleContext,
    color: spec_fn(Seq<u32>) -> Option<Seq<u8>>,
    count: nat,
) -> Option<Seq<u8>> {
    colors_from(context, color, 0, count)
}

/// Why there are no colors, before any sample is read.
pub open spec fn refusal(
    context: SampleContext,
    kind: ColorSpaceKind,
    has_alpha: bool,
    jpx: bool,
    component_bytes: usize,
    max_bytes: u64,
) -> Option<FloatImageError> {
    match direct_components(kind) {
        None => Some(FloatImageError::Unsupported),
        Some(components) => if !is_depth(context.bits_per_component, jpx) || context.components
            != components || context.decode@.len() != components || !all_ends_finite(
            context.decode@,
        ) || has_alpha {
            Some(FloatImageError::Unsupported)
        } else {
            match output_size(context.width, context.height, component_bytes, max_bytes) {
                Err(error) => Some(error),
                Ok(_) => if context.row_bits() > u64::MAX || context.required() > u64::MAX {
                    Some(FloatImageError::Limit { requested: u64::MAX })
                } else if context.required() > context.data@.len() {
                    Some(FloatImageError::Decode)
                } else {
                    None
                }
            }
        },
    }
}

proof fn lemma_failed_colors(
    context: SampleContext,
    color: spec_fn(Seq<u32>) -> Option<Seq<u8>>,
    start: int,
    count: nat,
    more: nat,
)
    requires
        count <= more,
        colors_from(context, color, start, count) is None,
    ensures
        colors_from(context, color, start, more) is None,
    decreases more,
{
    if count < more {
        lemma_failed_colors(context, color, start, count, (more - 1) as nat);
    }
}

/// Colors follow each other.
proof fn lemma_colors_continue(
    context: SampleContext,
    color: spec_fn(Seq<u32>) -> Option<Seq<u8>>,
    count: nat,
    more: nat,
)
    ensures
        colors(context, color, count + more) == match (
            colors(context, color, count),
            colors_from(context, color, count as int, more),
        ) {
            (Some(before), Some(bytes)) => Some(before + bytes),
            _ => None,
        },
    decreases more,
{
    if more == 0 {
        match colors(context, color, count) {
            Some(before) => {
                assert(before + Seq::<u8>::empty() =~= before);
            },
            None => {},
        }
    } else {
        let fewer = (more - 1) as nat;
        lemma_colors_continue(context, color, count, fewer);
        let i = count + more - 1;
        let last = color(context.pixel(i / (context.width as int), i % (context.width as int)));
        match (
            colors(context, color, count),
            colors_from(context, color, count as int, fewer),
            last,
        ) {
            (Some(before), Some(bytes), Some(last)) => {
                assert((before + bytes) + last =~= before + (bytes + last));
            },
            _ => {},
        }
    }
}

/// A pixel of an image is not behind its last one.
proof fn lemma_within(row: int, column: int, width: int, height: int)
    requires
        0 <= row,
        0 <= column < width,
    ensures
        row < height <==> row * width + column < width * height,
{
    if row < height {
        assert(row * width + column < width * height) by (nonlinear_arith)
            requires
                row + 1 <= height,
                0 <= column < width,
        ;
    } else {
        assert(row * width + column >= width * height) by (nonlinear_arith)
            requires
                row >= height,
                0 <= column < width,
        ;
    }
}

proof fn lemma_place(row: int, column: int, width: int)
    requires
        0 <= row,
        0 <= column < width,
    ensures
        (row * width + column) / width == row,
        (row * width + column) % width == column,
{
    vstd::arithmetic::div_mod::lemma_fundamental_div_mod_converse(
        row * width + column,
        width,
        row,
        column,
    );
}

/// The colors of an image.
pub open spec fn decoded_colors(
    context: SampleContext,
    color: spec_fn(Seq<u32>) -> Option<Seq<u8>>,
) -> Result<Seq<u8>, FloatImageError> {
    match colors(context, color, (context.width * context.height) as nat) {
        Some(data) => Ok(data),
        None => Err(FloatImageError::Decode),
    }
}

/// The pixels between two looks at whether the host has asked to stop.
pub const CHECKPOINT_PIXELS: u64 = 1024;

/// The pixels that so many blocks hold.
pub open spec fn block_end(total: int, blocks: int) -> int {
    if blocks * CHECKPOINT_PIXELS <= total {
        blocks * CHECKPOINT_PIXELS
    } else {
        total
    }
}

/// How often a host is asked if it always goes on: before every block, and at the end.
pub open spec fn looks_at(total: int) -> int {
    (total + CHECKPOINT_PIXELS - 1) / (CHECKPOINT_PIXELS as int) + 1
}

/// What the conversion of all pixels gives, if these were the answers of the host.
///
/// The host is asked before every block and at the end, and not again once it has refused or a
/// pixel has no color. It has always gone on before its last answer. If that refuses, the
/// conversion is cancelled.
pub open spec fn is_converted(
    context: SampleContext,
    color: spec_fn(Seq<u32>) -> Option<Seq<u8>>,
    asked: Seq<bool>,
    result: Result<Seq<u8>, FloatImageError>,
) -> bool {
    let total = context.width * context.height;
    let before = asked.len() - 1;
    &&& 0 < asked.len() <= looks_at(total)
    &&& forall|i: int| 0 <= i < before ==> #[trigger] asked[i]
    &&& colors(context, color, block_end(total, before) as nat) is Some
    &&& if !asked.last() {
        result == Err::<Seq<u8>, FloatImageError>(FloatImageError::Cancelled)
    } else if asked.len() == looks_at(total) {
        colors(context, color, total as nat) matches Some(data) && result == Ok::<
            Seq<u8>,
            FloatImageError,
        >(data)
    } else {
        &&& colors(context, color, block_end(total, asked.len() as int) as nat) is None
        &&& result == Err::<Seq<u8>, FloatImageError>(FloatImageError::Decode)
    }
}

/// The bytes of a result.
pub open spec fn bytes_of(result: Result<Vec<u8>, FloatImageError>) -> Result<
    Seq<u8>,
    FloatImageError,
> {
    match result {
        Ok(data) => Ok(data@),
        Err(error) => Err(error),
    }
}

/// Where a host always goes on, all pixels are converted, or one of them has no color.
pub proof fn lemma_converted_unless_cancelled(
    context: SampleContext,
    color: spec_fn(Seq<u32>) -> Option<Seq<u8>>,
    asked: Seq<bool>,
    result: Result<Seq<u8>, FloatImageError>,
)
    requires
        is_converted(context, color, asked, result),
    ensures
        result == Err::<Seq<u8>, FloatImageError>(FloatImageError::Cancelled) <==> asked.contains(
            false,
        ),
        result != Err::<Seq<u8>, FloatImageError>(FloatImageError::Cancelled) ==> result
            == decoded_colors(context, color),
        result is Ok ==> asked.len() == looks_at(context.width * context.height),
{
    let total = context.width * context.height;
    assert(0 <= total) by (nonlinear_arith)
        requires
            total == context.width * context.height,
            0 <= context.width,
            0 <= context.height,
    ;
    if !asked.last() {
        assert(asked[asked.len() - 1] == false);
    } else {
        assert(!asked.contains(false));
        if asked.len() < looks_at(total) {
            let end = block_end(total, asked.len() as int);
            lemma_failed_colors(context, color, 0, end as nat, total as nat);
        }
    }
}

/// Where every color has so many bytes, so many pixels have that many times as many.
pub proof fn lemma_colors_length(
    context: SampleContext,
    color: spec_fn(Seq<u32>) -> Option<Seq<u8>>,
    pixel_bytes: nat,
    start: int,
    count: nat,
)
    requires
        forall|samples: Seq<u32>|
            (#[trigger] color(samples)) matches Some(bytes) ==> bytes.len() == pixel_bytes,
    ensures
        colors_from(context, color, start, count) matches Some(data) ==> data.len() == count
            * pixel_bytes,
    decreases count,
{
    if count == 0 {
        assert(count * pixel_bytes == 0) by (nonlinear_arith)
            requires
                count == 0,
        ;
    } else {
        let fewer = (count - 1) as nat;
        lemma_colors_length(context, color, pixel_bytes, start, fewer);
        assert(fewer * pixel_bytes + pixel_bytes == count * pixel_bytes) by (nonlinear_arith)
            requires
                count == fewer + 1,
        ;
    }
}

/// Where every color has three components of so many bytes, an image that is decoded has as many
/// bytes as its pixels ask for, within the limit.
pub proof fn lemma_output_length(
    context: SampleContext,
    kind: ColorSpaceKind,
    has_alpha: bool,
    jpx: bool,
    component_bytes: usize,
    max_bytes: u64,
    color: spec_fn(Seq<u32>) -> Option<Seq<u8>>,
)
    requires
        forall|samples: Seq<u32>|
            (#[trigger] color(samples)) matches Some(bytes) ==> bytes.len() == 3 * component_bytes,
        refusal(context, kind, has_alpha, jpx, component_bytes, max_bytes) is None,
    ensures
        decoded_colors(context, color) matches Ok(data) ==> data.len() == context.width
            * context.height * (3 * component_bytes) <= max_bytes,
{
    let total = context.width * context.height;
    assert(0 <= total) by (nonlinear_arith)
        requires
            total == context.width * context.height,
            0 <= context.width,
            0 <= context.height,
    ;
    lemma_colors_length(context, color, (3 * component_bytes) as nat, 0, total as nat);
}

/// Convert the samples of the next pixels, at most [`CHECKPOINT_PIXELS`] of them.
///
/// `pixel` gives the output of a pixel.
pub fn convert_block<P: Fn(&Vec<u32>) -> Option<Vec<u8>>>(
    samples: &mut Samples,
    pixel: &P,
) -> (block: Option<Vec<u8>>)
    requires
        old(samples).wf(),
        old(samples).index() <= old(samples).context.width * old(samples).context.height,
        converts_all(*pixel),
    ensures
        final(samples).wf(),
        final(samples).context == old(samples).context,
        final(samples).index() <= old(samples).context.width * old(samples).context.height,
        ({
            let start = old(samples).index();
            let context = *old(samples).context;
            let rest = context.width * context.height - start;
            let count = if rest <= CHECKPOINT_PIXELS {
                rest
            } else {
                CHECKPOINT_PIXELS as int
            };
            &&& block is Some ==> final(samples).index() == start + count
            &&& forall|color: spec_fn(Seq<u32>) -> Option<Seq<u8>>| #[trigger]
                converts(*pixel, color) ==> match colors_from(
                    context,
                    color,
                    start,
                    count as nat,
                ) {
                    Some(expected) => block matches Some(block) && block@ == expected,
                    None => block is None,
                }
        }),
{
    let ghost context = *samples.context;
    let ghost start = samples.index();
    let ghost width = context.width as int;
    let ghost height = context.height as int;
    let mut block: Vec<u8> = Vec::new();
    let mut count: u64 = 0;
    while count < CHECKPOINT_PIXELS && samples.row < samples.context.height
        invariant
            count <= CHECKPOINT_PIXELS,
            width == context.width,
            height == context.height,
            width > 0,
            start == old(samples).index(),
            *samples.context == context,
            samples.context == old(samples).context,
            samples.wf(),
            samples.index() == start + count <= width * height,
            converts_all(*pixel),
            forall|color: spec_fn(Seq<u32>) -> Option<Seq<u8>>| #[trigger]
                converts(*pixel, color) ==> colors_from(context, color, start, count as nat)
                    == Some(block@),
        decreases CHECKPOINT_PIXELS - count,
    {
        let ghost row = samples.row as int;
        let ghost column = samples.column as int;
        proof {
            lemma_place(row, column, width);
            lemma_within(row, column, width, height);
        }
        let values = match samples.read() {
            Ok(values) => values,
            Err(_) => {
                assert(false);
                return None;
            },
        };
        match pixel(&values) {
            None => {
                assert forall|color: spec_fn(Seq<u32>) -> Option<Seq<u8>>| #[trigger]
                    converts(*pixel, color) implies forall|more: nat|
                    count < more ==> #[trigger] colors_from(context, color, start, more)
                        is None by {
                    assert(color(values@) is None);
                    assert(colors_from(context, color, start, (count + 1) as nat) is None);
                    assert forall|more: nat| count < more implies #[trigger] colors_from(
                        context,
                        color,
                        start,
                        more,
                    ) is None by {
                        lemma_failed_colors(context, color, start, (count + 1) as nat, more);
                    }
                }
                return None;
            },
            Some(bytes) => {
                append(&mut block, &bytes);
                assert forall|color: spec_fn(Seq<u32>) -> Option<Seq<u8>>| #[trigger]
                    converts(*pixel, color) implies colors_from(
                    context,
                    color,
                    start,
                    (count + 1) as nat,
                ) == Some(block@) by {
                    assert(color(values@) == Some(bytes@));
                }
            },
        }
        count = count + 1;
    }
    proof {
        lemma_within(samples.row as int, samples.column as int, width, height);
    }
    Some(block)
}

/// Convert the samples of all pixels, block by block.
///
/// `pixel` gives the output of a pixel. `checkpoint` is asked before every block and at the end
/// whether to go on.
pub fn convert_samples<C: Fn() -> bool, P: Fn(&Vec<u32>) -> Option<Vec<u8>>>(
    context: &SampleContext,
    checkpoint: &mut Polled<C>,
    pixel: &P,
) -> (result: Result<Vec<u8>, FloatImageError>)
    requires
        context.is_complete() || context.width == 0 || context.height == 0,
        converts_all(*pixel),
    ensures
        is_polled_more(*old(checkpoint), *final(checkpoint)),
        forall|color: spec_fn(Seq<u32>) -> Option<Seq<u8>>| #[trigger]
            converts(*pixel, color) ==> is_converted(
                *context,
                color,
                added(old(checkpoint).answers(), final(checkpoint).answers()),
                bytes_of(result),
            ),
{
    let mut output: Vec<u8> = Vec::new();
    assert(context.width * context.height <= 0xFFFF_FFFF * 0xFFFF_FFFF && 0 <= context.width
        * context.height) by (nonlinear_arith)
        requires
            context.width <= 0xFFFF_FFFF,
            context.height <= 0xFFFF_FFFF,
    ;
    let total: u64 = context.width as u64 * context.height as u64;
    let ghost before = checkpoint.answers();
    if total > 0 {
        let ghost width = context.width as int;
        let ghost height = context.height as int;
        assert(width > 0 && height > 0) by (nonlinear_arith)
            requires
                width * height > 0,
                width >= 0,
                height >= 0,
        ;
        let mut samples = Samples { context, row: 0, column: 0 };
        let mut index: u64 = 0;
        let ghost mut blocks: int = 0;
        assert(samples.index() == 0) by (nonlinear_arith)
            requires
                samples.index() == samples.row * samples.context.width + samples.column,
                samples.row == 0,
                samples.column == 0,
        ;
        while index < total
            invariant
                total == context.width * context.height,
                0 <= blocks,
                index == block_end(total as int, blocks),
                samples.wf(),
                samples.context == context,
                samples.index() == index,
                before == old(checkpoint).answers(),
                is_polled_more(*old(checkpoint), *checkpoint),
                checkpoint.answers().len() == before.len() + blocks,
                blocks < looks_at(total as int),
                forall|i: int|
                    before.len() <= i < checkpoint.answers().len() ==> #[trigger]
                        checkpoint.answers()[i],
                converts_all(*pixel),
                forall|color: spec_fn(Seq<u32>) -> Option<Seq<u8>>| #[trigger]
                    converts(*pixel, color) ==> colors(*context, color, index as nat) == Some(
                        output@,
                    ),
            ensures
                index == total,
                blocks + 1 == looks_at(total as int),
            decreases total - index,
        {
            if !checkpoint.poll() {
                return Err(FloatImageError::Cancelled);
            }
            let ghost converted = output@;
            let ghost more = block_end(total as int, blocks + 1) - index;
            proof {
                assert forall|color: spec_fn(Seq<u32>) -> Option<Seq<u8>>| #[trigger]
                    converts(*pixel, color) implies colors(*context, color, (index + more) as nat)
                    == match colors_from(*context, color, index as int, more as nat) {
                    Some(bytes) => Some(converted + bytes),
                    None => None,
                } by {
                    lemma_colors_continue(*context, color, index as nat, more as nat);
                }
            }
            match convert_block(&mut samples, pixel) {
                None => {
                    return Err(FloatImageError::Decode);
                },
                Some(block) => {
                    append(&mut output, &block);
                },
            }
            index = if total - index <= CHECKPOINT_PIXELS {
                total
            } else {
                index + CHECKPOINT_PIXELS
            };
            proof {
                blocks = blocks + 1;
            }
        }
    }
    if !checkpoint.poll() {
        return Err(FloatImageError::Cancelled);
    }
    Ok(output)
}

/// What decoding the colors of an image gives, if these were the answers of the host. It is not
/// asked if the image is refused.
pub open spec fn is_context_decoded(
    context: SampleContext,
    refused: Option<FloatImageError>,
    color: spec_fn(Seq<u32>) -> Option<Seq<u8>>,
    asked: Seq<bool>,
    result: Result<Seq<u8>, FloatImageError>,
) -> bool {
    match refused {
        Some(error) => asked.len() == 0 && result == Err::<Seq<u8>, FloatImageError>(error),
        None => is_converted(context, color, asked, result),
    }
}

/// Decode the colors of an image with native components.
///
/// Incomplete samples never become padded colors.
pub fn decode_context_rgb<C: Fn() -> bool, P: Fn(&Vec<u32>) -> Option<Vec<u8>>>(
    context: &SampleContext,
    kind: ColorSpaceKind,
    has_alpha: bool,
    jpx: bool,
    component_bytes: usize,
    max_bytes: u64,
    checkpoint: &mut Polled<C>,
    pixel: &P,
) -> (result: Result<Vec<u8>, FloatImageError>)
    requires
        converts_all(*pixel),
    ensures
        is_polled_more(*old(checkpoint), *final(checkpoint)),
        forall|color: spec_fn(Seq<u32>) -> Option<Seq<u8>>| #[trigger]
            converts(*pixel, color) ==> is_context_decoded(
                *context,
                refusal(*context, kind, has_alpha, jpx, component_bytes, max_bytes),
                color,
                added(old(checkpoint).answers(), final(checkpoint).answers()),
                bytes_of(result),
            ),
        refusal(*context, kind, has_alpha, jpx, component_bytes, max_bytes) matches Some(error)
            ==> bytes_of(result) == Err::<Seq<u8>, FloatImageError>(error),
{
    let components: usize = match components_of(kind) {
        None => {
            return Err(FloatImageError::Unsupported);
        },
        Some(components) => components,
    };
    if !can_be_depth(context.bits_per_component, jpx) || context.components != components
        || context.decode.len() != components || !are_ends_finite(&context.decode) || has_alpha {
        return Err(FloatImageError::Unsupported);
    }
    match output_bytes(context.width, context.height, component_bytes, max_bytes) {
        Err(error) => {
            return Err(error);
        },
        Ok(_) => {},
    }
    let required: u64 = match required_bytes(
        context.width,
        context.height,
        context.components,
        context.bits_per_component,
    ) {
        Some(required) => required,
        None => {
            return Err(FloatImageError::Limit { requested: u64::MAX });
        },
    };
    if required > context.data.len() as u64 {
        return Err(FloatImageError::Decode);
    }
    convert_samples(context, checkpoint, pixel)
}

/// What an image has besides its samples.
#[derive(Clone, Copy, Debug, PartialEq, Eq, Structural)]
pub struct ImageFacts {
    /// Whether it is an image, and not a mask.
    pub is_image: bool,
    pub color_space: Option<ColorSpaceKind>,
    pub has_transfer_function: bool,
    pub width: u32,
    pub height: u32,
}

/// Why an image has no colors in full precision, before it is decoded.
pub open spec fn float_refusal(
    doc: Document,
    dict: Dict,
    facts: ImageFacts,
    has_embedded_alpha: bool,
    component_bytes: usize,
    max_bytes: u64,
) -> Option<FloatImageError> {
    match facts.color_space {
        None => Some(FloatImageError::Unsupported),
        Some(kind) => match direct_components(kind) {
            None => Some(FloatImageError::Unsupported),
            Some(components) => if !facts.is_image || facts.has_transfer_function || dict.has(
                "Mask"@,
            ) || dict.has("SMask"@) || has_embedded_alpha || !decode_fits(doc, dict, components) {
                Some(FloatImageError::Unsupported)
            } else {
                match output_size(facts.width, facts.height, component_bytes, max_bytes) {
                    Err(error) => Some(error),
                    Ok(_) => None,
                }
            },
        },
    }
}

/// Check whether the colors of an image can be decoded in full precision.
///
/// The number of components follows.
pub fn float_components(
    doc: &Document,
    dict: &Dict,
    facts: ImageFacts,
    has_embedded_alpha: bool,
    component_bytes: usize,
    max_bytes: u64,
) -> (result: Result<usize, FloatImageError>)
    ensures
        match float_refusal(*doc, *dict, facts, has_embedded_alpha, component_bytes, max_bytes) {
            Some(error) => result == Err::<usize, FloatImageError>(error),
            None => {
                &&& result matches Ok(components)
                &&& facts.color_space matches Some(kind)
                &&& direct_components(kind) == Some(components)
            },
        },
{
    let components: usize = match facts.color_space {
        None => {
            return Err(FloatImageError::Unsupported);
        },
        Some(kind) => match components_of(kind) {
            None => {
                return Err(FloatImageError::Unsupported);
            },
            Some(components) => components,
        },
    };
    if !facts.is_image || facts.has_transfer_function || dict.contains_key("Mask")
        || dict.contains_key("SMask") || has_embedded_alpha {
        return Err(FloatImageError::Unsupported);
    }
    match validate_decode(doc, dict, components) {
        Err(error) => {
            return Err(error);
        },
        Ok(()) => {},
    }
    match output_bytes(facts.width, facts.height, component_bytes, max_bytes) {
        Err(error) => Err(error),
        Ok(_) => Ok(components),
    }
}

/// Decoded colors of an image.
#[derive(Debug)]
pub struct DecodedFloat {
    pub data: Vec<u8>,
    pub context: SampleContext,
}

/// The bytes of a result.
pub open spec fn decoded_bytes(result: Result<DecodedFloat, FloatImageError>) -> Result<
    Seq<u8>,
    FloatImageError,
> {
    match result {
        Ok(decoded) => Ok(decoded.data@),
        Err(error) => Err(error),
    }
}

/// What decoding an image gives behind its opening, if these were the answers of the host: it is
/// asked once the samples are there.
pub open spec fn is_opened_decoded(
    opened: Option<(SampleContext, bool)>,
    kind: ColorSpaceKind,
    jpx: bool,
    component_bytes: usize,
    max_bytes: u64,
    color: spec_fn(Seq<u32>) -> Option<Seq<u8>>,
    asked: Seq<bool>,
    result: Result<Seq<u8>, FloatImageError>,
) -> bool {
    match opened {
        None => asked.len() == 0 && result == Err::<Seq<u8>, FloatImageError>(
            FloatImageError::Decode,
        ),
        Some((context, has_alpha)) => {
            &&& asked.len() > 0
            &&& if !asked[0] {
                asked.len() == 1 && result == Err::<Seq<u8>, FloatImageError>(
                    FloatImageError::Cancelled,
                )
            } else if direct_components(kind) != Some(context.components) {
                asked.len() == 1 && result == Err::<Seq<u8>, FloatImageError>(
                    FloatImageError::Unsupported,
                )
            } else {
                is_context_decoded(
                    context,
                    refusal(context, kind, has_alpha, jpx, component_bytes, max_bytes),
                    color,
                    asked.skip(1),
                    result,
                )
            }
        },
    }
}

/// Decode the colors of an image in full precision.
///
/// `open` decodes the samples; whether they come with an opacity channel is told with them.
pub fn decode_rgb<
    O: Fn() -> Option<(SampleContext, bool)>,
    C: Fn() -> bool,
    P: Fn(&Vec<u32>) -> Option<Vec<u8>>,
>(
    doc: &Document,
    dict: &Dict,
    facts: ImageFacts,
    has_embedded_alpha: bool,
    component_bytes: usize,
    max_bytes: u64,
    open: &O,
    checkpoint: &mut Polled<C>,
    pixel: &P,
) -> (result: Result<DecodedFloat, FloatImageError>)
    requires
        call_requires(*open, ()),
        converts_all(*pixel),
    ensures
        is_polled_more(*old(checkpoint), *final(checkpoint)),
        ({
            let asked = added(old(checkpoint).answers(), final(checkpoint).answers());
            &&& asked.len() > 0
            &&& if !asked[0] {
                asked.len() == 1 && result == Err::<DecodedFloat, FloatImageError>(
                    FloatImageError::Cancelled,
                )
            } else {
                match float_refusal(
                    *doc,
                    *dict,
                    facts,
                    has_embedded_alpha,
                    component_bytes,
                    max_bytes,
                ) {
                    Some(error) => asked.len() == 1 && result == Err::<
                        DecodedFloat,
                        FloatImageError,
                    >(error),
                    None => exists|opened: Option<(SampleContext, bool)>|
                        {
                            &&& #[trigger] call_ensures(*open, (), opened)
                            &&& result matches Ok(decoded) ==> opened matches Some((context, _))
                                && decoded.context == context
                            &&& forall|color: spec_fn(Seq<u32>) -> Option<Seq<u8>>| #[trigger]
                                converts(*pixel, color) ==> is_opened_decoded(
                                    opened,
                                    facts.color_space->0,
                                    uses_jpx(*doc, *dict),
                                    component_bytes,
                                    max_bytes,
                                    color,
                                    asked.skip(1),
                                    decoded_bytes(result),
                                )
                        },
                }
            }
        }),
{
    if !checkpoint.poll() {
        return Err(FloatImageError::Cancelled);
    }
    let components: usize = match float_components(
        doc,
        dict,
        facts,
        has_embedded_alpha,
        component_bytes,
        max_bytes,
    ) {
        Err(error) => {
            return Err(error);
        },
        Ok(components) => components,
    };
    let kind = match facts.color_space {
        Some(kind) => kind,
        None => {
            return Err(FloatImageError::Unsupported);
        },
    };
    let opened = open();
    let ghost given = opened;
    assert(call_ensures(*open, (), given));
    let (context, has_alpha) = match opened {
        None => {
            return Err(FloatImageError::Decode);
        },
        Some(opened) => opened,
    };
    if !checkpoint.poll() {
        return Err(FloatImageError::Cancelled);
    }
    if context.components != components {
        return Err(FloatImageError::Unsupported);
    }
    let jpx = uses_jpx_decode(doc, dict);
    let ghost between = *checkpoint;
    let decoded = decode_context_rgb(
        &context,
        kind,
        has_alpha,
        jpx,
        component_bytes,
        max_bytes,
        checkpoint,
        pixel,
    );
    proof {
        let before = old(checkpoint).answers();
        let asked = added(before, checkpoint.answers());
        assert(between.answers() =~= before.push(true).push(true));
        assert forall|i: int| 0 <= i < between.answers().len() implies checkpoint.answers()[i]
            == #[trigger] between.answers()[i] by {}
        assert(asked.skip(1).skip(1) =~= added(between.answers(), checkpoint.answers()));
        assert(asked[0] == between.answers()[before.len() as int]);
        assert(asked.skip(1)[0] == between.answers()[before.len() as int + 1]);
    }
    match decoded {
        Err(error) => Err(error),
        Ok(data) => Ok(DecodedFloat { data, context }),
    }
}

} // verus!
