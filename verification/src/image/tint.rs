//! Keeping sampled inputs through their decode map before they are converted.

use crate::function::numeric::Interval;
use crate::function::single::{magnitude, rank, rank_of};
use crate::image::dictionary::{uses_jpx, uses_jpx_decode};
use crate::image::output::{
    decodes_all_samples, decodes_samples, full_batch, has_output, output_after, ColorOutput,
    ColorTarget, Conversion, Conversions, OutputModel, OutputSpace,
};
use crate::image::rgb::{decode_fits, validate_decode};
use crate::image::samples::{SampleContext, Samples};
use crate::object::{Dict, Document};
use vstd::prelude::*;

verus! {

/// Two numbers are equal.
pub open spec fn same_number(a: u32, b: u32) -> bool {
    magnitude(a) <= 0x7F80_0000 && magnitude(b) <= 0x7F80_0000 && rank(a) == rank(b)
}

fn is_same_number(a: u32, b: u32) -> (result: bool)
    ensures
        result == same_number(a, b),
{
    a % 0x8000_0000 <= 0x7F80_0000 && b % 0x8000_0000 <= 0x7F80_0000 && rank_of(a) == rank_of(b)
}

/// An interval goes from one number to another.
pub open spec fn goes(interval: Interval, from: u32, to: u32) -> bool {
    same_number(interval.low, from) && same_number(interval.high, to)
}

/// Intervals are the given ones, as they are or with all ends exchanged.
pub open spec fn all_same(intervals: Seq<Interval>, ranges: Seq<Interval>, inverted: bool) -> bool {
    &&& intervals.len() == ranges.len()
    &&& forall|i: int|
        0 <= i < intervals.len() ==> #[trigger] is_same_at(intervals, ranges, inverted, i)
}

/// The interval at a place is the given one, as it is or with its ends exchanged.
pub open spec fn is_same_at(
    intervals: Seq<Interval>,
    ranges: Seq<Interval>,
    inverted: bool,
    i: int,
) -> bool {
    if inverted {
        goes(intervals[i], ranges[i].high, ranges[i].low)
    } else {
        goes(intervals[i], ranges[i].low, ranges[i].high)
    }
}

/// Whether intervals are the given ones, as they are or with all ends exchanged.
pub fn are_same(intervals: &Vec<Interval>, ranges: &Vec<Interval>, inverted: bool) -> (result: bool)
    ensures
        result == all_same(intervals@, ranges@, inverted),
{
    if intervals.len() != ranges.len() {
        return false;
    }
    let mut i: usize = 0;
    while i < intervals.len()
        invariant
            i <= intervals@.len() == ranges@.len(),
            forall|k: int|
                0 <= k < i ==> #[trigger] is_same_at(intervals@, ranges@, inverted, k),
        decreases intervals@.len() - i,
    {
        let interval = intervals[i];
        let range = ranges[i];
        let same = if inverted {
            is_same_number(interval.low, range.high) && is_same_number(interval.high, range.low)
        } else {
            is_same_number(interval.low, range.low) && is_same_number(interval.high, range.high)
        };
        if !same {
            assert(!is_same_at(intervals@, ranges@, inverted, i as int));
            return false;
        }
        i = i + 1;
    }
    true
}

/// How byte samples are components already: as they are, or inverted.
///
/// `defaults` are the default decode maps of palette indices.
pub open spec fn direct_inversion(
    bits: u8,
    decode: Seq<Interval>,
    ranges: Seq<Interval>,
    defaults: Option<Seq<Interval>>,
) -> Option<bool> {
    if bits != 8 {
        None
    } else if all_same(decode, ranges, false) || (defaults matches Some(defaults) && all_same(
        decode,
        defaults,
        false,
    )) {
        Some(false)
    } else if all_same(decode, ranges, true) || (defaults matches Some(defaults) && all_same(
        decode,
        defaults,
        true,
    )) {
        Some(true)
    } else {
        None
    }
}

/// Optional intervals with sequences.
pub open spec fn optional_intervals(intervals: Option<&Vec<Interval>>) -> Option<Seq<Interval>> {
    match intervals {
        Some(intervals) => Some(intervals@),
        None => None,
    }
}

/// How byte samples are components already: as they are, or inverted.
pub fn direct_invert(
    bits: u8,
    decode: &Vec<Interval>,
    ranges: &Vec<Interval>,
    defaults: Option<&Vec<Interval>>,
) -> (result: Option<bool>)
    ensures
        result == direct_inversion(bits, decode@, ranges@, optional_intervals(defaults)),
{
    if bits != 8 {
        return None;
    }
    let plain = match defaults {
        Some(defaults) => are_same(decode, defaults, false),
        None => false,
    };
    if are_same(decode, ranges, false) || plain {
        return Some(false);
    }
    let inverted = match defaults {
        Some(defaults) => are_same(decode, defaults, true),
        None => false,
    };
    if are_same(decode, ranges, true) || inverted {
        return Some(true);
    }
    None
}

/// Samples, or samples inverted.
pub open spec fn inverted_bytes(data: Seq<u8>) -> Seq<u8> {
    Seq::new(data.len(), |i: int| (255 - data[i]) as u8)
}

/// Invert samples.
pub fn invert(data: &mut Vec<u8>)
    ensures
        final(data)@ == inverted_bytes(old(data)@),
{
    let mut i: usize = 0;
    let count: usize = data.len();
    while i < count
        invariant
            i <= count == data@.len() == old(data)@.len(),
            forall|k: int| 0 <= k < i ==> #[trigger] data@[k] == 255 - old(data)@[k],
            forall|k: int| i <= k < count ==> #[trigger] data@[k] == old(data)@[k],
        decreases count - i,
    {
        let value: u8 = data[i];
        data.set(i, 255 - value);
        i = i + 1;
    }
    assert(data@ =~= inverted_bytes(old(data)@));
}

/// Inverting twice changes nothing.
pub proof fn lemma_inverted_twice(data: Seq<u8>)
    ensures
        inverted_bytes(inverted_bytes(data)) == data,
{
    assert(inverted_bytes(inverted_bytes(data)) =~= data);
}

/// A component is mapped to its range, or to the range with its ends exchanged.
pub open spec fn is_plain_map(decode: Seq<Interval>, ranges: Seq<Interval>, i: int) -> bool {
    goes(decode[i], ranges[i].low, ranges[i].high) || goes(
        decode[i],
        ranges[i].high,
        ranges[i].low,
    )
}

/// Samples do not lead to byte inputs.
///
/// Lookups by bytes are exact for samples of up to eight bits that are mapped to their ranges.
/// Other maps or more bits need the inputs themselves.
pub open spec fn needs_native(bits: u8, decode: Seq<Interval>, ranges: Seq<Interval>) -> bool {
    ||| !(bits == 1 || bits == 2 || bits == 4 || bits == 8)
    ||| decode.len() != ranges.len()
    ||| exists|i: int| 0 <= i < decode.len() && !#[trigger] is_plain_map(decode, ranges, i)
}

/// Whether samples do not lead to byte inputs.
///
/// `ranges` are the default decode maps of palette indices, or the ranges of components.
pub fn needs_native_samples(bits: u8, decode: &Vec<Interval>, ranges: &Vec<Interval>) -> (result:
    bool)
    ensures
        result == needs_native(bits, decode@, ranges@),
{
    if !(bits == 1 || bits == 2 || bits == 4 || bits == 8) || decode.len() != ranges.len() {
        return true;
    }
    let mut i: usize = 0;
    while i < decode.len()
        invariant
            i <= decode@.len() == ranges@.len(),
            forall|k: int| 0 <= k < i ==> #[trigger] is_plain_map(decode@, ranges@, k),
        decreases decode@.len() - i,
    {
        let map = decode[i];
        let range = ranges[i];
        let plain = (is_same_number(map.low, range.low) && is_same_number(map.high, range.high))
            || (is_same_number(map.low, range.high) && is_same_number(map.high, range.low));
        if !plain {
            assert(!is_plain_map(decode@, ranges@, i as int));
            return true;
        }
        i = i + 1;
    }
    false
}

/// The output before any color.
pub open spec fn empty_output(
    space: OutputSpace,
    count: usize,
    target: ColorTarget,
    keeps_tints: bool,
) -> OutputModel {
    OutputModel {
        space,
        target,
        data: Seq::empty(),
        batch: Seq::empty(),
        native_batch: Seq::empty(),
        batch_length: full_batch(space, count),
        remaining: count as int,
        byte_tints: if keeps_tints {
            Seq::new(256, |i: int| None::<[u8; 4]>)
        } else {
            Seq::empty()
        },
    }
}

/// An image can be put out.
pub open spec fn can_be_put_out(
    doc: Document,
    dict: Dict,
    context: SampleContext,
    space: OutputSpace,
    target: ColorTarget,
) -> bool {
    &&& decode_fits(doc, dict, context.components)
    &&& context.width * context.height <= usize::MAX
    &&& context.error(uses_jpx(doc, dict)) is None
    &&& has_output(space, (context.width * context.height) as usize, target)
}

/// Put out the colors of all pixels of an image.
///
/// `ranges` are the default decode maps of palette indices, or the ranges of components.
pub fn decode_output<
    D: Fn(&Vec<u32>) -> Vec<u64>,
    T: Fn(u64) -> u8,
    A: Fn(&Vec<u64>) -> Option<[u8; 4]>,
    I: Fn(&Vec<u64>) -> Option<Vec<u64>>,
    J: Fn(&Vec<u64>) -> Option<Vec<u8>>,
    N: Fn(&Vec<u64>) -> Option<[u8; 3]>,
    E: Fn(&Vec<u64>) -> Vec<u8>,
    C: Fn(&Vec<u8>) -> Option<Vec<u8>>,
>(
    doc: &Document,
    dict: &Dict,
    context: &SampleContext,
    space: OutputSpace,
    ranges: &Vec<Interval>,
    target: ColorTarget,
    decode: &D,
    conversion: &Conversion<T, A, I, J, N, E, C>,
) -> (result: Option<ColorOutput>)
    requires
        space.components == context.components,
        decodes_all_samples(*decode),
        conversion.is_total(),
    ensures
        result matches Some(output) ==> output.wf(),
        !can_be_put_out(*doc, *dict, *context, space, target) ==> result is None,
        forall|decoded: spec_fn(Seq<u32>) -> Seq<u64>, to: Conversions|
            #[trigger] decodes_samples(*decode, decoded) && #[trigger] conversion.gives(to)
                && can_be_put_out(*doc, *dict, *context, space, target) ==> match output_after(
                empty_output(
                    space,
                    (context.width * context.height) as usize,
                    target,
                    target == ColorTarget::Cmyk && context.components == 1 && !needs_native(
                        context.bits_per_component,
                        context.decode@,
                        ranges@,
                    ),
                ),
                *context,
                decoded,
                to,
                (context.width * context.height) as nat,
            ) {
                Some(expected) => result matches Some(output) && output@ == expected,
                None => result is None,
            },
{
    if validate_decode(doc, dict, context.components).is_err() {
        return None;
    }
    assert(context.width * context.height <= 0xFFFF_FFFF * 0xFFFF_FFFF && 0 <= context.width
        * context.height) by (nonlinear_arith)
        requires
            context.width <= 0xFFFF_FFFF,
            context.height <= 0xFFFF_FFFF,
    ;
    let count: u64 = context.width as u64 * context.height as u64;
    if count > usize::MAX as u64 {
        return None;
    }
    if Samples::new(context, uses_jpx_decode(doc, dict)).is_err() {
        return None;
    }
    let mut output = match ColorOutput::with_target(space, count as usize, target) {
        Some(output) => output,
        None => {
            return None;
        },
    };
    if target == ColorTarget::Cmyk && context.components == 1 && !needs_native_samples(
        context.bits_per_component,
        &context.decode,
        ranges,
    ) {
        let kept = output.cache_byte_tints();
        assert(kept is Some);
    }
    match output.fill(context, decode, conversion) {
        None => None,
        Some(()) => Some(output),
    }
}

} // verus!
