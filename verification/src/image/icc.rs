//! Conversion of images by a profile, without an intermediate quantizer.

use crate::image::rgb::bytes_of;
use crate::image::samples::{FloatImageError, SampleContext, Samples};
use crate::list::append;
use crate::polled::{added, is_polled_more, Polled};
use vstd::prelude::*;

verus! {

/// The greatest number of pixels that are converted at once.
pub const BATCH_PIXELS: u64 = 1024;

/// A host maps samples to components of a profile in a given way.
pub open spec fn maps_samples<M: Fn(&Vec<u32>) -> Option<Vec<u64>>>(
    map: M,
    mapped: spec_fn(Seq<u32>) -> Option<Seq<u64>>,
) -> bool {
    forall|samples: &Vec<u32>, values: Option<Vec<u64>>| #[trigger]
        call_ensures(map, (samples,), values) ==> match mapped(samples@) {
            Some(expected) => values matches Some(values) && values@ == expected,
            None => values is None,
        }
}

/// A host maps all samples to components of a profile.
pub open spec fn maps_all_samples<M: Fn(&Vec<u32>) -> Option<Vec<u64>>>(map: M) -> bool {
    forall|samples: &Vec<u32>| call_requires(map, (samples,))
}

/// A host converts components in a given way.
pub open spec fn profiles<C: Fn(&Vec<u64>) -> Option<Vec<u8>>>(
    convert: C,
    converted: spec_fn(Seq<u64>) -> Option<Seq<u8>>,
) -> bool {
    forall|values: &Vec<u64>, bytes: Option<Vec<u8>>| #[trigger]
        call_ensures(convert, (values,), bytes) ==> match converted(values@) {
            Some(expected) => bytes matches Some(bytes) && bytes@ == expected,
            None => bytes is None,
        }
}

/// A host converts all components.
pub open spec fn profiles_all<C: Fn(&Vec<u64>) -> Option<Vec<u8>>>(convert: C) -> bool {
    forall|values: &Vec<u64>| call_requires(convert, (values,))
}

/// The components of so many pixels from a pixel on, if each has the components of the profile.
pub open spec fn batch_of(
    context: SampleContext,
    components: usize,
    mapped: spec_fn(Seq<u32>) -> Option<Seq<u64>>,
    start: int,
    count: nat,
) -> Option<Seq<u64>>
    decreases count,
{
    if count == 0 {
        Some(Seq::empty())
    } else {
        let i = start + count - 1;
        let width = context.width as int;
        match (
            batch_of(context, components, mapped, start, (count - 1) as nat),
            mapped(context.pixel(i / width, i % width)),
        ) {
            (Some(before), Some(values)) => if values.len() == components {
                Some(before + values)
            } else {
                None
            },
            _ => None,
        }
    }
}

/// The pixels of the next batch.
pub open spec fn batch_count(start: int, total: int) -> int {
    if total - start <= BATCH_PIXELS {
        total - start
    } else {
        BATCH_PIXELS as int
    }
}

/// The colors of all pixels from a pixel on, converted batch by batch.
pub open spec fn profile_colors(
    context: SampleContext,
    components: usize,
    mapped: spec_fn(Seq<u32>) -> Option<Seq<u64>>,
    converted: spec_fn(Seq<u64>) -> Option<Seq<u8>>,
    start: int,
    total: int,
) -> Option<Seq<u8>>
    decreases total - start,
{
    if start >= total {
        Some(Seq::empty())
    } else {
        let count = batch_count(start, total);
        match batch_of(context, components, mapped, start, count as nat) {
            None => None,
            Some(batch) => match converted(batch) {
                None => None,
                Some(bytes) => match profile_colors(
                    context,
                    components,
                    mapped,
                    converted,
                    start + count,
                    total,
                ) {
                    None => None,
                    Some(rest) => Some(bytes + rest),
                },
            },
        }
    }
}

proof fn lemma_failed_batch(
    context: SampleContext,
    components: usize,
    mapped: spec_fn(Seq<u32>) -> Option<Seq<u64>>,
    start: int,
    count: nat,
    more: nat,
)
    requires
        count <= more,
        batch_of(context, components, mapped, start, count) is None,
    ensures
        batch_of(context, components, mapped, start, more) is None,
    decreases more,
{
    if count < more {
        lemma_failed_batch(context, components, mapped, start, count, (more - 1) as nat);
    }
}

/// The colors of the next batch.
pub open spec fn batch_colors(
    context: SampleContext,
    components: usize,
    mapped: spec_fn(Seq<u32>) -> Option<Seq<u64>>,
    converted: spec_fn(Seq<u64>) -> Option<Seq<u8>>,
    start: int,
    total: int,
) -> Option<Seq<u8>> {
    match batch_of(
        context,
        components,
        mapped,
        start,
        batch_count(start, total) as nat,
    ) {
        Some(batch) => converted(batch),
        None => None,
    }
}

/// How often a host is asked if it always goes on: before every batch, and at the end.
pub open spec fn batch_looks(total: int) -> int {
    (total + BATCH_PIXELS - 1) / (BATCH_PIXELS as int) + 1
}

/// What the conversion of all batches gives, if these were the answers of the host.
///
/// The host is asked before every batch and at the end, and not again once it has refused or a
/// batch has no colors. It has always gone on before its last answer. If that refuses, the
/// conversion is cancelled.
pub open spec fn is_profiled(
    context: SampleContext,
    components: usize,
    mapped: spec_fn(Seq<u32>) -> Option<Seq<u64>>,
    converted: spec_fn(Seq<u64>) -> Option<Seq<u8>>,
    asked: Seq<bool>,
    result: Result<Seq<u8>, FloatImageError>,
) -> bool {
    let total = context.width * context.height;
    let before = asked.len() - 1;
    &&& 0 < asked.len() <= batch_looks(total)
    &&& forall|i: int| 0 <= i < before ==> #[trigger] asked[i]
    &&& forall|i: int|
        0 <= i < before ==> #[trigger] batch_colors(
            context,
            components,
            mapped,
            converted,
            i * BATCH_PIXELS,
            total,
        ) is Some
    &&& if !asked.last() {
        result == Err::<Seq<u8>, FloatImageError>(FloatImageError::Cancelled)
    } else if asked.len() == batch_looks(total) {
        profile_colors(context, components, mapped, converted, 0, total) matches Some(data)
            && result == Ok::<Seq<u8>, FloatImageError>(data)
    } else {
        &&& batch_colors(
            context,
            components,
            mapped,
            converted,
            before * BATCH_PIXELS,
            total,
        ) is None
        &&& result == Err::<Seq<u8>, FloatImageError>(FloatImageError::Decode)
    }
}

/// Without one of its batches an image has no colors.
proof fn lemma_failed_profile(
    context: SampleContext,
    components: usize,
    mapped: spec_fn(Seq<u32>) -> Option<Seq<u64>>,
    converted: spec_fn(Seq<u64>) -> Option<Seq<u8>>,
    start: int,
    batches: int,
    total: int,
)
    requires
        0 <= batches,
        start + batches * BATCH_PIXELS < total,
        batch_colors(
            context,
            components,
            mapped,
            converted,
            start + batches * BATCH_PIXELS,
            total,
        ) is None,
    ensures
        profile_colors(context, components, mapped, converted, start, total) is None,
    decreases batches,
{
    if batches > 0 {
        lemma_failed_profile(
            context,
            components,
            mapped,
            converted,
            start + BATCH_PIXELS,
            batches - 1,
            total,
        );
    }
}

/// Where a host always goes on, all batches are converted, or one of them has no colors.
pub proof fn lemma_profiled_unless_cancelled(
    context: SampleContext,
    components: usize,
    mapped: spec_fn(Seq<u32>) -> Option<Seq<u64>>,
    converted: spec_fn(Seq<u64>) -> Option<Seq<u8>>,
    asked: Seq<bool>,
    result: Result<Seq<u8>, FloatImageError>,
)
    requires
        is_profiled(context, components, mapped, converted, asked, result),
    ensures
        result == Err::<Seq<u8>, FloatImageError>(FloatImageError::Cancelled) <==> asked.contains(
            false,
        ),
        result != Err::<Seq<u8>, FloatImageError>(FloatImageError::Cancelled) ==> result
            == match profile_colors(
            context,
            components,
            mapped,
            converted,
            0,
            context.width * context.height,
        ) {
            Some(data) => Ok::<Seq<u8>, FloatImageError>(data),
            None => Err::<Seq<u8>, FloatImageError>(FloatImageError::Decode),
        },
        result is Ok ==> asked.len() == batch_looks(context.width * context.height),
{
    let total = context.width * context.height;
    if !asked.last() {
        assert(asked[asked.len() - 1] == false);
    } else {
        assert(!asked.contains(false));
        if asked.len() < batch_looks(total) {
            lemma_failed_profile(
                context,
                components,
                mapped,
                converted,
                0,
                asked.len() - 1,
                total,
            );
        }
    }
}

proof fn lemma_batch_length(
    context: SampleContext,
    components: usize,
    mapped: spec_fn(Seq<u32>) -> Option<Seq<u64>>,
    start: int,
    count: nat,
)
    ensures
        batch_of(context, components, mapped, start, count) matches Some(batch) ==> batch.len()
            == count * components,
    decreases count,
{
    if count == 0 {
        assert(count * components == 0) by (nonlinear_arith)
            requires
                count == 0,
        ;
    } else {
        let fewer = (count - 1) as nat;
        lemma_batch_length(context, components, mapped, start, fewer);
        assert(fewer * components + components == count * components) by (nonlinear_arith)
            requires
                count == fewer + 1,
        ;
    }
}

/// Where the colors of components have so many bytes for each pixel, all pixels from a pixel on
/// have that many times as many.
pub proof fn lemma_profile_length(
    context: SampleContext,
    components: usize,
    mapped: spec_fn(Seq<u32>) -> Option<Seq<u64>>,
    converted: spec_fn(Seq<u64>) -> Option<Seq<u8>>,
    pixel_bytes: nat,
    start: int,
    total: int,
)
    requires
        start <= total,
        components > 0,
        forall|values: Seq<u64>|
            (#[trigger] converted(values)) matches Some(bytes) ==> bytes.len() * components
                == values.len() * pixel_bytes,
    ensures
        profile_colors(context, components, mapped, converted, start, total) matches Some(data)
            ==> data.len() == (total - start) * pixel_bytes,
    decreases total - start,
{
    if start == total {
        assert((total - start) * pixel_bytes == 0) by (nonlinear_arith)
            requires
                start == total,
        ;
    } else {
        let count = batch_count(start, total);
        lemma_batch_length(context, components, mapped, start, count as nat);
        lemma_profile_length(
            context,
            components,
            mapped,
            converted,
            pixel_bytes,
            start + count,
            total,
        );
        match batch_colors(context, components, mapped, converted, start, total) {
            Some(bytes) => {
                let length = bytes.len();
                assert(length == count * pixel_bytes) by (nonlinear_arith)
                    requires
                        length * components == count * components * pixel_bytes,
                        components > 0,
                ;
            },
            None => {},
        }
        assert(count * pixel_bytes + (total - (start + count)) * pixel_bytes == (total - start)
            * pixel_bytes) by (nonlinear_arith);
    }
}

/// The rest of the colors follows what has been put out.
pub open spec fn continues(
    output: Seq<u8>,
    rest: Option<Seq<u8>>,
    all: Option<Seq<u8>>,
) -> bool {
    all == match rest {
        Some(rest) => Some(output + rest),
        None => None,
    }
}

/// Read the components of a batch of pixels.
fn read_batch<M: Fn(&Vec<u32>) -> Option<Vec<u64>>>(
    samples: &mut Samples,
    components: usize,
    count: u64,
    map: &M,
) -> (batch: Option<Vec<u64>>)
    requires
        old(samples).wf(),
        old(samples).index() + count <= old(samples).context.width * old(samples).context.height,
        maps_all_samples(*map),
    ensures
        final(samples).wf(),
        final(samples).context == old(samples).context,
        batch is Some ==> final(samples).index() == old(samples).index() + count,
        forall|mapped: spec_fn(Seq<u32>) -> Option<Seq<u64>>| #[trigger]
            maps_samples(*map, mapped) ==> match batch_of(
                *old(samples).context,
                components,
                mapped,
                old(samples).index(),
                count as nat,
            ) {
                Some(expected) => batch matches Some(batch) && batch@ == expected,
                None => batch is None,
            },
{
    let ghost context = *samples.context;
    let ghost start = samples.index();
    let ghost width = context.width as int;
    let ghost height = context.height as int;
    let mut batch: Vec<u64> = Vec::new();
    let mut i: u64 = 0;
    while i < count
        invariant
            i <= count,
            width == context.width,
            height == context.height,
            width > 0,
            start == old(samples).index(),
            start + count <= width * height,
            *samples.context == context,
            samples.context == old(samples).context,
            samples.wf(),
            samples.index() == start + i,
            maps_all_samples(*map),
            forall|mapped: spec_fn(Seq<u32>) -> Option<Seq<u64>>| #[trigger]
                maps_samples(*map, mapped) ==> batch_of(
                    context,
                    components,
                    mapped,
                    start,
                    i as nat,
                ) == Some(batch@),
        decreases count - i,
    {
        let ghost row = samples.row as int;
        let ghost column = samples.column as int;
        proof {
            vstd::arithmetic::div_mod::lemma_fundamental_div_mod_converse(
                row * width + column,
                width,
                row,
                column,
            );
            assert(row < height) by (nonlinear_arith)
                requires
                    row * width + column < width * height,
                    0 <= column,
                    0 < width,
            ;
        }
        let raw = match samples.read() {
            Ok(raw) => raw,
            Err(_) => {
                assert(false);
                return None;
            },
        };
        let values = map(&raw);
        let fits = match &values {
            Some(values) => values.len() == components,
            None => false,
        };
        if !fits {
            assert forall|mapped: spec_fn(Seq<u32>) -> Option<Seq<u64>>| #[trigger]
                maps_samples(*map, mapped) implies batch_of(
                context,
                components,
                mapped,
                start,
                count as nat,
            ) is None by {
                assert(batch_of(context, components, mapped, start, (i + 1) as nat) is None);
                lemma_failed_batch(
                    context,
                    components,
                    mapped,
                    start,
                    (i + 1) as nat,
                    count as nat,
                );
            }
            return None;
        }
        match values {
            Some(values) => {
                append(&mut batch, &values);
            },
            None => {},
        }
        i = i + 1;
    }
    Some(batch)
}

/// Convert the pixels of an image by a profile, batch by batch.
///
/// `map` gives the components of a pixel, and `convert` the output of a batch. `checkpoint` is
/// asked before every batch and at the end whether to go on.
pub fn decode_profile<
    M: Fn(&Vec<u32>) -> Option<Vec<u64>>,
    C: Fn(&Vec<u64>) -> Option<Vec<u8>>,
    K: Fn() -> bool,
>(
    context: &SampleContext,
    components: usize,
    map: &M,
    convert: &C,
    checkpoint: &mut Polled<K>,
) -> (result: Result<Vec<u8>, FloatImageError>)
    requires
        context.is_complete(),
        maps_all_samples(*map),
        profiles_all(*convert),
    ensures
        is_polled_more(*old(checkpoint), *final(checkpoint)),
        forall|
            mapped: spec_fn(Seq<u32>) -> Option<Seq<u64>>,
            converted: spec_fn(Seq<u64>) -> Option<Seq<u8>>,
        |
            #[trigger] maps_samples(*map, mapped) && #[trigger] profiles(*convert, converted)
                ==> is_profiled(
                *context,
                components,
                mapped,
                converted,
                added(old(checkpoint).answers(), final(checkpoint).answers()),
                bytes_of(result),
            ),
{
    assert(context.width * context.height <= 0xFFFF_FFFF * 0xFFFF_FFFF && 0 <= context.width
        * context.height) by (nonlinear_arith)
        requires
            context.width <= 0xFFFF_FFFF,
            context.height <= 0xFFFF_FFFF,
    ;
    let total: u64 = context.width as u64 * context.height as u64;
    let mut samples = Samples { context, row: 0, column: 0 };
    let mut output: Vec<u8> = Vec::new();
    let mut start: u64 = 0;
    assert(samples.index() == 0) by (nonlinear_arith)
        requires
            samples.index() == samples.row * samples.context.width + samples.column,
            samples.row == 0,
            samples.column == 0,
    ;
    assert forall|
        mapped: spec_fn(Seq<u32>) -> Option<Seq<u64>>,
        converted: spec_fn(Seq<u64>) -> Option<Seq<u8>>,
    |
        #[trigger] maps_samples(*map, mapped) && #[trigger] profiles(
            *convert,
            converted,
        ) implies continues(
        output@,
        profile_colors(*context, components, mapped, converted, 0, total as int),
        profile_colors(*context, components, mapped, converted, 0, total as int),
    ) by {
        match profile_colors(*context, components, mapped, converted, 0, total as int) {
            Some(all) => {
                assert(output@ + all =~= all);
            },
            None => {},
        }
    }
    let ghost before = checkpoint.answers();
    let ghost mut batches: int = 0;
    while start < total
        invariant
            start <= total == context.width * context.height,
            samples.wf(),
            samples.context == context,
            samples.index() == start,
            maps_all_samples(*map),
            profiles_all(*convert),
            0 <= batches,
            start == if batches * BATCH_PIXELS <= total {
                batches * BATCH_PIXELS
            } else {
                total as int
            },
            batches < batch_looks(total as int),
            before == old(checkpoint).answers(),
            is_polled_more(*old(checkpoint), *checkpoint),
            checkpoint.answers().len() == before.len() + batches,
            forall|i: int|
                before.len() <= i < checkpoint.answers().len() ==> #[trigger]
                    checkpoint.answers()[i],
            forall|
                mapped: spec_fn(Seq<u32>) -> Option<Seq<u64>>,
                converted: spec_fn(Seq<u64>) -> Option<Seq<u8>>,
                i: int,
            |
                #[trigger] maps_samples(*map, mapped) && #[trigger] profiles(*convert, converted)
                    && 0 <= i < batches ==> #[trigger] batch_colors(
                    *context,
                    components,
                    mapped,
                    converted,
                    i * BATCH_PIXELS,
                    total as int,
                ) is Some,
            forall|
                mapped: spec_fn(Seq<u32>) -> Option<Seq<u64>>,
                converted: spec_fn(Seq<u64>) -> Option<Seq<u8>>,
            |
                #[trigger] maps_samples(*map, mapped) && #[trigger] profiles(*convert, converted)
                    ==> continues(
                    output@,
                    profile_colors(
                        *context,
                        components,
                        mapped,
                        converted,
                        start as int,
                        total as int,
                    ),
                    profile_colors(*context, components, mapped, converted, 0, total as int),
                ),
        ensures
            start == total,
            batches + 1 == batch_looks(total as int),
        decreases total - start,
    {
        if !checkpoint.poll() {
            return Err(FloatImageError::Cancelled);
        }
        let count: u64 = if total - start <= BATCH_PIXELS {
            total - start
        } else {
            BATCH_PIXELS
        };
        assert(count == batch_count(start as int, total as int));
        let batch = match read_batch(&mut samples, components, count, map) {
            Some(batch) => batch,
            None => {
                return Err(FloatImageError::Decode);
            },
        };
        let bytes = match convert(&batch) {
            Some(bytes) => bytes,
            None => {
                return Err(FloatImageError::Decode);
            },
        };
        let ghost before = output@;
        append(&mut output, &bytes);
        assert forall|
            mapped: spec_fn(Seq<u32>) -> Option<Seq<u64>>,
            converted: spec_fn(Seq<u64>) -> Option<Seq<u8>>,
        |
            #[trigger] maps_samples(*map, mapped) && #[trigger] profiles(
                *convert,
                converted,
            ) implies continues(
            output@,
            profile_colors(
                *context,
                components,
                mapped,
                converted,
                start + count,
                total as int,
            ),
            profile_colors(*context, components, mapped, converted, 0, total as int),
        ) by {
            assert(converted(batch@) == Some(bytes@));
            match profile_colors(
                *context,
                components,
                mapped,
                converted,
                start + count,
                total as int,
            ) {
                Some(rest) => {
                    assert(before + (bytes@ + rest) =~= (before + bytes@) + rest);
                },
                None => {},
            }
        }
        start = start + count;
        proof {
            batches = batches + 1;
        }
    }
    if !checkpoint.poll() {
        return Err(FloatImageError::Cancelled);
    }
    assert(output@ + Seq::<u8>::empty() =~= output@);
    Ok(output)
}

} // verus!
