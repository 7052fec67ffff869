//! Channel samples of JPEG 2000 images with an opacity channel.

use crate::function::numeric::Interval;
use crate::function::single::{finite, is_finite};
use crate::image::output::{with_color, ColorOutput, Conversion, Conversions, OutputModel};
use crate::image::samples::{all_ends_finite, are_ends_finite};
use crate::list::append;
use crate::types::EmbeddedImageAlphaMode;
use vstd::prelude::*;

verus! {

/// The samples of a channel, given by their bits in single precision.
#[derive(Debug)]
pub struct ChannelSamples {
    pub samples: Vec<u32>,
    pub bits_per_component: u8,
}

/// The samples of all channels; the last one is the opacity.
#[derive(Debug)]
pub struct JpxSamples {
    pub components: Vec<ChannelSamples>,
    /// Whether the decoder has already undone the association with the opacity.
    pub premultiplication_removed: bool,
}

/// A channel has so many samples of a valid number of bits.
pub open spec fn is_channel(channel: ChannelSamples, count: int) -> bool {
    channel.samples@.len() == count && 1 <= channel.bits_per_component <= 16
}

/// The channels fit an image of so many pixels and components.
pub open spec fn channels_fit(
    channels: Seq<ChannelSamples>,
    decode: Seq<Interval>,
    count: int,
    components: int,
) -> bool {
    &&& count != 0 && components != 0
    &&& channels.len() == components + 1
    &&& decode.len() == components
    &&& all_ends_finite(decode)
    &&& forall|i: int| 0 <= i < channels.len() ==> is_channel(#[trigger] channels[i], count)
}

/// Samples of an image with an opacity channel.
#[derive(Debug)]
pub struct EmbeddedSamples<'a> {
    pub source: &'a JpxSamples,
    /// Whether the colors are still associated with the opacity.
    pub premultiplied: bool,
    pub count: usize,
}

/// The samples of a pixel, given by their bits in single precision.
#[derive(Debug)]
pub struct EmbeddedPixel {
    pub alpha: u32,
    pub colors: Vec<u32>,
}

/// All samples of a pixel are finite.
pub open spec fn is_finite_pixel(channels: Seq<ChannelSamples>, pixel: int) -> bool {
    forall|i: int|
        0 <= i < channels.len() ==> finite((#[trigger] channels[i]).samples@[pixel])
}

impl<'a> EmbeddedSamples<'a> {
    /// There is an opacity channel, and all channels have all samples.
    pub open spec fn wf(&self) -> bool {
        &&& self.source.components@.len() >= 2
        &&& forall|i: int|
            0 <= i < self.source.components@.len() ==> is_channel(
                #[trigger] self.source.components@[i],
                self.count as int,
            )
    }

    /// The samples of an image, if they fit it.
    pub fn new(
        source: &'a JpxSamples,
        mode: EmbeddedImageAlphaMode,
        width: u32,
        height: u32,
        components: usize,
        decode: &Vec<Interval>,
    ) -> (samples: Option<Self>)
        ensures
            match samples {
                Some(samples) => {
                    &&& width * height <= usize::MAX
                    &&& channels_fit(
                        source.components@,
                        decode@,
                        width * height,
                        components as int,
                    )
                    &&& samples.wf()
                    &&& samples.source == source
                    &&& samples.count == width * height
                    &&& samples.premultiplied == (mode == EmbeddedImageAlphaMode::Premultiplied
                        && !source.premultiplication_removed)
                },
                None => width * height > usize::MAX || !channels_fit(
                    source.components@,
                    decode@,
                    width * height,
                    components as int,
                ),
            },
    {
        assert(width * height <= 0xFFFF_FFFF * 0xFFFF_FFFF && 0 <= width * height)
            by (nonlinear_arith)
            requires
                width <= 0xFFFF_FFFF,
                height <= 0xFFFF_FFFF,
        ;
        let pixels: u64 = width as u64 * height as u64;
        if pixels > usize::MAX as u64 {
            return None;
        }
        let count: usize = pixels as usize;
        if count == 0 || components == 0 || source.components.len() == 0
            || source.components.len() - 1 != components
            || decode.len() != components || !are_ends_finite(decode) {
            return None;
        }
        let mut i: usize = 0;
        while i < source.components.len()
            invariant
                i <= source.components@.len(),
                count == width * height,
                forall|k: int|
                    0 <= k < i ==> is_channel(#[trigger] source.components@[k], count as int),
            decreases source.components@.len() - i,
        {
            let channel = &source.components[i];
            if channel.samples.len() != count || channel.bits_per_component < 1
                || channel.bits_per_component > 16 {
                assert(!is_channel(source.components@[i as int], count as int));
                return None;
            }
            i = i + 1;
        }
        let premultiplied = mode == EmbeddedImageAlphaMode::Premultiplied
            && !source.premultiplication_removed;
        Some(EmbeddedSamples { source, premultiplied, count })
    }

    /// The samples of a pixel, if there is one and all are finite.
    pub fn read(&self, pixel: usize) -> (result: Option<EmbeddedPixel>)
        requires
            self.wf(),
        ensures
            match result {
                Some(samples) => {
                    let channels = self.source.components@;
                    &&& pixel < self.count
                    &&& is_finite_pixel(channels, pixel as int)
                    &&& samples.alpha == channels.last().samples@[pixel as int]
                    &&& samples.colors@.len() == channels.len() - 1
                    &&& forall|i: int|
                        0 <= i < samples.colors@.len() ==> #[trigger] samples.colors@[i]
                            == channels[i].samples@[pixel as int]
                },
                None => pixel >= self.count || !is_finite_pixel(
                    self.source.components@,
                    pixel as int,
                ),
            },
    {
        if pixel >= self.count {
            return None;
        }
        let ghost channels = self.source.components@;
        let last: usize = self.source.components.len() - 1;
        assert(is_channel(channels[last as int], self.count as int));
        let alpha: u32 = self.source.components[last].samples[pixel];
        if !is_finite(alpha) {
            assert(!finite(channels[last as int].samples@[pixel as int]));
            return None;
        }
        let mut colors: Vec<u32> = Vec::new();
        let mut i: usize = 0;
        while i < last
            invariant
                i <= last == channels.len() - 1,
                channels == self.source.components@,
                self.wf(),
                pixel < self.count,
                colors@.len() == i,
                forall|k: int|
                    0 <= k < i ==> #[trigger] colors@[k] == channels[k].samples@[pixel as int],
                forall|k: int|
                    0 <= k < i ==> finite((#[trigger] channels[k]).samples@[pixel as int]),
            decreases last - i,
        {
            assert(is_channel(channels[i as int], self.count as int));
            let sample: u32 = self.source.components[i].samples[pixel];
            if !is_finite(sample) {
                assert(!finite(channels[i as int].samples@[pixel as int]));
                return None;
            }
            colors.push(sample);
            i = i + 1;
        }
        Some(EmbeddedPixel { alpha, colors })
    }
}

/// The samples of the colors of a pixel.
pub open spec fn color_samples(channels: Seq<ChannelSamples>, pixel: int) -> Seq<u32> {
    Seq::new((channels.len() - 1) as nat, |i: int| channels[i].samples@[pixel])
}

/// A host recovers the components of a pixel in a given way: from the samples of its opacity and
/// its colors.
pub open spec fn recovers_components<M: Fn(&EmbeddedPixel) -> Vec<u64>>(
    recover: M,
    recovered: spec_fn(u32, Seq<u32>) -> Seq<u64>,
) -> bool {
    forall|pixel: &EmbeddedPixel, values: Vec<u64>| #[trigger]
        call_ensures(recover, (pixel,), values) ==> values@ == recovered(
            pixel.alpha,
            pixel.colors@,
        )
}

/// A host recovers the components of all pixels.
pub open spec fn recovers_all_components<M: Fn(&EmbeddedPixel) -> Vec<u64>>(recover: M) -> bool {
    forall|pixel: &EmbeddedPixel| call_requires(recover, (pixel,))
}

/// The output after the first `count` pixels.
pub open spec fn embedded_output(
    output: OutputModel,
    channels: Seq<ChannelSamples>,
    recovered: spec_fn(u32, Seq<u32>) -> Seq<u64>,
    to: Conversions,
    count: nat,
) -> Option<OutputModel>
    decreases count,
{
    if count == 0 {
        Some(output)
    } else {
        match embedded_output(output, channels, recovered, to, (count - 1) as nat) {
            None => None,
            Some(before) => if is_finite_pixel(channels, count - 1) {
                with_color(
                    before,
                    recovered(
                        channels.last().samples@[count - 1],
                        color_samples(channels, count - 1),
                    ),
                    to,
                )
            } else {
                None
            },
        }
    }
}

proof fn lemma_failed_embedded(
    output: OutputModel,
    channels: Seq<ChannelSamples>,
    recovered: spec_fn(u32, Seq<u32>) -> Seq<u64>,
    to: Conversions,
    count: nat,
    more: nat,
)
    requires
        count <= more,
        embedded_output(output, channels, recovered, to, count) is None,
    ensures
        embedded_output(output, channels, recovered, to, more) is None,
    decreases more,
{
    if count < more {
        lemma_failed_embedded(output, channels, recovered, to, count, (more - 1) as nat);
    }
}

impl ColorOutput {
    /// Put out the colors of all pixels of an image with an opacity channel.
    ///
    /// `recover` gives the components of a pixel, with the association with its opacity undone.
    pub fn fill_embedded<
        M: Fn(&EmbeddedPixel) -> Vec<u64>,
        T: Fn(u64) -> u8,
        A: Fn(&Vec<u64>) -> Option<[u8; 4]>,
        I: Fn(&Vec<u64>) -> Option<Vec<u64>>,
        J: Fn(&Vec<u64>) -> Option<Vec<u8>>,
        N: Fn(&Vec<u64>) -> Option<[u8; 3]>,
        E: Fn(&Vec<u64>) -> Vec<u8>,
        C: Fn(&Vec<u8>) -> Option<Vec<u8>>,
    >(
        &mut self,
        samples: &EmbeddedSamples,
        recover: &M,
        conversion: &Conversion<T, A, I, J, N, E, C>,
    ) -> (result: Option<()>)
        requires
            old(self).wf(),
            samples.wf(),
            recovers_all_components(*recover),
            conversion.is_total(),
        ensures
            final(self).wf(),
            forall|recovered: spec_fn(u32, Seq<u32>) -> Seq<u64>, to: Conversions|
                #[trigger] recovers_components(*recover, recovered) && #[trigger] conversion.gives(
                    to,
                ) ==> match embedded_output(
                    old(self)@,
                    samples.source.components@,
                    recovered,
                    to,
                    samples.count as nat,
                ) {
                    Some(expected) => result is Some && final(self)@ == expected,
                    None => result is None,
                },
    {
        let ghost channels = samples.source.components@;
        let mut i: usize = 0;
        while i < samples.count
            invariant
                i <= samples.count,
                self.wf(),
                samples.wf(),
                channels == samples.source.components@,
                recovers_all_components(*recover),
                conversion.is_total(),
                forall|recovered: spec_fn(u32, Seq<u32>) -> Seq<u64>, to: Conversions|
                    #[trigger] recovers_components(
                        *recover,
                        recovered,
                    ) && #[trigger] conversion.gives(to) ==> embedded_output(
                        old(self)@,
                        channels,
                        recovered,
                        to,
                        i as nat,
                    ) == Some(self@),
            decreases samples.count - i,
        {
            let mut done = false;
            let ghost before = self@;
            match samples.read(i) {
                None => {},
                Some(pixel) => {
                    assert(pixel.colors@ =~= color_samples(channels, i as int));
                    let values = recover(&pixel);
                    done = self.push(&values, conversion).is_some();
                    assert forall|recovered: spec_fn(u32, Seq<u32>) -> Seq<u64>, to: Conversions|
                        #[trigger] recovers_components(
                            *recover,
                            recovered,
                        ) && #[trigger] conversion.gives(to) implies match embedded_output(
                        old(self)@,
                        channels,
                        recovered,
                        to,
                        (i + 1) as nat,
                    ) {
                        Some(expected) => done && self@ == expected,
                        None => !done,
                    } by {
                        assert(values@ == recovered(pixel.alpha, pixel.colors@));
                    }
                },
            }
            if !done {
                assert forall|recovered: spec_fn(u32, Seq<u32>) -> Seq<u64>, to: Conversions|
                    #[trigger] recovers_components(
                        *recover,
                        recovered,
                    ) && #[trigger] conversion.gives(to) implies embedded_output(
                    old(self)@,
                    channels,
                    recovered,
                    to,
                    samples.count as nat,
                ) is None by {
                    lemma_failed_embedded(
                        old(self)@,
                        channels,
                        recovered,
                        to,
                        (i + 1) as nat,
                        samples.count as nat,
                    );
                }
                return None;
            }
            i = i + 1;
        }
        Some(())
    }
}

/// A host encodes the components of a pixel in a given way: from the samples of its opacity and
/// its colors.
pub open spec fn encodes_components<E: Fn(&EmbeddedPixel) -> Vec<u8>>(
    encode: E,
    encoded: spec_fn(u32, Seq<u32>) -> Seq<u8>,
) -> bool {
    forall|pixel: &EmbeddedPixel, bytes: Vec<u8>| #[trigger]
        call_ensures(encode, (pixel,), bytes) ==> bytes@ == encoded(pixel.alpha, pixel.colors@)
}

/// The bytes of the components of the first `count` pixels.
pub open spec fn encoded_pixels(
    channels: Seq<ChannelSamples>,
    encoded: spec_fn(u32, Seq<u32>) -> Seq<u8>,
    count: nat,
) -> Seq<u8>
    decreases count,
{
    if count == 0 {
        Seq::empty()
    } else {
        encoded_pixels(channels, encoded, (count - 1) as nat) + encoded(
            channels.last().samples@[count - 1],
            color_samples(channels, count - 1),
        )
    }
}

/// The bytes of the components of all pixels, if all samples are finite.
///
/// `encode` gives those of a pixel, with the association with its opacity undone.
pub fn components<E: Fn(&EmbeddedPixel) -> Vec<u8>>(samples: &EmbeddedSamples, encode: &E) -> (data:
    Option<Vec<u8>>)
    requires
        samples.wf(),
        forall|pixel: &EmbeddedPixel| call_requires(*encode, (pixel,)),
    ensures
        data is Some == (samples.count * (samples.source.components@.len() - 1) <= usize::MAX
            && forall|pixel: int|
            0 <= pixel < samples.count ==> #[trigger] is_finite_pixel(
                samples.source.components@,
                pixel,
            )),
        forall|encoded: spec_fn(u32, Seq<u32>) -> Seq<u8>| #[trigger]
            encodes_components(*encode, encoded) && data is Some ==> data->0@ == encoded_pixels(
                samples.source.components@,
                encoded,
                samples.count as nat,
            ),
{
    let ghost channels = samples.source.components@;
    if samples.count.checked_mul(samples.source.components.len() - 1).is_none() {
        return None;
    }
    let mut data: Vec<u8> = Vec::new();
    let mut i: usize = 0;
    while i < samples.count
        invariant
            i <= samples.count,
            samples.wf(),
            channels == samples.source.components@,
            forall|pixel: &EmbeddedPixel| call_requires(*encode, (pixel,)),
            forall|pixel: int| 0 <= pixel < i ==> #[trigger] is_finite_pixel(channels, pixel),
            forall|encoded: spec_fn(u32, Seq<u32>) -> Seq<u8>| #[trigger]
                encodes_components(*encode, encoded) ==> data@ == encoded_pixels(
                    channels,
                    encoded,
                    i as nat,
                ),
        decreases samples.count - i,
    {
        let pixel = match samples.read(i) {
            Some(pixel) => pixel,
            None => {
                assert(!is_finite_pixel(channels, i as int));
                return None;
            },
        };
        assert(pixel.colors@ =~= color_samples(channels, i as int));
        let bytes = encode(&pixel);
        append(&mut data, &bytes);
        i = i + 1;
    }
    Some(data)
}

} // verus!
