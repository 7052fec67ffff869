//! Bounded output conversion after native source sample recovery.

use crate::function::double::{finite, is_finite};
use crate::image::samples::{SampleContext, Samples};
use crate::list::append;
use crate::types::ColorSpaceKind;
use vstd::prelude::*;

verus! {

/// The greatest number of pixels that are converted at once.
pub const CONVERSION_BATCH_PIXELS: usize = 4096;

/// What colors are converted to.
#[derive(Clone, Copy, Debug, PartialEq, Eq, Structural)]
pub enum ColorTarget {
    Rgb,
    Cmyk,
}

/// What the output knows of a color space.
#[derive(Clone, Copy, Debug, PartialEq, Eq, Structural)]
pub struct OutputSpace {
    pub kind: ColorSpaceKind,
    pub components: usize,
    /// The family of the device space that is the alternate of a tint transform.
    pub device_alternate: Option<ColorSpaceKind>,
    pub is_all_colorants: bool,
    pub uses_tint_transform: bool,
    /// The components of the profile that samples are converted by.
    pub icc_components: Option<usize>,
}

/// Colors of the space come out gray.
pub open spec fn is_gray(space: OutputSpace) -> bool {
    space.kind == ColorSpaceKind::DeviceGray || space.device_alternate == Some(
        ColorSpaceKind::DeviceGray,
    )
}

/// Colors of the space are converted one by one, without narrowing.
pub open spec fn is_native(space: OutputSpace) -> bool {
    space.is_all_colorants || space.uses_tint_transform || match space.kind {
        ColorSpaceKind::DeviceGray
        | ColorSpaceKind::DeviceRgb
        | ColorSpaceKind::CalGray
        | ColorSpaceKind::CalRgb
        | ColorSpaceKind::Lab => true,
        _ => false,
    }
}

/// The bytes of a pixel of the output.
pub open spec fn channels(space: OutputSpace, target: ColorTarget) -> int {
    if target == ColorTarget::Cmyk {
        4
    } else if is_gray(space) {
        1
    } else {
        3
    }
}

/// The components of a batch.
pub open spec fn batch_components(space: OutputSpace) -> int {
    match space.icc_components {
        Some(components) => components as int,
        None => space.components as int,
    }
}

/// The lesser of two numbers.
pub open spec fn least(a: int, b: int) -> int {
    if a <= b {
        a
    } else {
        b
    }
}

/// The components of a full batch.
pub open spec fn full_batch(space: OutputSpace, count: usize) -> int {
    least(count as int, CONVERSION_BATCH_PIXELS as int) * batch_components(space)
}

/// There can be an output of so many pixels.
pub open spec fn has_output(space: OutputSpace, count: usize, target: ColorTarget) -> bool {
    &&& count != 0 && space.components != 0
    &&& target == ColorTarget::Cmyk ==> space.device_alternate == Some(ColorSpaceKind::DeviceCmyk)
    &&& count * channels(space, target) <= usize::MAX
    &&& full_batch(space, count) <= usize::MAX
}

/// Converted colors, and those that wait for a batch to fill.
#[derive(Debug)]
pub struct ColorOutput {
    pub space: OutputSpace,
    pub target: ColorTarget,
    pub data: Vec<u8>,
    /// Components of pixels that wait, as bytes.
    pub batch: Vec<u8>,
    /// Components of pixels that wait, as the bits of numbers in double precision.
    pub native_batch: Vec<u64>,
    pub batch_length: usize,
    /// The pixels that are still to come.
    pub remaining: usize,
    /// The colors of byte tints, as far as they are known. It is empty if they are not kept.
    pub byte_tints: Vec<Option<[u8; 4]>>,
}

/// An output with sequences.
#[verifier::ext_equal]
pub struct OutputModel {
    pub space: OutputSpace,
    pub target: ColorTarget,
    pub data: Seq<u8>,
    pub batch: Seq<u8>,
    pub native_batch: Seq<u64>,
    pub batch_length: int,
    pub remaining: int,
    pub byte_tints: Seq<Option<[u8; 4]>>,
}

impl View for ColorOutput {
    type V = OutputModel;

    open spec fn view(&self) -> OutputModel {
        OutputModel {
            space: self.space,
            target: self.target,
            data: self.data@,
            batch: self.batch@,
            native_batch: self.native_batch@,
            batch_length: self.batch_length as int,
            remaining: self.remaining as int,
            byte_tints: self.byte_tints@,
        }
    }
}

/// How a host converts colors. Components are given by their bits in double precision.
pub struct Conversion<T, A, I, J, N, E, C> {
    /// The place of a tint in the table of byte tints.
    pub tint: T,
    /// The components of the alternate device space.
    pub alternate: A,
    /// The components that a profile takes.
    pub icc_components: I,
    /// Convert components by a profile.
    pub convert_icc: J,
    /// Convert a color without narrowing.
    pub native: N,
    /// Narrow the components of a color to bytes.
    pub encode: E,
    /// Convert colors of bytes.
    pub convert: C,
}

/// What a host's conversions give.
pub struct Conversions {
    pub tint: spec_fn(u64) -> u8,
    pub alternate: spec_fn(Seq<u64>) -> Option<[u8; 4]>,
    pub icc_components: spec_fn(Seq<u64>) -> Option<Seq<u64>>,
    pub convert_icc: spec_fn(Seq<u64>) -> Option<Seq<u8>>,
    pub native: spec_fn(Seq<u64>) -> Option<[u8; 3]>,
    pub encode: spec_fn(Seq<u64>) -> Seq<u8>,
    pub convert: spec_fn(Seq<u8>) -> Option<Seq<u8>>,
}

/// An optional list is the given one.
pub open spec fn same_list<T>(given: Option<Vec<T>>, expected: Option<Seq<T>>) -> bool {
    match expected {
        Some(expected) => given matches Some(given) && given@ == expected,
        None => given is None,
    }
}

impl<
    T: Fn(u64) -> u8,
    A: Fn(&Vec<u64>) -> Option<[u8; 4]>,
    I: Fn(&Vec<u64>) -> Option<Vec<u64>>,
    J: Fn(&Vec<u64>) -> Option<Vec<u8>>,
    N: Fn(&Vec<u64>) -> Option<[u8; 3]>,
    E: Fn(&Vec<u64>) -> Vec<u8>,
    C: Fn(&Vec<u8>) -> Option<Vec<u8>>,
> Conversion<T, A, I, J, N, E, C> {
    /// All colors can be converted.
    pub open spec fn is_total(&self) -> bool {
        &&& forall|value: u64| call_requires(self.tint, (value,))
        &&& forall|values: &Vec<u64>| call_requires(self.alternate, (values,))
        &&& forall|values: &Vec<u64>| call_requires(self.icc_components, (values,))
        &&& forall|values: &Vec<u64>| call_requires(self.convert_icc, (values,))
        &&& forall|values: &Vec<u64>| call_requires(self.native, (values,))
        &&& forall|values: &Vec<u64>| call_requires(self.encode, (values,))
        &&& forall|values: &Vec<u8>| call_requires(self.convert, (values,))
    }

    /// Colors are converted in a given way.
    pub open spec fn gives(&self, to: Conversions) -> bool {
        &&& forall|value: u64, place: u8| #[trigger]
            call_ensures(self.tint, (value,), place) ==> place == (to.tint)(value)
        &&& forall|values: &Vec<u64>, result: Option<[u8; 4]>| #[trigger]
            call_ensures(self.alternate, (values,), result) ==> result == (to.alternate)(values@)
        &&& forall|values: &Vec<u64>, result: Option<Vec<u64>>| #[trigger]
            call_ensures(self.icc_components, (values,), result) ==> same_list(
                result,
                (to.icc_components)(values@),
            )
        &&& forall|values: &Vec<u64>, result: Option<Vec<u8>>| #[trigger]
            call_ensures(self.convert_icc, (values,), result) ==> same_list(
                result,
                (to.convert_icc)(values@),
            )
        &&& forall|values: &Vec<u64>, result: Option<[u8; 3]>| #[trigger]
            call_ensures(self.native, (values,), result) ==> result == (to.native)(values@)
        &&& forall|values: &Vec<u64>, result: Vec<u8>| #[trigger]
            call_ensures(self.encode, (values,), result) ==> result@ == (to.encode)(values@)
        &&& forall|values: &Vec<u8>, result: Option<Vec<u8>>| #[trigger]
            call_ensures(self.convert, (values,), result) ==> same_list(
                result,
                (to.convert)(values@),
            )
    }
}

/// All components are finite.
pub open spec fn all_components_finite(values: Seq<u64>) -> bool {
    forall|i: int| 0 <= i < values.len() ==> finite(#[trigger] values[i])
}

/// A color can be put out.
pub open spec fn takes(output: OutputModel, values: Seq<u64>) -> bool {
    &&& output.remaining > 0
    &&& values.len() == output.space.components
    &&& all_components_finite(values)
}

/// The output with one more color in the alternate device space.
pub open spec fn with_alternate(output: OutputModel, values: Seq<u64>, to: Conversions) -> Option<
    OutputModel,
> {
    let place = (to.tint)(values[0]) as int;
    if output.byte_tints.len() == 256 && output.byte_tints[place] is Some {
        Some(
            OutputModel {
                data: output.data + output.byte_tints[place]->0@,
                remaining: output.remaining - 1,
                ..output
            },
        )
    } else {
        match (to.alternate)(values) {
            None => None,
            Some(pixel) => Some(
                OutputModel {
                    data: output.data + pixel@,
                    remaining: output.remaining - 1,
                    byte_tints: if output.byte_tints.len() == 256 {
                        output.byte_tints.update(place, Some(pixel))
                    } else {
                        output.byte_tints
                    },
                    ..output
                },
            ),
        }
    }
}

/// The output with one more color that is converted by a profile.
pub open spec fn with_icc(output: OutputModel, values: Seq<u64>, to: Conversions) -> Option<
    OutputModel,
> {
    match (to.icc_components)(values) {
        None => None,
        Some(components) => {
            let batch = output.native_batch + components;
            if batch.len() == output.batch_length || output.remaining == 1 {
                match (to.convert_icc)(batch) {
                    None => None,
                    Some(bytes) => Some(
                        OutputModel {
                            data: output.data + bytes,
                            native_batch: Seq::empty(),
                            remaining: output.remaining - 1,
                            ..output
                        },
                    ),
                }
            } else {
                Some(
                    OutputModel {
                        native_batch: batch,
                        remaining: output.remaining - 1,
                        ..output
                    },
                )
            }
        },
    }
}

/// The output with one more color that is converted without narrowing.
pub open spec fn with_native(output: OutputModel, values: Seq<u64>, to: Conversions) -> Option<
    OutputModel,
> {
    match (to.native)(values) {
        None => None,
        Some(rgb) => Some(
            OutputModel {
                data: output.data + (if is_gray(output.space) {
                    rgb@.take(1)
                } else {
                    rgb@
                }),
                remaining: output.remaining - 1,
                ..output
            },
        ),
    }
}

/// The output with one more color that is converted from bytes.
pub open spec fn with_bytes(output: OutputModel, values: Seq<u64>, to: Conversions) -> Option<
    OutputModel,
> {
    let batch = output.batch + (to.encode)(values);
    if batch.len() == output.batch_length || output.remaining == 1 {
        match (to.convert)(batch) {
            None => None,
            Some(bytes) => Some(
                OutputModel {
                    data: output.data + bytes,
                    batch: Seq::empty(),
                    remaining: output.remaining - 1,
                    ..output
                },
            ),
        }
    } else {
        Some(OutputModel { batch, remaining: output.remaining - 1, ..output })
    }
}

/// The output with one more color.
pub open spec fn with_color(output: OutputModel, values: Seq<u64>, to: Conversions) -> Option<
    OutputModel,
> {
    if !takes(output, values) {
        None
    } else if output.target == ColorTarget::Cmyk {
        with_alternate(output, values, to)
    } else if output.space.icc_components is Some {
        with_icc(output, values, to)
    } else if is_native(output.space) {
        with_native(output, values, to)
    } else {
        with_bytes(output, values, to)
    }
}

fn are_components_finite(values: &Vec<u64>) -> (result: bool)
    ensures
        result == all_components_finite(values@),
{
    let mut i: usize = 0;
    while i < values.len()
        invariant
            i <= values@.len(),
            forall|k: int| 0 <= k < i ==> finite(#[trigger] values@[k]),
        decreases values@.len() - i,
    {
        if !is_finite(values[i]) {
            assert(!finite(values@[i as int]));
            return false;
        }
        i = i + 1;
    }
    true
}

impl ColorOutput {
    /// Pixels have components, and the table of byte tints is empty or full.
    pub open spec fn wf(&self) -> bool {
        &&& self.space.components > 0
        &&& self.byte_tints@.len() == 0 || self.byte_tints@.len() == 256
    }

    /// An output of so many pixels.
    pub fn with_target(space: OutputSpace, count: usize, target: ColorTarget) -> (output: Option<
        Self,
    >)
        ensures
            match output {
                Some(output) => {
                    &&& has_output(space, count, target)
                    &&& output.wf()
                    &&& output@ == (OutputModel {
                        space,
                        target,
                        data: Seq::empty(),
                        batch: Seq::empty(),
                        native_batch: Seq::empty(),
                        batch_length: full_batch(space, count),
                        remaining: count as int,
                        byte_tints: Seq::empty(),
                    })
                },
                None => !has_output(space, count, target),
            },
    {
        if count == 0 || space.components == 0 {
            return None;
        }
        if target == ColorTarget::Cmyk && space.device_alternate != Some(
            ColorSpaceKind::DeviceCmyk,
        ) {
            return None;
        }
        let gray = space.kind == ColorSpaceKind::DeviceGray || space.device_alternate == Some(
            ColorSpaceKind::DeviceGray,
        );
        let channels: u128 = if target == ColorTarget::Cmyk {
            4
        } else if gray {
            1
        } else {
            3
        };
        if count as u128 * channels > usize::MAX as u128 {
            return None;
        }
        let components: usize = match space.icc_components {
            Some(components) => components,
            None => space.components,
        };
        let pixels: usize = if count <= CONVERSION_BATCH_PIXELS {
            count
        } else {
            CONVERSION_BATCH_PIXELS
        };
        assert(pixels * components <= 4096 * usize::MAX && 0 <= pixels * components)
            by (nonlinear_arith)
            requires
                pixels <= 4096,
                components <= usize::MAX,
        ;
        let length: u128 = pixels as u128 * components as u128;
        if length > usize::MAX as u128 {
            return None;
        }
        let output = ColorOutput {
            space,
            target,
            data: Vec::new(),
            batch: Vec::new(),
            native_batch: Vec::new(),
            batch_length: length as usize,
            remaining: count,
            byte_tints: Vec::new(),
        };
        assert(output@.data =~= Seq::empty());
        assert(output@.batch =~= Seq::empty());
        assert(output@.native_batch =~= Seq::empty());
        assert(output@.byte_tints =~= Seq::empty());
        Some(output)
    }

    /// Keep the colors of byte tints.
    ///
    /// The caller knows that inputs are exact byte tints or whole palette indices. Other inputs
    /// must not go through the table.
    pub fn cache_byte_tints(&mut self) -> (result: Option<()>)
        requires
            old(self).wf(),
        ensures
            final(self).wf(),
            result is Some == (old(self).target == ColorTarget::Cmyk
                && old(self).space.components == 1),
            final(self)@ == (if result is Some {
                OutputModel {
                    byte_tints: Seq::new(256, |i: int| None::<[u8; 4]>),
                    ..old(self)@
                }
            } else {
                old(self)@
            }),
    {
        if self.target != ColorTarget::Cmyk || self.space.components != 1 {
            return None;
        }
        let mut tints: Vec<Option<[u8; 4]>> = Vec::new();
        while tints.len() < 256
            invariant
                tints@.len() <= 256,
                forall|i: int| 0 <= i < tints@.len() ==> #[trigger] tints@[i] is None,
            decreases 256 - tints@.len(),
        {
            tints.push(None);
        }
        self.byte_tints = tints;
        assert(self@.byte_tints =~= Seq::new(256, |i: int| None::<[u8; 4]>));
        Some(())
    }

    /// Put out one more color.
    pub fn push<
        T: Fn(u64) -> u8,
        A: Fn(&Vec<u64>) -> Option<[u8; 4]>,
        I: Fn(&Vec<u64>) -> Option<Vec<u64>>,
        J: Fn(&Vec<u64>) -> Option<Vec<u8>>,
        N: Fn(&Vec<u64>) -> Option<[u8; 3]>,
        E: Fn(&Vec<u64>) -> Vec<u8>,
        C: Fn(&Vec<u8>) -> Option<Vec<u8>>,
    >(&mut self, values: &Vec<u64>, conversion: &Conversion<T, A, I, J, N, E, C>) -> (result:
        Option<()>)
        requires
            old(self).wf(),
            conversion.is_total(),
        ensures
            final(self).wf(),
            !takes(old(self)@, values@) ==> result is None,
            forall|to: Conversions| #[trigger]
                conversion.gives(to) ==> match with_color(old(self)@, values@, to) {
                    Some(expected) => result is Some && final(self)@ == expected,
                    None => result is None,
                },
    {
        if self.remaining == 0 || values.len() != self.space.components || !are_components_finite(
            values,
        ) {
            return None;
        }
        let last = self.remaining == 1;
        self.remaining = self.remaining - 1;
        if self.target == ColorTarget::Cmyk {
            self.push_alternate(values, conversion)
        } else if self.space.icc_components.is_some() {
            match (conversion.icc_components)(values) {
                None => None,
                Some(components) => {
                    append(&mut self.native_batch, &components);
                    if self.native_batch.len() == self.batch_length || last {
                        match (conversion.convert_icc)(&self.native_batch) {
                            None => None,
                            Some(bytes) => {
                                append(&mut self.data, &bytes);
                                self.native_batch = Vec::new();
                                assert(self@.native_batch =~= Seq::empty());
                                Some(())
                            },
                        }
                    } else {
                        Some(())
                    }
                },
            }
        } else if self.is_converted_natively() {
            match (conversion.native)(values) {
                None => None,
                Some(rgb) => {
                    let ghost before = self.data@;
                    self.data.push(rgb[0]);
                    if !(self.space.kind == ColorSpaceKind::DeviceGray
                        || self.space.device_alternate == Some(ColorSpaceKind::DeviceGray)) {
                        self.data.push(rgb[1]);
                        self.data.push(rgb[2]);
                        assert(self.data@ =~= before + rgb@);
                    } else {
                        assert(self.data@ =~= before + rgb@.take(1));
                    }
                    Some(())
                },
            }
        } else {
            let bytes = (conversion.encode)(values);
            append(&mut self.batch, &bytes);
            if self.batch.len() == self.batch_length || last {
                match (conversion.convert)(&self.batch) {
                    None => None,
                    Some(bytes) => {
                        append(&mut self.data, &bytes);
                        self.batch = Vec::new();
                        assert(self@.batch =~= Seq::empty());
                        Some(())
                    },
                }
            } else {
                Some(())
            }
        }
    }

    fn is_converted_natively(&self) -> (result: bool)
        ensures
            result == is_native(self.space),
    {
        self.space.is_all_colorants || self.space.uses_tint_transform || match self.space.kind {
            ColorSpaceKind::DeviceGray
            | ColorSpaceKind::DeviceRgb
            | ColorSpaceKind::CalGray
            | ColorSpaceKind::CalRgb
            | ColorSpaceKind::Lab => true,
            _ => false,
        }
    }

    fn push_alternate<
        T: Fn(u64) -> u8,
        A: Fn(&Vec<u64>) -> Option<[u8; 4]>,
        I: Fn(&Vec<u64>) -> Option<Vec<u64>>,
        J: Fn(&Vec<u64>) -> Option<Vec<u8>>,
        N: Fn(&Vec<u64>) -> Option<[u8; 3]>,
        E: Fn(&Vec<u64>) -> Vec<u8>,
        C: Fn(&Vec<u8>) -> Option<Vec<u8>>,
    >(&mut self, values: &Vec<u64>, conversion: &Conversion<T, A, I, J, N, E, C>) -> (result:
        Option<()>)
        requires
            old(self).wf(),
            values@.len() > 0,
            conversion.is_total(),
        ensures
            final(self).wf(),
            forall|to: Conversions| #[trigger]
                conversion.gives(to) ==> match with_alternate(
                    (OutputModel { remaining: old(self)@.remaining + 1, ..old(self)@ }),
                    values@,
                    to,
                ) {
                    Some(expected) => result is Some && final(self)@ == expected,
                    None => result is None,
                },
    {
        if self.byte_tints.len() == 256 {
            let place: usize = (conversion.tint)(values[0]) as usize;
            match self.byte_tints[place] {
                Some(pixel) => {
                    push_four(&mut self.data, pixel);
                    Some(())
                },
                None => match (conversion.alternate)(values) {
                    None => None,
                    Some(pixel) => {
                        push_four(&mut self.data, pixel);
                        self.byte_tints.set(place, Some(pixel));
                        Some(())
                    },
                },
            }
        } else {
            match (conversion.alternate)(values) {
                None => None,
                Some(pixel) => {
                    push_four(&mut self.data, pixel);
                    Some(())
                },
            }
        }
    }

    /// The colors, once all pixels have come.
    ///
    /// Gray colors become three components each, if the channels have transfer functions of
    /// their own.
    pub fn finish(self, transfers_channels: bool) -> (finished: Option<FinishedColors>)
        ensures
            match finished_colors(self@, transfers_channels) {
                Some((data, gray)) => finished matches Some(given) && given.data@ == data
                    && given.gray == gray,
                None => finished is None,
            },
    {
        if self.remaining != 0 || self.target != ColorTarget::Rgb {
            return None;
        }
        let gray = self.space.kind == ColorSpaceKind::DeviceGray || self.space.device_alternate
            == Some(ColorSpaceKind::DeviceGray);
        Some(finish_colors(self.data, gray, transfers_channels))
    }

    /// The colors in the alternate device space, once all pixels have come.
    pub fn finish_cmyk(self, has_transfer_function: bool) -> (data: Option<Vec<u8>>)
        ensures
            same_list(
                data,
                if self.remaining != 0 || self.target != ColorTarget::Cmyk
                    || has_transfer_function {
                    None
                } else {
                    Some(self@.data)
                },
            ),
    {
        if self.remaining != 0 || self.target != ColorTarget::Cmyk || has_transfer_function {
            None
        } else {
            Some(self.data)
        }
    }
}

fn push_four(data: &mut Vec<u8>, pixel: [u8; 4])
    ensures
        final(data)@ == old(data)@ + pixel@,
{
    data.push(pixel[0]);
    data.push(pixel[1]);
    data.push(pixel[2]);
    data.push(pixel[3]);
    assert(data@ =~= old(data)@ + pixel@);
}

/// Gray colors as three components each.
pub open spec fn tripled(data: Seq<u8>) -> Seq<u8> {
    Seq::new(3 * data.len(), |i: int| data[i / 3])
}

/// Colors and whether they are gray.
pub open spec fn colors_for_transfer(data: Seq<u8>, gray: bool, transfers_channels: bool) -> (
    Seq<u8>,
    bool,
) {
    if gray && transfers_channels {
        (tripled(data), false)
    } else {
        (data, gray)
    }
}

/// The colors of an output and whether they are gray, once all pixels have come.
pub open spec fn finished_colors(output: OutputModel, transfers_channels: bool) -> Option<
    (Seq<u8>, bool),
> {
    if output.remaining != 0 || output.target != ColorTarget::Rgb {
        None
    } else {
        Some(colors_for_transfer(output.data, is_gray(output.space), transfers_channels))
    }
}

/// Colors, before transfer functions are applied.
#[derive(Debug)]
pub struct FinishedColors {
    pub data: Vec<u8>,
    pub gray: bool,
}

/// Make colors ready for transfer functions.
pub fn finish_colors(data: Vec<u8>, gray: bool, transfers_channels: bool) -> (finished:
    FinishedColors)
    ensures
        (finished.data@, finished.gray) == colors_for_transfer(data@, gray, transfers_channels),
{
    if gray && transfers_channels {
        let mut rgb: Vec<u8> = Vec::new();
        let mut i: usize = 0;
        assert(rgb@ =~= tripled(data@.take(0)));
        while i < data.len()
            invariant
                i <= data@.len(),
                rgb@ == tripled(data@.take(i as int)),
            decreases data@.len() - i,
        {
            rgb.push(data[i]);
            rgb.push(data[i]);
            rgb.push(data[i]);
            assert(rgb@ =~= tripled(data@.take(i + 1)));
            i = i + 1;
        }
        assert(data@.take(i as int) =~= data@);
        FinishedColors { data: rgb, gray: false }
    } else {
        FinishedColors { data, gray }
    }
}

/// The output after the first `count` pixels of an image, whose samples `decoded` maps to
/// components.
pub open spec fn output_after(
    output: OutputModel,
    context: SampleContext,
    decoded: spec_fn(Seq<u32>) -> Seq<u64>,
    to: Conversions,
    count: nat,
) -> Option<OutputModel>
    decreases count,
{
    if count == 0 {
        Some(output)
    } else {
        let i = count - 1;
        let width = context.width as int;
        match output_after(output, context, decoded, to, (count - 1) as nat) {
            None => None,
            Some(before) => with_color(
                before,
                decoded(context.pixel(i / width, i % width)),
                to,
            ),
        }
    }
}

proof fn lemma_failed_output(
    output: OutputModel,
    context: SampleContext,
    decoded: spec_fn(Seq<u32>) -> Seq<u64>,
    to: Conversions,
    count: nat,
    more: nat,
)
    requires
        count <= more,
        output_after(output, context, decoded, to, count) is None,
    ensures
        output_after(output, context, decoded, to, more) is None,
    decreases more,
{
    if count < more {
        lemma_failed_output(output, context, decoded, to, count, (more - 1) as nat);
    }
}

/// A host maps samples to components in a given way.
pub open spec fn decodes_samples<D: Fn(&Vec<u32>) -> Vec<u64>>(
    decode: D,
    decoded: spec_fn(Seq<u32>) -> Seq<u64>,
) -> bool {
    forall|samples: &Vec<u32>, values: Vec<u64>| #[trigger]
        call_ensures(decode, (samples,), values) ==> values@ == decoded(samples@)
}

/// A host maps all samples to components.
pub open spec fn decodes_all_samples<D: Fn(&Vec<u32>) -> Vec<u64>>(decode: D) -> bool {
    forall|samples: &Vec<u32>| call_requires(decode, (samples,))
}

impl ColorOutput {
    /// Put out the colors of all pixels of an image.
    pub fn fill<
        D: Fn(&Vec<u32>) -> Vec<u64>,
        T: Fn(u64) -> u8,
        A: Fn(&Vec<u64>) -> Option<[u8; 4]>,
        I: Fn(&Vec<u64>) -> Option<Vec<u64>>,
        J: Fn(&Vec<u64>) -> Option<Vec<u8>>,
        N: Fn(&Vec<u64>) -> Option<[u8; 3]>,
        E: Fn(&Vec<u64>) -> Vec<u8>,
        C: Fn(&Vec<u8>) -> Option<Vec<u8>>,
    >(
        &mut self,
        context: &SampleContext,
        decode: &D,
        conversion: &Conversion<T, A, I, J, N, E, C>,
    ) -> (result: Option<()>)
        requires
            old(self).wf(),
            context.is_complete(),
            decodes_all_samples(*decode),
            conversion.is_total(),
        ensures
            final(self).wf(),
            forall|decoded: spec_fn(Seq<u32>) -> Seq<u64>, to: Conversions|
                #[trigger] decodes_samples(*decode, decoded) && #[trigger] conversion.gives(to)
                    ==> match output_after(
                    old(self)@,
                    *context,
                    decoded,
                    to,
                    (context.width * context.height) as nat,
                ) {
                    Some(expected) => result is Some && final(self)@ == expected,
                    None => result is None,
                },
    {
        assert(context.width * context.height <= 0xFFFF_FFFF * 0xFFFF_FFFF && 0 <= context.width
            * context.height) by (nonlinear_arith)
            requires
                context.width <= 0xFFFF_FFFF,
                context.height <= 0xFFFF_FFFF,
        ;
        let count: u64 = context.width as u64 * context.height as u64;
        let ghost width = context.width as int;
        let ghost height = context.height as int;
        let mut samples = Samples { context, row: 0, column: 0 };
        let mut index: u64 = 0;
        assert(samples.index() == 0);
        while index < count
            invariant
                index <= count == width * height,
                width == context.width,
                height == context.height,
                width > 0,
                samples.wf(),
                samples.context == context,
                samples.index() == index,
                self.wf(),
                decodes_all_samples(*decode),
                conversion.is_total(),
                forall|decoded: spec_fn(Seq<u32>) -> Seq<u64>, to: Conversions|
                    #[trigger] decodes_samples(*decode, decoded) && #[trigger] conversion.gives(to)
                        ==> output_after(old(self)@, *context, decoded, to, index as nat) == Some(
                        self@,
                    ),
            decreases count - index,
        {
            let ghost row = samples.row as int;
            let ghost column = samples.column as int;
            proof {
                vstd::arithmetic::div_mod::lemma_fundamental_div_mod_converse(
                    row * width + column,
                    width,
                    row,
                    column,
                );
                assert(row < height) by (nonlinear_arith)
                    requires
                        row * width + column < width * height,
                        0 <= column,
                        0 < width,
                ;
            }
            let raw = match samples.read() {
                Ok(raw) => raw,
                Err(_) => {
                    assert(false);
                    return None;
                },
            };
            let values = decode(&raw);
            let ghost before = self@;
            match self.push(&values, conversion) {
                None => {
                    assert forall|decoded: spec_fn(Seq<u32>) -> Seq<u64>, to: Conversions|
                        #[trigger] decodes_samples(*decode, decoded) && #[trigger] conversion.gives(
                            to,
                        ) implies output_after(
                        old(self)@,
                        *context,
                        decoded,
                        to,
                        count as nat,
                    ) is None by {
                        assert(values@ == decoded(raw@));
                        lemma_failed_output(
                            old(self)@,
                            *context,
                            decoded,
                            to,
                            (index + 1) as nat,
                            count as nat,
                        );
                    }
                    return None;
                },
                Some(()) => {
                    assert forall|decoded: spec_fn(Seq<u32>) -> Seq<u64>, to: Conversions|
                        #[trigger] decodes_samples(*decode, decoded) && #[trigger] conversion.gives(
                            to,
                        ) implies output_after(
                        old(self)@,
                        *context,
                        decoded,
                        to,
                        (index + 1) as nat,
                    ) == Some(self@) by {
                        assert(values@ == decoded(raw@));
                    }
                },
            }
            index = index + 1;
        }
        Some(())
    }
}

/// Nothing waits once all pixels have come.
pub open spec fn is_flushed(output: OutputModel) -> bool {
    output.remaining == 0 ==> output.batch.len() == 0 && output.native_batch.len() == 0
}

/// Once all pixels have come, no components wait to be converted.
pub proof fn lemma_flushed(output: OutputModel, values: Seq<u64>, to: Conversions)
    requires
        output.target == ColorTarget::Cmyk || is_native(output.space)
            || output.space.icc_components is Some ==> output.batch.len() == 0,
        output.target == ColorTarget::Cmyk || output.space.icc_components is None
            ==> output.native_batch.len() == 0,
    ensures
        with_color(output, values, to) matches Some(after) ==> {
            &&& is_flushed(after)
            &&& after.target == ColorTarget::Cmyk || is_native(after.space)
                || after.space.icc_components is Some ==> after.batch.len() == 0
            &&& after.target == ColorTarget::Cmyk || after.space.icc_components is None
                ==> after.native_batch.len() == 0
            &&& after.remaining == output.remaining - 1
        },
{
}

/// Colors that are converted one by one take as many bytes each as the output has channels.
pub proof fn lemma_channels(output: OutputModel, values: Seq<u64>, to: Conversions)
    requires
        output.target == ColorTarget::Cmyk || (is_native(output.space)
            && output.space.icc_components is None),
    ensures
        with_color(output, values, to) matches Some(after) ==> after.data.len() == output.data.len()
            + channels(output.space, output.target),
{
}

} // verus!
