//! Decoding the colors and the opacity of an image.

use crate::function::numeric::Interval;
use crate::image::alpha::{
    color_key, color_key_of, find_mask, key_alpha, keyed_pixels, mask_stream,
};
use crate::image::dictionary::{
    alpha_mode, embedded_alpha_mode, has_matte, has_soft_mask_matte, image_with, kind_of,
    mask_properties, uses_jpx, uses_jpx_decode, ImageKind, ImageXObject,
};
use crate::image::embedded::{
    channels_fit, components, embedded_output, encoded_pixels, encodes_components,
    is_finite_pixel, recovers_components, EmbeddedPixel, EmbeddedSamples, JpxSamples,
};
use crate::image::matte::{
    belong_together, matte_mask, matte_mask_of, recover_colors, recovered_output, Decoded,
    MatteMask, MatteModel, RecoveredModel,
};
use crate::image::output::{
    decodes_samples, finished_colors, has_output, output_after, same_list, ColorOutput,
    ColorTarget, Conversion, Conversions, OutputModel, OutputSpace,
};
use crate::image::rgb::{
    bytes_of, converts, converts_all, decode_context_rgb, decode_fits, decoded_colors,
    direct_components, lemma_converted_unless_cancelled, refusal, validate_decode,
};
use crate::image::samples::SampleContext;
use crate::image::sampling::{
    base_values, look_up, palette_model, IndexedSpace, Sampled, Sampling,
};
use crate::image::tint::{
    can_be_put_out, decode_output, direct_inversion, direct_invert, empty_output, invert,
    inverted_bytes, needs_native, needs_native_samples,
};
use crate::object::{Dict, Document, Object, Stream};
use crate::polled::{added, Polled};
use crate::types::{
    CmykData, ColorSpaceKind, EmbeddedImageAlphaMode, ImageData, ImageModel, LumaData, PlaneModel,
    RgbData, ScaleFactors,
};
use vstd::prelude::*;

verus! {

/// Optional opacities with a sequence.
pub open spec fn plane(data: Option<LumaData>) -> Option<PlaneModel> {
    match data {
        Some(data) => Some(data@),
        None => None,
    }
}

/// How a host prepares the components of an image.
pub struct Preparation<F, U, B, E> {
    /// Complete the rows of bytes of so many components, or correct the height.
    pub fix: F,
    /// Unpack samples.
    pub unpack: U,
    /// Map samples to the bytes of components.
    pub narrow: B,
    /// The bytes of the components of a pixel with an opacity channel. It is told whether they
    /// are still associated with the opacity.
    pub embedded: E,
}

/// What a host's preparation gives.
pub struct Prepared {
    pub fix: spec_fn(Seq<u8>, u32, u32, usize) -> Option<(Seq<u8>, u32)>,
    pub unpack: spec_fn(Seq<u8>, u32, u32, usize, u8) -> Option<Seq<u16>>,
    pub narrow: spec_fn(SampleContext) -> Option<Seq<u8>>,
    pub embedded: spec_fn(u32, Seq<u32>, bool) -> Seq<u8>,
}

/// Optional rows with a sequence.
pub open spec fn rows(given: Option<(Vec<u8>, u32)>) -> Option<(Seq<u8>, u32)> {
    match given {
        Some((data, height)) => Some((data@, height)),
        None => None,
    }
}

impl<
    F: Fn(&Vec<u8>, u32, u32, usize) -> Option<(Vec<u8>, u32)>,
    U: Fn(&Vec<u8>, u32, u32, usize, u8) -> Option<Vec<u16>>,
    B: Fn(&SampleContext) -> Option<Vec<u8>>,
    E: Fn(&EmbeddedPixel, bool) -> Vec<u8>,
> Preparation<F, U, B, E> {
    /// Everything can be prepared.
    pub open spec fn is_total(&self) -> bool {
        &&& forall|data: &Vec<u8>, width: u32, height: u32, components: usize|
            call_requires(self.fix, (data, width, height, components))
        &&& forall|data: &Vec<u8>, width: u32, height: u32, components: usize, bits: u8|
            call_requires(self.unpack, (data, width, height, components, bits))
        &&& forall|context: &SampleContext| call_requires(self.narrow, (context,))
        &&& forall|pixel: &EmbeddedPixel, premultiplied: bool|
            call_requires(self.embedded, (pixel, premultiplied))
    }

    /// Components are prepared in a given way.
    pub open spec fn gives(&self, to: Prepared) -> bool {
        &&& forall|
            data: &Vec<u8>,
            width: u32,
            height: u32,
            components: usize,
            result: Option<(Vec<u8>, u32)>,
        | #[trigger]
            call_ensures(self.fix, (data, width, height, components), result) ==> rows(result) == (
            to.fix)(data@, width, height, components)
        &&& forall|
            data: &Vec<u8>,
            width: u32,
            height: u32,
            components: usize,
            bits: u8,
            result: Option<Vec<u16>>,
        | #[trigger]
            call_ensures(self.unpack, (data, width, height, components, bits), result)
                ==> same_list(result, (to.unpack)(data@, width, height, components, bits))
        &&& forall|context: &SampleContext, result: Option<Vec<u8>>| #[trigger]
            call_ensures(self.narrow, (context,), result) ==> same_list(
                result,
                (to.narrow)(*context),
            )
        &&& forall|pixel: &EmbeddedPixel, premultiplied: bool, result: Vec<u8>| #[trigger]
            call_ensures(self.embedded, (pixel, premultiplied), result) ==> result@ == (
            to.embedded)(pixel.alpha, pixel.colors@, premultiplied)
    }
}

/// How a host converts the components of an image.
pub struct Rendering<P, L, I, C, T> {
    /// The bytes of the color of a pixel, without narrowing its components.
    pub pixel: P,
    /// Convert components to gray, if the color space allows it.
    pub luma: L,
    /// Convert components to RGB in place, if the color space allows it.
    pub in_place: I,
    /// Convert the components of an image of a width and a height to RGB.
    pub convert: C,
    /// Apply the transfer function.
    pub transfer: T,
}

/// What a host's conversions of components give.
pub struct Rendered {
    pub pixel: spec_fn(Seq<u32>) -> Option<Seq<u8>>,
    pub luma: spec_fn(Seq<u8>) -> Option<Seq<u8>>,
    pub in_place: spec_fn(Seq<u8>) -> Option<Seq<u8>>,
    pub convert: spec_fn(Seq<u8>, u32, u32) -> Option<Seq<u8>>,
    pub transfer: spec_fn(Seq<u8>) -> Seq<u8>,
}

impl<
    P: Fn(&Vec<u32>) -> Option<Vec<u8>>,
    L: Fn(&Vec<u8>) -> Option<Vec<u8>>,
    I: Fn(&Vec<u8>) -> Option<Vec<u8>>,
    C: Fn(&Vec<u8>, u32, u32) -> Option<Vec<u8>>,
    T: Fn(&Vec<u8>) -> Vec<u8>,
> Rendering<P, L, I, C, T> {
    /// Everything can be converted.
    pub open spec fn is_total(&self) -> bool {
        &&& converts_all(self.pixel)
        &&& forall|data: &Vec<u8>| call_requires(self.luma, (data,))
        &&& forall|data: &Vec<u8>| call_requires(self.in_place, (data,))
        &&& forall|data: &Vec<u8>, width: u32, height: u32|
            call_requires(self.convert, (data, width, height))
        &&& forall|data: &Vec<u8>| call_requires(self.transfer, (data,))
    }

    /// Components are converted in a given way.
    pub open spec fn gives(&self, to: Rendered) -> bool {
        &&& converts(self.pixel, to.pixel)
        &&& forall|data: &Vec<u8>, result: Option<Vec<u8>>| #[trigger]
            call_ensures(self.luma, (data,), result) ==> same_list(result, (to.luma)(data@))
        &&& forall|data: &Vec<u8>, result: Option<Vec<u8>>| #[trigger]
            call_ensures(self.in_place, (data,), result) ==> same_list(
                result,
                (to.in_place)(data@),
            )
        &&& forall|data: &Vec<u8>, width: u32, height: u32, result: Option<Vec<u8>>| #[trigger]
            call_ensures(self.convert, (data, width, height), result) ==> same_list(
                result,
                (to.convert)(data@, width, height),
            )
        &&& forall|data: &Vec<u8>, result: Vec<u8>| #[trigger]
            call_ensures(self.transfer, (data,), result) ==> result@ == (to.transfer)(data@)
    }
}

/// The number of an opacity mode is one of those that there are, or absent.
pub open spec fn is_valid_mode(doc: Document, dict: Dict) -> bool {
    uses_jpx(doc, dict) ==> match doc.value(dict, "SMaskInData"@) {
        None | Some(Object::Null) => true,
        Some(Object::Number(number)) => number.integer matches Some(mode) && 0 <= mode <= 2,
        _ => false,
    }
}

fn has_valid_mode(doc: &Document, dict: &Dict) -> (result: bool)
    ensures
        result == is_valid_mode(*doc, *dict),
{
    if !uses_jpx_decode(doc, dict) {
        return true;
    }
    match doc.lookup(dict, "SMaskInData") {
        None => true,
        Some(Object::Null) => true,
        Some(Object::Number(number)) => match number.integer {
            Some(mode) => 0 <= mode && mode <= 2,
            None => false,
        },
        _ => false,
    }
}

/// What is known of the color space of an image.
#[derive(Debug)]
pub struct ImageSpace {
    pub output: OutputSpace,
    /// The ranges of the components.
    pub ranges: Vec<Interval>,
    /// The default decode maps, if the samples are palette indices.
    pub index_decode: Option<Vec<Interval>>,
    /// The palette and its base, if the samples are palette indices.
    pub indexed: Option<IndexedSpace>,
}

/// An image whose samples were decoded.
#[derive(Debug)]
pub struct ImageDecoder<'a> {
    pub doc: &'a Document,
    pub dict: &'a Dict,
    pub image: ImageXObject,
    pub context: SampleContext,
    pub scale_factors: ScaleFactors,
    pub space: ImageSpace,
    /// The opacity channel that came with the samples.
    pub alpha: Option<Vec<u8>>,
    /// The native samples of all channels in JPEG 2000.
    pub jpx_samples: Option<JpxSamples>,
    pub has_transfer_function: bool,
    /// Whether the transfer function treats channels differently.
    pub transfers_channels: bool,
    pub color_key: Option<Vec<u16>>,
    /// The opacities that the color key gives, if they were already decoded.
    pub keyed_mask: Option<LumaData>,
}

/// Rows of bytes and their number.
pub struct RowsModel {
    pub data: Seq<u8>,
    pub height: u32,
}

/// What is left of an image after its components were decoded.
pub struct Remains {
    /// The samples.
    pub data: Seq<u8>,
    pub height: u32,
    /// The opacities that the color key gives, if they were already decoded.
    pub keyed: Option<PlaneModel>,
}

impl<'a> ImageDecoder<'a> {
    /// The color key.
    pub open spec fn key(&self) -> Option<Seq<u16>> {
        match self.color_key {
            Some(key) => Some(key@),
            None => None,
        }
    }

    /// The opacities that the color key gives, if they were already decoded.
    pub open spec fn keyed(&self) -> Option<PlaneModel> {
        plane(self.keyed_mask)
    }

    /// The color key is that of the dictionary, and its opacities are not decoded.
    pub open spec fn is_fresh(&self) -> bool {
        &&& self.key() == color_key_of(*self.doc, *self.dict)
        &&& self.keyed() is None
    }

    /// The palette is complete, if there is one.
    pub open spec fn wf(&self) -> bool {
        self.space.indexed matches Some(indexed) ==> indexed.wf()
    }

    /// The space whose components are put out: the base of a palette.
    pub open spec fn base_space(&self) -> OutputSpace {
        match self.space.indexed {
            Some(indexed) => indexed.base,
            None => self.space.output,
        }
    }

    /// The number of pixels.
    pub open spec fn pixels(&self) -> int {
        self.context.width * self.context.height
    }

    /// Only the samples, the height, and what was decoded of the opacity may differ.
    pub open spec fn same_image(&self, other: &Self) -> bool {
        &&& self.doc == other.doc
        &&& self.dict == other.dict
        &&& self.image == other.image
        &&& self.context.width == other.context.width
        &&& self.context.components == other.context.components
        &&& self.context.bits_per_component == other.context.bits_per_component
        &&& self.context.decode@ == other.context.decode@
        &&& self.scale_factors == other.scale_factors
        &&& self.space == other.space
        &&& self.has_transfer_function == other.has_transfer_function
        &&& self.transfers_channels == other.transfers_channels
        &&& self.key() == other.key()
    }

    /// Whether samples are components already: as they are, or inverted.
    pub open spec fn direct(&self) -> Option<bool> {
        direct_inversion(
            self.context.bits_per_component,
            self.context.decode@,
            self.space.ranges@,
            match self.space.index_decode {
                Some(decode) => Some(decode@),
                None => None,
            },
        )
    }

    /// Bytes of the image, of a height.
    pub open spec fn plane_of(&self, data: Seq<u8>, height: u32) -> PlaneModel {
        PlaneModel {
            data,
            width: self.context.width,
            height,
            interpolate: self.image.interpolate,
            scale_factors: self.scale_factors,
        }
    }

    /// The opacities that the color key gives, from samples of a height.
    pub open spec fn keyed_from(&self, data: Seq<u8>, height: u32, to: Prepared) -> Option<
        PlaneModel,
    > {
        match self.key() {
            None => None,
            Some(key) => match (to.unpack)(
                data,
                self.context.width,
                height,
                self.context.components,
                self.context.bits_per_component,
            ) {
                None => None,
                Some(samples) => match (to.fix)(
                    keyed_pixels(samples, self.context.components as int, key),
                    self.context.width,
                    height,
                    1,
                ) {
                    None => None,
                    Some((alpha, height)) => Some(self.plane_of(alpha, height)),
                },
            },
        }
    }

    /// The components of all pixels, as they were stored.
    pub open spec fn stored_components(&self, to: Prepared) -> Option<RowsModel> {
        let (width, height) = (self.context.width, self.context.height);
        let components = self.context.components;
        if components == 0 {
            None
        } else {
            match self.direct() {
                Some(inverted) => match (to.fix)(self.context.data@, width, height, components) {
                    None => None,
                    Some((data, height)) => Some(
                        RowsModel {
                            data: if inverted {
                                inverted_bytes(data)
                            } else {
                                data
                            },
                            height,
                        },
                    ),
                },
                None => match (to.narrow)(self.context) {
                    None => None,
                    Some(bytes) => match (to.fix)(bytes, width, height, components) {
                        None => None,
                        Some((data, height)) => Some(RowsModel { data, height }),
                    },
                },
            }
        }
    }

    /// What is left of the image after its components were decoded.
    ///
    /// Samples that are components already are moved out; before that the color key is applied.
    pub open spec fn remains(&self, to: Prepared) -> Remains {
        let (width, height) = (self.context.width, self.context.height);
        if alpha_mode(*self.doc, *self.dict) is Some {
            self.untouched()
        } else {
            match self.direct() {
                Some(_) => {
                    let fixed = (to.fix)(
                        self.context.data@,
                        width,
                        height,
                        self.context.components,
                    )->0;
                    Remains {
                        data: Seq::empty(),
                        height: fixed.1,
                        keyed: if self.key() is Some {
                            self.keyed_from(fixed.0, fixed.1, to)
                        } else {
                            self.keyed()
                        },
                    }
                },
                None => Remains {
                    data: self.context.data@,
                    height: {
                        let fixed = (to.fix)(
                            (to.narrow)(self.context)->0,
                            width,
                            height,
                            self.context.components,
                        )->0;
                        fixed.1
                    },
                    keyed: self.keyed(),
                },
            }
        }
    }

    /// The channels of an image with an opacity channel, if they fit it.
    pub open spec fn embedded_channels(&self) -> Option<JpxSamples> {
        match self.jpx_samples {
            Some(source) => if self.pixels() <= usize::MAX && channels_fit(
                source.components@,
                self.context.decode@,
                self.pixels(),
                self.context.components as int,
            ) {
                Some(source)
            } else {
                None
            },
            None => None,
        }
    }

    /// The colors are still associated with the opacity.
    pub open spec fn is_premultiplied(&self, source: JpxSamples) -> bool {
        alpha_mode(*self.doc, *self.dict) == Some(EmbeddedImageAlphaMode::Premultiplied)
            && !source.premultiplication_removed
    }

    /// The bytes of the components of an image with an opacity channel.
    pub open spec fn embedded_components(&self, to: Prepared) -> Option<RowsModel> {
        match self.embedded_channels() {
            None => None,
            Some(source) => if self.pixels() * self.context.components <= usize::MAX && forall|
                pixel: int,
            |
                0 <= pixel < self.pixels() ==> #[trigger] is_finite_pixel(
                    source.components@,
                    pixel,
                ) {
                Some(
                    RowsModel {
                        data: encoded_pixels(
                            source.components@,
                            |alpha: u32, colors: Seq<u32>|
                                (to.embedded)(alpha, colors, self.is_premultiplied(source)),
                            self.pixels() as nat,
                        ),
                        height: self.context.height,
                    },
                )
            } else {
                None
            },
        }
    }

    /// The components of all pixels.
    pub open spec fn components(&self, to: Prepared) -> Option<RowsModel> {
        if alpha_mode(*self.doc, *self.dict) is Some {
            self.embedded_components(to)
        } else {
            self.stored_components(to)
        }
    }
}

/// An optional output with sequences.
pub open spec fn output_model(output: Option<ColorOutput>) -> Option<OutputModel> {
    match output {
        Some(output) => Some(output@),
        None => None,
    }
}

/// Optional colors with sequences.
pub open spec fn image_model(image: Option<ImageData>) -> Option<ImageModel> {
    match image {
        Some(image) => Some(image@),
        None => None,
    }
}

/// Optional components are the given ones.
pub open spec fn same_rows(
    given: Option<Vec<u8>>,
    height: u32,
    expected: Option<RowsModel>,
) -> bool {
    match expected {
        Some(expected) => given matches Some(given) && given@ == expected.data && height
            == expected.height,
        None => given is None,
    }
}

impl<'a> ImageDecoder<'a> {
    /// The decoder of an image.
    pub fn new(
        doc: &'a Document,
        dict: &'a Dict,
        image: ImageXObject,
        context: SampleContext,
        scale_factors: ScaleFactors,
        space: ImageSpace,
        alpha: Option<Vec<u8>>,
        jpx_samples: Option<JpxSamples>,
        has_transfer_function: bool,
        transfers_channels: bool,
    ) -> (decoder: Self)
        ensures
            decoder.is_fresh(),
            decoder.doc == doc,
            decoder.dict == dict,
            decoder.image == image,
            decoder.context == context,
            decoder.scale_factors == scale_factors,
            decoder.space == space,
            decoder.alpha == alpha,
            decoder.jpx_samples == jpx_samples,
            decoder.has_transfer_function == has_transfer_function,
            decoder.transfers_channels == transfers_channels,
    {
        ImageDecoder {
            doc,
            dict,
            image,
            context,
            scale_factors,
            space,
            alpha,
            jpx_samples,
            has_transfer_function,
            transfers_channels,
            color_key: color_key(doc, dict),
            keyed_mask: None,
        }
    }

    /// Decode the opacities that the color key gives.
    fn decode_color_key_mask<
        F: Fn(&Vec<u8>, u32, u32, usize) -> Option<(Vec<u8>, u32)>,
        U: Fn(&Vec<u8>, u32, u32, usize, u8) -> Option<Vec<u16>>,
        B: Fn(&SampleContext) -> Option<Vec<u8>>,
        E: Fn(&EmbeddedPixel, bool) -> Vec<u8>,
    >(&self, preparation: &Preparation<F, U, B, E>) -> (mask: Option<LumaData>)
        requires
            preparation.is_total(),
            self.context.components > 0,
        ensures
            forall|to: Prepared| #[trigger]
                preparation.gives(to) ==> plane(mask) == self.keyed_from(
                    self.context.data@,
                    self.context.height,
                    to,
                ),
    {
        let key = match &self.color_key {
            Some(key) => key,
            None => {
                return None;
            },
        };
        let samples = match (preparation.unpack)(
            &self.context.data,
            self.context.width,
            self.context.height,
            self.context.components,
            self.context.bits_per_component,
        ) {
            Some(samples) => samples,
            None => {
                return None;
            },
        };
        let alpha = key_alpha(&samples, self.context.components, key);
        match (preparation.fix)(&alpha, self.context.width, self.context.height, 1) {
            None => None,
            Some((data, height)) => Some(
                LumaData {
                    data,
                    width: self.context.width,
                    height,
                    interpolate: self.image.interpolate,
                    scale_factors: self.scale_factors,
                },
            ),
        }
    }

    /// Decode the bytes of the components of an image with an opacity channel.
    fn decode_embedded_components<
        F: Fn(&Vec<u8>, u32, u32, usize) -> Option<(Vec<u8>, u32)>,
        U: Fn(&Vec<u8>, u32, u32, usize, u8) -> Option<Vec<u16>>,
        B: Fn(&SampleContext) -> Option<Vec<u8>>,
        E: Fn(&EmbeddedPixel, bool) -> Vec<u8>,
    >(&self, preparation: &Preparation<F, U, B, E>, mode: EmbeddedImageAlphaMode) -> (data: Option<
        Vec<u8>,
    >)
        requires
            preparation.is_total(),
            alpha_mode(*self.doc, *self.dict) == Some(mode),
        ensures
            data is Some ==> self.context.components > 0,
            forall|to: Prepared| #[trigger]
                preparation.gives(to) ==> same_rows(
                    data,
                    self.context.height,
                    self.embedded_components(to),
                ),
    {
        let source = match &self.jpx_samples {
            Some(source) => source,
            None => {
                return None;
            },
        };
        let samples = match EmbeddedSamples::new(
            source,
            mode,
            self.context.width,
            self.context.height,
            self.context.components,
            &self.context.decode,
        ) {
            Some(samples) => samples,
            None => {
                return None;
            },
        };
        let premultiplied = samples.premultiplied;
        let encode = |pixel: &EmbeddedPixel| -> (bytes: Vec<u8>)
            ensures
                call_ensures(preparation.embedded, (pixel, premultiplied), bytes),
            { (preparation.embedded)(pixel, premultiplied) };
        let data = components(&samples, &encode);
        assert forall|to: Prepared| #[trigger] preparation.gives(to) implies same_rows(
            data,
            self.context.height,
            self.embedded_components(to),
        ) by {
            let encoded = |alpha: u32, colors: Seq<u32>|
                (to.embedded)(alpha, colors, self.is_premultiplied(*source));
            assert(encodes_components(encode, encoded));
        }
        data
    }

    /// Decode the components of all pixels.
    fn decode_components<
        F: Fn(&Vec<u8>, u32, u32, usize) -> Option<(Vec<u8>, u32)>,
        U: Fn(&Vec<u8>, u32, u32, usize, u8) -> Option<Vec<u16>>,
        B: Fn(&SampleContext) -> Option<Vec<u8>>,
        E: Fn(&EmbeddedPixel, bool) -> Vec<u8>,
    >(&mut self, preparation: &Preparation<F, U, B, E>) -> (components: Option<Vec<u8>>)
        requires
            preparation.is_total(),
        ensures
            final(self).same_image(old(self)),
            final(self).alpha == old(self).alpha,
            components is Some ==> old(self).context.components > 0,
            forall|to: Prepared| #[trigger]
                preparation.gives(to) ==> {
                    &&& same_rows(
                        components,
                        final(self).context.height,
                        old(self).components(to),
                    )
                    &&& components is Some ==> {
                        let remains = old(self).remains(to);
                        &&& final(self).context.data@ == remains.data
                        &&& final(self).context.height == remains.height
                        &&& final(self).keyed() == remains.keyed
                    }
                },
    {
        let count: usize = self.context.components;
        // There would be no pixels to walk over.
        if count == 0 {
            return None;
        }
        match embedded_alpha_mode(self.doc, self.dict) {
            Some(mode) => {
                return self.decode_embedded_components(preparation, mode);
            },
            None => {},
        }
        let direct = direct_invert(
            self.context.bits_per_component,
            &self.context.decode,
            &self.space.ranges,
            self.space.index_decode.as_ref(),
        );
        assert(direct == self.direct());
        let components = match direct {
            Some(inverted) => {
                // The samples are components already.
                let (data, height) = match (preparation.fix)(
                    &self.context.data,
                    self.context.width,
                    self.context.height,
                    count,
                ) {
                    Some(fixed) => fixed,
                    None => {
                        return None;
                    },
                };
                self.context.data = data;
                self.context.height = height;
                if self.color_key.is_some() {
                    self.keyed_mask = self.decode_color_key_mask(preparation);
                }
                let mut data: Vec<u8> = Vec::new();
                std::mem::swap(&mut data, &mut self.context.data);
                if inverted {
                    invert(&mut data);
                }
                data
            },
            None => {
                let bytes = match (preparation.narrow)(&self.context) {
                    Some(bytes) => bytes,
                    None => {
                        return None;
                    },
                };
                let (data, height) = match (preparation.fix)(
                    &bytes,
                    self.context.width,
                    self.context.height,
                    count,
                ) {
                    Some(fixed) => fixed,
                    None => {
                        return None;
                    },
                };
                self.context.height = height;
                data
            },
        };
        Some(components)
    }
}

/// A host decodes masks in a given way.
pub open spec fn decodes_masks<M: Fn(&Stream, ImageXObject) -> Option<LumaData>>(
    mask: M,
    masks: spec_fn(Stream, ImageXObject) -> Option<PlaneModel>,
) -> bool {
    forall|stream: &Stream, image: ImageXObject, result: Option<LumaData>| #[trigger]
        call_ensures(mask, (stream, image), result) ==> plane(result) == masks(*stream, image)
}

/// A host decodes all masks.
pub open spec fn decodes_all_masks<M: Fn(&Stream, ImageXObject) -> Option<LumaData>>(
    mask: M,
) -> bool {
    forall|stream: &Stream, image: ImageXObject| call_requires(mask, (stream, image))
}

impl<'a> ImageDecoder<'a> {
    /// The opacity of the image, if its soft mask has no matte.
    ///
    /// An opacity that cannot be decoded does not keep the image from being decoded.
    pub open spec fn opacity(
        &self,
        left: Remains,
        to: Prepared,
        masks: spec_fn(Stream, ImageXObject) -> Option<PlaneModel>,
    ) -> Option<PlaneModel> {
        if alpha_mode(*self.doc, *self.dict) is Some {
            match self.alpha {
                None => None,
                Some(alpha) => match (to.fix)(alpha@, self.context.width, left.height, 1) {
                    None => None,
                    Some((data, height)) => Some(self.plane_of(data, height)),
                },
            }
        } else {
            match mask_stream(*self.doc, *self.dict) {
                Some(mask) => match image_with(
                    *self.doc,
                    mask.dict,
                    kind_of(*self.doc, mask.dict, ImageKind::Mask),
                    mask_properties(),
                ) {
                    None => None,
                    Some(image) => masks(mask, image),
                },
                None => match (self.key(), left.keyed) {
                    (None, _) => None,
                    (Some(_), Some(keyed)) => Some(keyed),
                    (Some(_), None) => self.keyed_from(left.data, left.height, to),
                },
            }
        }
    }

    /// The image as it is.
    pub open spec fn untouched(&self) -> Remains {
        Remains {
            data: self.context.data@,
            height: self.context.height,
            keyed: self.keyed(),
        }
    }

    fn decode_alpha_without_matte<
        F: Fn(&Vec<u8>, u32, u32, usize) -> Option<(Vec<u8>, u32)>,
        U: Fn(&Vec<u8>, u32, u32, usize, u8) -> Option<Vec<u16>>,
        B: Fn(&SampleContext) -> Option<Vec<u8>>,
        E: Fn(&EmbeddedPixel, bool) -> Vec<u8>,
        M: Fn(&Stream, ImageXObject) -> Option<LumaData>,
    >(self, preparation: &Preparation<F, U, B, E>, mask: &M) -> (alpha: Option<LumaData>)
        requires
            preparation.is_total(),
            decodes_all_masks(*mask),
            self.context.components > 0,
        ensures
            forall|
                to: Prepared,
                masks: spec_fn(Stream, ImageXObject) -> Option<PlaneModel>,
            |
                #[trigger] preparation.gives(to) && #[trigger] decodes_masks(*mask, masks)
                    ==> plane(alpha) == self.opacity(self.untouched(), to, masks),
    {
        if embedded_alpha_mode(self.doc, self.dict).is_some() {
            let alpha = match &self.alpha {
                Some(alpha) => alpha,
                None => {
                    return None;
                },
            };
            return match (preparation.fix)(alpha, self.context.width, self.context.height, 1) {
                None => None,
                Some((data, height)) => Some(
                    LumaData {
                        data,
                        width: self.context.width,
                        height,
                        interpolate: self.image.interpolate,
                        scale_factors: self.scale_factors,
                    },
                ),
            };
        }
        match find_mask(self.doc, self.dict) {
            Some(stream) => match ImageXObject::new_mask(self.doc, &stream.dict) {
                None => None,
                Some(image) => mask(stream, image),
            },
            None => if self.color_key.is_none() {
                None
            } else if self.keyed_mask.is_some() {
                self.keyed_mask
            } else {
                self.decode_color_key_mask(preparation)
            },
        }
    }

    /// Colors after the transfer function, if there is one.
    pub open spec fn transferred(&self, data: Seq<u8>, by: Rendered) -> Seq<u8> {
        if self.has_transfer_function {
            (by.transfer)(data)
        } else {
            data
        }
    }

    /// Components as RGB colors.
    pub open spec fn rgb_of(&self, data: Seq<u8>, height: u32, by: Rendered) -> Option<Seq<u8>> {
        match (by.in_place)(data) {
            Some(converted) => Some(converted),
            None => (by.convert)(data, self.context.width, height),
        }
    }

    fn apply_transfer_function<
        P: Fn(&Vec<u32>) -> Option<Vec<u8>>,
        L: Fn(&Vec<u8>) -> Option<Vec<u8>>,
        I: Fn(&Vec<u8>) -> Option<Vec<u8>>,
        C: Fn(&Vec<u8>, u32, u32) -> Option<Vec<u8>>,
        T: Fn(&Vec<u8>) -> Vec<u8>,
    >(&self, data: Vec<u8>, rendering: &Rendering<P, L, I, C, T>) -> (result: Vec<u8>)
        requires
            rendering.is_total(),
        ensures
            forall|by: Rendered| #[trigger]
                rendering.gives(by) ==> result@ == self.transferred(data@, by),
    {
        if self.has_transfer_function {
            (rendering.transfer)(&data)
        } else {
            data
        }
    }

    fn convert_to_rgb<
        P: Fn(&Vec<u32>) -> Option<Vec<u8>>,
        L: Fn(&Vec<u8>) -> Option<Vec<u8>>,
        I: Fn(&Vec<u8>) -> Option<Vec<u8>>,
        C: Fn(&Vec<u8>, u32, u32) -> Option<Vec<u8>>,
        T: Fn(&Vec<u8>) -> Vec<u8>,
    >(&self, data: Vec<u8>, rendering: &Rendering<P, L, I, C, T>) -> (result: Option<Vec<u8>>)
        requires
            rendering.is_total(),
        ensures
            forall|by: Rendered| #[trigger]
                rendering.gives(by) ==> same_list(
                    result,
                    self.rgb_of(data@, self.context.height, by),
                ),
    {
        match (rendering.in_place)(&data) {
            Some(converted) => Some(converted),
            None => (rendering.convert)(&data, self.context.width, self.context.height),
        }
    }

    /// The colors are decoded from native components, without narrowing them first.
    pub open spec fn is_exact(&self) -> bool {
        &&& self.space.output.kind == ColorSpaceKind::Lab
        &&& !self.dict.has("Mask"@)
        &&& !self.dict.has("SMask"@)
        &&& alpha_mode(*self.doc, *self.dict) is None
    }

    /// The colors of the image, decoded from native components.
    pub open spec fn exact_colors(&self, by: Rendered) -> Option<ImageModel> {
        if !decode_fits(*self.doc, *self.dict, 3) || refusal(
            self.context,
            self.space.output.kind,
            self.alpha is Some,
            uses_jpx(*self.doc, *self.dict),
            1,
            u64::MAX,
        ) is Some {
            None
        } else {
            match decoded_colors(self.context, by.pixel) {
                Err(_) => None,
                Ok(data) => Some(
                    ImageModel::Rgb(
                        self.plane_of(self.transferred(data, by), self.context.height),
                    ),
                ),
            }
        }
    }

    /// The colors of components. A transfer function that treats channels differently needs
    /// RGB colors.
    pub open spec fn colored(&self, rows: RowsModel, by: Rendered) -> Option<ImageModel> {
        let gray = if self.transfers_channels {
            None
        } else {
            (by.luma)(rows.data)
        };
        match gray {
            Some(data) => Some(
                ImageModel::Luma(self.plane_of(self.transferred(data, by), rows.height)),
            ),
            None => match self.rgb_of(rows.data, rows.height, by) {
                Some(data) => Some(
                    ImageModel::Rgb(self.plane_of(self.transferred(data, by), rows.height)),
                ),
                None => None,
            },
        }
    }

    /// The default maps of palette indices, or the ranges of components.
    pub open spec fn plain_maps(&self) -> Seq<Interval> {
        match self.space.index_decode {
            Some(decode) => decode@,
            None => self.space.ranges@,
        }
    }

    /// The colors are tints that bytes do not stand for.
    pub open spec fn is_tint(&self) -> bool {
        &&& self.space.output.uses_tint_transform
        &&& needs_native(
            self.context.bits_per_component,
            self.context.decode@,
            self.plain_maps(),
        )
    }

    /// The tints of the image, put out without narrowing them first.
    pub open spec fn tint_output(&self, of: Sampled, conv: Conversions, target: ColorTarget) -> Option<
        OutputModel,
    > {
        let space = self.space.output;
        if space.components != self.context.components || !can_be_put_out(
            *self.doc,
            *self.dict,
            self.context,
            space,
            target,
        ) {
            None
        } else {
            output_after(
                empty_output(
                    space,
                    self.pixels() as usize,
                    target,
                    target == ColorTarget::Cmyk && self.context.components == 1 && !needs_native(
                        self.context.bits_per_component,
                        self.context.decode@,
                        self.plain_maps(),
                    ),
                ),
                self.context,
                of.decode,
                conv,
                self.pixels() as nat,
            )
        }
    }

    /// Colors of a height, which may be gray.
    pub open spec fn image_of(&self, data: Seq<u8>, gray: bool, by: Rendered) -> ImageModel {
        let colors = self.plane_of(self.transferred(data, by), self.context.height);
        if gray {
            ImageModel::Luma(colors)
        } else {
            ImageModel::Rgb(colors)
        }
    }

    /// The colors of an output, once all pixels have come.
    pub open spec fn finished(&self, output: Option<OutputModel>, by: Rendered) -> Option<
        ImageModel,
    > {
        match output {
            None => None,
            Some(output) => match finished_colors(output, self.transfers_channels) {
                Some((data, gray)) => Some(self.image_of(data, gray, by)),
                None => None,
            },
        }
    }

    /// The colors of the image.
    pub open spec fn colors(
        &self,
        to: Prepared,
        by: Rendered,
        of: Sampled,
        conv: Conversions,
    ) -> Option<ImageModel> {
        if self.is_exact() {
            self.exact_colors(by)
        } else if self.is_tint() {
            self.finished(self.tint_output(of, conv, ColorTarget::Rgb), by)
        } else {
            match self.components(to) {
                None => None,
                Some(rows) => self.colored(rows, by),
            }
        }
    }

    /// What is left of the image after its colors were decoded.
    pub open spec fn left(&self, to: Prepared) -> Remains {
        if self.is_exact() || self.is_tint() {
            self.untouched()
        } else {
            self.remains(to)
        }
    }

    /// Put out the tints of the image without narrowing them first.
    fn decode_tints<
        D: Fn(&Vec<u32>) -> Vec<u64>,
        X: Fn(u64) -> u8,
        Y: Fn(&Vec<u8>) -> Vec<u64>,
        W: Fn(&Vec<u32>) -> Vec<u64>,
        Z: Fn(&SampleContext, u32) -> (u64, u8),
        R: Fn(&Vec<u64>, &Vec<u64>, u64) -> Vec<u64>,
        G: Fn(&EmbeddedPixel, bool) -> Vec<u64>,
        CT: Fn(u64) -> u8,
        CA: Fn(&Vec<u64>) -> Option<[u8; 4]>,
        CI: Fn(&Vec<u64>) -> Option<Vec<u64>>,
        CJ: Fn(&Vec<u64>) -> Option<Vec<u8>>,
        CN: Fn(&Vec<u64>) -> Option<[u8; 3]>,
        CE: Fn(&Vec<u64>) -> Vec<u8>,
        CC: Fn(&Vec<u8>) -> Option<Vec<u8>>,
    >(
        &self,
        sampling: &Sampling<D, X, Y, W, Z, R, G>,
        conversion: &Conversion<CT, CA, CI, CJ, CN, CE, CC>,
        target: ColorTarget,
    ) -> (output: Option<ColorOutput>)
        requires
            sampling.is_total(),
            conversion.is_total(),
        ensures
            output is Some ==> self.context.components > 0,
            forall|of: Sampled, conv: Conversions|
                #[trigger] sampling.gives(of) && #[trigger] conversion.gives(conv)
                    ==> output_model(output) == self.tint_output(of, conv, target),
    {
        if self.space.output.components != self.context.components {
            return None;
        }
        let maps = match &self.space.index_decode {
            Some(decode) => decode,
            None => &self.space.ranges,
        };
        assert(maps@ == self.plain_maps());
        let output = decode_output(
            self.doc,
            self.dict,
            &self.context,
            self.space.output,
            maps,
            target,
            &sampling.decode,
            conversion,
        );
        assert forall|of: Sampled| #[trigger] sampling.gives(of) implies decodes_samples(
            sampling.decode,
            of.decode,
        ) by {}
        output
    }

    /// Finish the colors of an output.
    fn finish_output<
        P: Fn(&Vec<u32>) -> Option<Vec<u8>>,
        L: Fn(&Vec<u8>) -> Option<Vec<u8>>,
        I: Fn(&Vec<u8>) -> Option<Vec<u8>>,
        C: Fn(&Vec<u8>, u32, u32) -> Option<Vec<u8>>,
        T: Fn(&Vec<u8>) -> Vec<u8>,
    >(&self, output: ColorOutput, rendering: &Rendering<P, L, I, C, T>) -> (image: Option<
        ImageData,
    >)
        requires
            rendering.is_total(),
        ensures
            forall|by: Rendered| #[trigger]
                rendering.gives(by) ==> image_model(image) == self.finished(Some(output@), by),
    {
        let finished = match output.finish(self.transfers_channels) {
            Some(finished) => finished,
            None => {
                return None;
            },
        };
        let data = self.apply_transfer_function(finished.data, rendering);
        if finished.gray {
            Some(
                ImageData::Luma(
                    LumaData {
                        data,
                        width: self.context.width,
                        height: self.context.height,
                        interpolate: self.image.interpolate,
                        scale_factors: self.scale_factors,
                    },
                ),
            )
        } else {
            Some(
                ImageData::Rgb(
                    RgbData {
                        data,
                        width: self.context.width,
                        height: self.context.height,
                        interpolate: self.image.interpolate,
                        scale_factors: self.scale_factors,
                    },
                ),
            )
        }
    }

    fn decode_exact<
        P: Fn(&Vec<u32>) -> Option<Vec<u8>>,
        L: Fn(&Vec<u8>) -> Option<Vec<u8>>,
        I: Fn(&Vec<u8>) -> Option<Vec<u8>>,
        C: Fn(&Vec<u8>, u32, u32) -> Option<Vec<u8>>,
        T: Fn(&Vec<u8>) -> Vec<u8>,
    >(&self, rendering: &Rendering<P, L, I, C, T>) -> (image: Option<ImageData>)
        requires
            rendering.is_total(),
        ensures
            image is Some ==> direct_components(self.space.output.kind) == Some(self.context.components),
            forall|by: Rendered| #[trigger]
                rendering.gives(by) ==> match self.exact_colors(by) {
                    Some(expected) => image matches Some(image) && image@ == expected,
                    None => image is None,
                },
    {
        if validate_decode(self.doc, self.dict, 3).is_err() {
            return None;
        }
        let go_on = || -> (go: bool)
            ensures
                go,
            { true };
        let mut checkpoint = Polled::new(go_on);
        let jpx = uses_jpx_decode(self.doc, self.dict);
        let decoded = decode_context_rgb(
            &self.context,
            self.space.output.kind,
            self.alpha.is_some(),
            jpx,
            1,
            u64::MAX,
            &mut checkpoint,
            &rendering.pixel,
        );
        proof {
            let asked = added(Seq::empty(), checkpoint.answers());
            assert(!asked.contains(false)) by {
                assert forall|i: int| 0 <= i < asked.len() implies #[trigger] asked[i] by {
                    assert(call_ensures(go_on, (), checkpoint.answers()[i]));
                }
            }
            assert forall|color: spec_fn(Seq<u32>) -> Option<Seq<u8>>| #[trigger]
                converts(rendering.pixel, color) && refusal(
                    self.context,
                    self.space.output.kind,
                    self.alpha is Some,
                    jpx,
                    1,
                    u64::MAX,
                ) is None implies bytes_of(decoded) == decoded_colors(self.context, color) by {
                lemma_converted_unless_cancelled(self.context, color, asked, bytes_of(decoded));
            }
        }
        match decoded {
            Err(_) => None,
            Ok(data) => {
                let data = self.apply_transfer_function(data, rendering);
                Some(
                    ImageData::Rgb(
                        RgbData {
                            data,
                            width: self.context.width,
                            height: self.context.height,
                            interpolate: self.image.interpolate,
                            scale_factors: self.scale_factors,
                        },
                    ),
                )
            },
        }
    }

    fn decode_image<
        F: Fn(&Vec<u8>, u32, u32, usize) -> Option<(Vec<u8>, u32)>,
        U: Fn(&Vec<u8>, u32, u32, usize, u8) -> Option<Vec<u16>>,
        B: Fn(&SampleContext) -> Option<Vec<u8>>,
        E: Fn(&EmbeddedPixel, bool) -> Vec<u8>,
        P: Fn(&Vec<u32>) -> Option<Vec<u8>>,
        L: Fn(&Vec<u8>) -> Option<Vec<u8>>,
        I: Fn(&Vec<u8>) -> Option<Vec<u8>>,
        C: Fn(&Vec<u8>, u32, u32) -> Option<Vec<u8>>,
        T: Fn(&Vec<u8>) -> Vec<u8>,
        D: Fn(&Vec<u32>) -> Vec<u64>,
        X: Fn(u64) -> u8,
        Y: Fn(&Vec<u8>) -> Vec<u64>,
        W: Fn(&Vec<u32>) -> Vec<u64>,
        Z: Fn(&SampleContext, u32) -> (u64, u8),
        R: Fn(&Vec<u64>, &Vec<u64>, u64) -> Vec<u64>,
        G: Fn(&EmbeddedPixel, bool) -> Vec<u64>,
        CT: Fn(u64) -> u8,
        CA: Fn(&Vec<u64>) -> Option<[u8; 4]>,
        CI: Fn(&Vec<u64>) -> Option<Vec<u64>>,
        CJ: Fn(&Vec<u64>) -> Option<Vec<u8>>,
        CN: Fn(&Vec<u64>) -> Option<[u8; 3]>,
        CE: Fn(&Vec<u64>) -> Vec<u8>,
        CC: Fn(&Vec<u8>) -> Option<Vec<u8>>,
    >(
        &mut self,
        preparation: &Preparation<F, U, B, E>,
        rendering: &Rendering<P, L, I, C, T>,
        sampling: &Sampling<D, X, Y, W, Z, R, G>,
        conversion: &Conversion<CT, CA, CI, CJ, CN, CE, CC>,
    ) -> (image: Option<ImageData>)
        requires
            preparation.is_total(),
            rendering.is_total(),
            sampling.is_total(),
            conversion.is_total(),
        ensures
            final(self).same_image(old(self)),
            final(self).alpha == old(self).alpha,
            image is Some ==> old(self).context.components > 0,
            forall|to: Prepared, by: Rendered, of: Sampled, conv: Conversions|
                #[trigger] preparation.gives(to) && #[trigger] rendering.gives(by)
                    && #[trigger] sampling.gives(of) && #[trigger] conversion.gives(conv)
                    ==> match old(self).colors(to, by, of, conv) {
                    Some(expected) => {
                        let left = old(self).left(to);
                        &&& image matches Some(image) && image@ == expected
                        &&& final(self).context.data@ == left.data
                        &&& final(self).context.height == left.height
                        &&& final(self).keyed() == left.keyed
                    },
                    None => image is None,
                },
    {
        let exact = match self.space.output.kind {
            ColorSpaceKind::Lab => !self.dict.contains_key("Mask") && !self.dict.contains_key(
                "SMask",
            ) && embedded_alpha_mode(self.doc, self.dict).is_none(),
            _ => false,
        };
        assert(exact == self.is_exact());
        if exact {
            return self.decode_exact(rendering);
        }
        if self.space.output.uses_tint_transform && needs_native_samples(
            self.context.bits_per_component,
            &self.context.decode,
            match &self.space.index_decode {
                Some(decode) => decode,
                None => &self.space.ranges,
            },
        ) {
            assert(self.is_tint());
            return match self.decode_tints(sampling, conversion, ColorTarget::Rgb) {
                Some(output) => self.finish_output(output, rendering),
                None => None,
            };
        }
        assert(!self.is_tint());
        let components = match self.decode_components(preparation) {
            Some(components) => components,
            None => {
                return None;
            },
        };
        if !self.transfers_channels {
            match (rendering.luma)(&components) {
                Some(gray) => {
                    let data = self.apply_transfer_function(gray, rendering);
                    return Some(
                        ImageData::Luma(
                            LumaData {
                                data,
                                width: self.context.width,
                                height: self.context.height,
                                interpolate: self.image.interpolate,
                                scale_factors: self.scale_factors,
                            },
                        ),
                    );
                },
                None => {},
            }
        }
        match self.convert_to_rgb(components, rendering) {
            None => None,
            Some(data) => {
                let data = self.apply_transfer_function(data, rendering);
                Some(
                    ImageData::Rgb(
                        RgbData {
                            data,
                            width: self.context.width,
                            height: self.context.height,
                            interpolate: self.image.interpolate,
                            scale_factors: self.scale_factors,
                        },
                    ),
                )
            },
        }
    }
}

/// The colors and the opacity of an image.
#[derive(Debug)]
pub struct DecodedImage {
    pub image: ImageData,
    pub alpha: Option<LumaData>,
}

/// The colors and the opacity of an image, with sequences.
pub struct DecodedModel {
    pub image: ImageModel,
    pub alpha: Option<PlaneModel>,
}

impl View for DecodedImage {
    type V = DecodedModel;

    open spec fn view(&self) -> DecodedModel {
        DecodedModel { image: self.image@, alpha: plane(self.alpha) }
    }
}

/// The device colors and the opacity of an image.
#[derive(Debug)]
pub struct DecodedCmykImage {
    pub image: CmykData,
    pub alpha: Option<LumaData>,
}

/// A mask whose samples were decoded.
#[derive(Debug)]
pub struct OpenedMask {
    pub context: SampleContext,
    /// Whether the samples come with an opacity channel.
    pub has_alpha: bool,
    pub scale_factors: ScaleFactors,
}

/// How a host treats the masks of an image.
pub struct Masking<M, O> {
    /// Decode a mask.
    pub mask: M,
    /// Decode only the samples of a mask.
    pub open: O,
}

impl<
    M: Fn(&Stream, ImageXObject) -> Option<LumaData>,
    O: Fn(&Stream, ImageXObject) -> Option<OpenedMask>,
> Masking<M, O> {
    /// All masks can be treated.
    pub open spec fn is_total(&self) -> bool {
        &&& decodes_all_masks(self.mask)
        &&& forall|stream: &Stream, image: ImageXObject| call_requires(self.open, (stream, image))
    }
}

/// An optional image with sequences.
pub open spec fn decoded_image(data: Option<DecodedImage>) -> Option<DecodedModel> {
    match data {
        Some(data) => Some(data@),
        None => None,
    }
}

/// The device colors and the opacity of an image, with sequences.
pub struct DecodedPlanes {
    pub image: PlaneModel,
    pub alpha: Option<PlaneModel>,
}

/// Optional device colors with sequences.
pub open spec fn decoded_planes(data: Option<DecodedCmykImage>) -> Option<DecodedPlanes> {
    match data {
        Some(data) => Some(DecodedPlanes { image: data.image@, alpha: plane(data.alpha) }),
        None => None,
    }
}

impl<'a> ImageDecoder<'a> {
    /// The output of the image and its opacities, recovered from a matte with an opened mask.
    ///
    /// Components are recovered in the base of a palette, and put out without narrowing them.
    pub open spec fn unmatted(
        &self,
        found: MatteModel,
        opened: Option<OpenedMask>,
        of: Sampled,
        conv: Conversions,
        target: ColorTarget,
    ) -> Option<RecoveredModel> {
        match opened {
            None => None,
            Some(opened) => {
                let source = Decoded {
                    context: &self.context,
                    jpx: uses_jpx(*self.doc, *self.dict),
                    has_alpha: self.alpha is Some,
                };
                let mask = Decoded {
                    context: &opened.context,
                    jpx: uses_jpx(*self.doc, found.mask.dict),
                    has_alpha: opened.has_alpha,
                };
                let count = self.pixels();
                if !belong_together(source, mask) || !has_output(
                    self.base_space(),
                    count as usize,
                    target,
                ) {
                    None
                } else {
                    recovered_output(
                        empty_output(self.base_space(), count as usize, target, false),
                        self.context,
                        opened.context,
                        palette_model(self.space.indexed),
                        found.matte,
                        of,
                        conv,
                        count as nat,
                    )
                }
            },
        }
    }

    /// The opacities that were recovered with an opened mask.
    pub open spec fn recovered_plane(
        &self,
        found: MatteModel,
        opened: OpenedMask,
        alpha: Seq<u8>,
    ) -> PlaneModel {
        PlaneModel {
            data: alpha,
            width: opened.context.width,
            height: opened.context.height,
            interpolate: found.image.interpolate,
            scale_factors: opened.scale_factors,
        }
    }

    /// A result is the output of the image and its opacities, recovered from its matte with the
    /// mask as the host opens it.
    spec fn is_recovered<O: Fn(&Stream, ImageXObject) -> Option<OpenedMask>>(
        &self,
        result: Option<(OutputModel, PlaneModel)>,
        open: O,
        of: Sampled,
        conv: Conversions,
        target: ColorTarget,
    ) -> bool {
        match matte_mask_of(*self.doc, *self.dict, self.image, self.space.ranges@) {
            None => result is None,
            Some(found) => exists|opened: Option<OpenedMask>| #[trigger]
                call_ensures(open, (&found.mask, found.image), opened) && result
                    == match self.unmatted(found, opened, of, conv, target) {
                    Some(recovered) => Some(
                        (
                            recovered.output,
                            self.recovered_plane(found, opened->0, recovered.alpha),
                        ),
                    ),
                    None => None,
                },
        }
    }

    /// A result is the image, recovered from its matte with the mask as the host opens it.
    pub open spec fn is_unmatted<O: Fn(&Stream, ImageXObject) -> Option<OpenedMask>>(
        &self,
        result: Option<DecodedModel>,
        open: O,
        of: Sampled,
        conv: Conversions,
        by: Rendered,
    ) -> bool {
        match matte_mask_of(*self.doc, *self.dict, self.image, self.space.ranges@) {
            None => result is None,
            Some(found) => exists|opened: Option<OpenedMask>| #[trigger]
                call_ensures(open, (&found.mask, found.image), opened) && result
                    == match self.unmatted(found, opened, of, conv, ColorTarget::Rgb) {
                    Some(recovered) => match self.finished(Some(recovered.output), by) {
                        Some(image) => Some(
                            DecodedModel {
                                image,
                                alpha: Some(
                                    self.recovered_plane(found, opened->0, recovered.alpha),
                                ),
                            },
                        ),
                        None => None,
                    },
                    None => None,
                },
        }
    }

    /// A result is the image in the alternate device space, recovered from its matte with the
    /// mask as the host opens it.
    pub open spec fn is_unmatted_cmyk<O: Fn(&Stream, ImageXObject) -> Option<OpenedMask>>(
        &self,
        result: Option<DecodedPlanes>,
        open: O,
        of: Sampled,
        conv: Conversions,
    ) -> bool {
        match matte_mask_of(*self.doc, *self.dict, self.image, self.space.ranges@) {
            None => result is None,
            Some(found) => exists|opened: Option<OpenedMask>| #[trigger]
                call_ensures(open, (&found.mask, found.image), opened) && result
                    == match self.unmatted(found, opened, of, conv, ColorTarget::Cmyk) {
                    Some(recovered) => match self.device_plane(recovered.output) {
                        Some(image) => Some(
                            DecodedPlanes {
                                image,
                                alpha: Some(
                                    self.recovered_plane(found, opened->0, recovered.alpha),
                                ),
                            },
                        ),
                        None => None,
                    },
                    None => None,
                },
        }
    }

    /// The colors of an output in the alternate device space, once all pixels have come.
    pub open spec fn device_plane(&self, output: OutputModel) -> Option<PlaneModel> {
        if output.remaining != 0 || output.target != ColorTarget::Cmyk
            || self.has_transfer_function {
            None
        } else {
            Some(self.plane_of(output.data, self.context.height))
        }
    }
}

/// The model of an output and the opacities with it.
spec fn recovered_model(recovered: Option<(ColorOutput, LumaData)>) -> Option<
    (OutputModel, PlaneModel),
> {
    match recovered {
        Some((output, alpha)) => Some((output@, alpha@)),
        None => None,
    }
}

/// The number of pixels of an image.
fn count_pixels(width: u32, height: u32) -> (count: u64)
    ensures
        count == width * height,
{
    assert(width * height <= 0xffff_ffff * 0xffff_ffff) by (nonlinear_arith)
        requires
            width <= 0xffff_ffff,
            height <= 0xffff_ffff,
    ;
    width as u64 * height as u64
}

impl<'a> ImageDecoder<'a> {
    /// The space whose components are put out where a palette is looked up before.
    pub fn output_space(&self) -> (space: OutputSpace)
        ensures
            space == self.base_space(),
    {
        match &self.space.indexed {
            Some(indexed) => indexed.base,
            None => self.space.output,
        }
    }

    /// Put out the colors of the image, recovered from its matte. The opacities follow.
    fn recover_output<
        D: Fn(&Vec<u32>) -> Vec<u64>,
        X: Fn(u64) -> u8,
        Y: Fn(&Vec<u8>) -> Vec<u64>,
        W: Fn(&Vec<u32>) -> Vec<u64>,
        Z: Fn(&SampleContext, u32) -> (u64, u8),
        R: Fn(&Vec<u64>, &Vec<u64>, u64) -> Vec<u64>,
        G: Fn(&EmbeddedPixel, bool) -> Vec<u64>,
        CT: Fn(u64) -> u8,
        CA: Fn(&Vec<u64>) -> Option<[u8; 4]>,
        CI: Fn(&Vec<u64>) -> Option<Vec<u64>>,
        CJ: Fn(&Vec<u64>) -> Option<Vec<u8>>,
        CN: Fn(&Vec<u64>) -> Option<[u8; 3]>,
        CE: Fn(&Vec<u64>) -> Vec<u8>,
        CC: Fn(&Vec<u8>) -> Option<Vec<u8>>,
        M: Fn(&Stream, ImageXObject) -> Option<LumaData>,
        O: Fn(&Stream, ImageXObject) -> Option<OpenedMask>,
    >(
        &self,
        sampling: &Sampling<D, X, Y, W, Z, R, G>,
        conversion: &Conversion<CT, CA, CI, CJ, CN, CE, CC>,
        masking: &Masking<M, O>,
        target: ColorTarget,
    ) -> (result: Option<(ColorOutput, LumaData)>)
        requires
            self.wf(),
            sampling.is_total(),
            conversion.is_total(),
            masking.is_total(),
        ensures
            forall|of: Sampled, conv: Conversions|
                #[trigger] sampling.gives(of) && #[trigger] conversion.gives(conv)
                    ==> self.is_recovered(
                    recovered_model(result),
                    masking.open,
                    of,
                    conv,
                    target,
                ),
    {
        let MatteMask { mask, matte, image } = match matte_mask(
            self.doc,
            self.dict,
            &self.image,
            &self.space.ranges,
        ) {
            Some(found) => found,
            None => {
                return None;
            },
        };
        let interpolate = image.interpolate;
        let ghost found = matte_mask_of(
            *self.doc,
            *self.dict,
            self.image,
            self.space.ranges@,
        )->0;
        let opened = (masking.open)(mask, image);
        assert(call_ensures(masking.open, (&found.mask, found.image), opened));
        let opened = match opened {
            Some(opened) => opened,
            None => {
                return None;
            },
        };
        let source = Decoded {
            context: &self.context,
            jpx: uses_jpx_decode(self.doc, self.dict),
            has_alpha: self.alpha.is_some(),
        };
        let opacity = Decoded {
            context: &opened.context,
            jpx: uses_jpx_decode(self.doc, &mask.dict),
            has_alpha: opened.has_alpha,
        };
        let count: u64 = count_pixels(self.context.width, self.context.height);
        if count > usize::MAX as u64 {
            return None;
        }
        let mut output = match ColorOutput::with_target(
            self.output_space(),
            count as usize,
            target,
        ) {
            Some(output) => output,
            None => {
                return None;
            },
        };
        assert(output@ =~= empty_output(self.base_space(), count as usize, target, false));
        match recover_colors(
            &mut output,
            &source,
            &opacity,
            &self.space.indexed,
            &matte,
            sampling,
            conversion,
        ) {
            None => None,
            Some(data) => Some(
                (
                    output,
                    LumaData {
                        data,
                        width: opened.context.width,
                        height: opened.context.height,
                        interpolate,
                        scale_factors: opened.scale_factors,
                    },
                ),
            ),
        }
    }

    fn decode_matte<
        P: Fn(&Vec<u32>) -> Option<Vec<u8>>,
        L: Fn(&Vec<u8>) -> Option<Vec<u8>>,
        I: Fn(&Vec<u8>) -> Option<Vec<u8>>,
        C: Fn(&Vec<u8>, u32, u32) -> Option<Vec<u8>>,
        T: Fn(&Vec<u8>) -> Vec<u8>,
        D: Fn(&Vec<u32>) -> Vec<u64>,
        X: Fn(u64) -> u8,
        Y: Fn(&Vec<u8>) -> Vec<u64>,
        W: Fn(&Vec<u32>) -> Vec<u64>,
        Z: Fn(&SampleContext, u32) -> (u64, u8),
        R: Fn(&Vec<u64>, &Vec<u64>, u64) -> Vec<u64>,
        G: Fn(&EmbeddedPixel, bool) -> Vec<u64>,
        CT: Fn(u64) -> u8,
        CA: Fn(&Vec<u64>) -> Option<[u8; 4]>,
        CI: Fn(&Vec<u64>) -> Option<Vec<u64>>,
        CJ: Fn(&Vec<u64>) -> Option<Vec<u8>>,
        CN: Fn(&Vec<u64>) -> Option<[u8; 3]>,
        CE: Fn(&Vec<u64>) -> Vec<u8>,
        CC: Fn(&Vec<u8>) -> Option<Vec<u8>>,
        M: Fn(&Stream, ImageXObject) -> Option<LumaData>,
        O: Fn(&Stream, ImageXObject) -> Option<OpenedMask>,
    >(
        self,
        rendering: &Rendering<P, L, I, C, T>,
        sampling: &Sampling<D, X, Y, W, Z, R, G>,
        conversion: &Conversion<CT, CA, CI, CJ, CN, CE, CC>,
        masking: &Masking<M, O>,
    ) -> (result: Option<DecodedImage>)
        requires
            self.wf(),
            rendering.is_total(),
            sampling.is_total(),
            conversion.is_total(),
            masking.is_total(),
        ensures
            forall|by: Rendered, of: Sampled, conv: Conversions|
                #[trigger] rendering.gives(by) && #[trigger] sampling.gives(of)
                    && #[trigger] conversion.gives(conv) ==> self.is_unmatted(
                    decoded_image(result),
                    masking.open,
                    of,
                    conv,
                    by,
                ),
    {
        match self.recover_output(sampling, conversion, masking, ColorTarget::Rgb) {
            None => None,
            Some((output, alpha)) => match self.finish_output(output, rendering) {
                None => None,
                Some(image) => Some(DecodedImage { image, alpha: Some(alpha) }),
            },
        }
    }

    /// The image with its opacity channel. Colors are recovered before palette lookup and
    /// conversion, without narrowing them first.
    pub open spec fn embedded_image(&self, by: Rendered, of: Sampled, conv: Conversions) -> Option<
        DecodedModel,
    > {
        match (self.embedded_channels(), self.alpha) {
            (Some(source), Some(alpha)) => {
                let space = self.base_space();
                let count = self.pixels();
                if !has_output(space, count as usize, ColorTarget::Rgb) {
                    None
                } else {
                    match self.finished(
                        embedded_output(
                            empty_output(space, count as usize, ColorTarget::Rgb, false),
                            source.components@,
                            |alpha: u32, colors: Seq<u32>|
                                base_values(
                                    palette_model(self.space.indexed),
                                    (of.embedded)(alpha, colors, self.is_premultiplied(source)),
                                    of,
                                ),
                            conv,
                            count as nat,
                        ),
                        by,
                    ) {
                        Some(image) => Some(
                            DecodedModel {
                                image,
                                alpha: Some(self.plane_of(alpha@, self.context.height)),
                            },
                        ),
                        None => None,
                    }
                }
            },
            _ => None,
        }
    }

    fn decode_embedded<
        P: Fn(&Vec<u32>) -> Option<Vec<u8>>,
        L: Fn(&Vec<u8>) -> Option<Vec<u8>>,
        I: Fn(&Vec<u8>) -> Option<Vec<u8>>,
        C: Fn(&Vec<u8>, u32, u32) -> Option<Vec<u8>>,
        T: Fn(&Vec<u8>) -> Vec<u8>,
        D: Fn(&Vec<u32>) -> Vec<u64>,
        X: Fn(u64) -> u8,
        Y: Fn(&Vec<u8>) -> Vec<u64>,
        W: Fn(&Vec<u32>) -> Vec<u64>,
        Z: Fn(&SampleContext, u32) -> (u64, u8),
        R: Fn(&Vec<u64>, &Vec<u64>, u64) -> Vec<u64>,
        G: Fn(&EmbeddedPixel, bool) -> Vec<u64>,
        CT: Fn(u64) -> u8,
        CA: Fn(&Vec<u64>) -> Option<[u8; 4]>,
        CI: Fn(&Vec<u64>) -> Option<Vec<u64>>,
        CJ: Fn(&Vec<u64>) -> Option<Vec<u8>>,
        CN: Fn(&Vec<u64>) -> Option<[u8; 3]>,
        CE: Fn(&Vec<u64>) -> Vec<u8>,
        CC: Fn(&Vec<u8>) -> Option<Vec<u8>>,
    >(
        self,
        mode: EmbeddedImageAlphaMode,
        rendering: &Rendering<P, L, I, C, T>,
        sampling: &Sampling<D, X, Y, W, Z, R, G>,
        conversion: &Conversion<CT, CA, CI, CJ, CN, CE, CC>,
    ) -> (result: Option<DecodedImage>)
        requires
            self.wf(),
            alpha_mode(*self.doc, *self.dict) == Some(mode),
            rendering.is_total(),
            sampling.is_total(),
            conversion.is_total(),
        ensures
            forall|by: Rendered, of: Sampled, conv: Conversions|
                #[trigger] rendering.gives(by) && #[trigger] sampling.gives(of)
                    && #[trigger] conversion.gives(conv) ==> decoded_image(result)
                    == self.embedded_image(by, of, conv),
    {
        let source = match &self.jpx_samples {
            Some(source) => source,
            None => {
                return None;
            },
        };
        let samples = match EmbeddedSamples::new(
            source,
            mode,
            self.context.width,
            self.context.height,
            self.context.components,
            &self.context.decode,
        ) {
            Some(samples) => samples,
            None => {
                return None;
            },
        };
        let premultiplied = samples.premultiplied;
        let mut output = match ColorOutput::with_target(
            self.output_space(),
            samples.count,
            ColorTarget::Rgb,
        ) {
            Some(output) => output,
            None => {
                return None;
            },
        };
        let ghost empty = empty_output(
            self.base_space(),
            samples.count,
            ColorTarget::Rgb,
            false,
        );
        assert(output@ =~= empty);
        let indexed = &self.space.indexed;
        let recover = |pixel: &EmbeddedPixel| -> (values: Vec<u64>)
            ensures
                forall|of: Sampled| #[trigger]
                    sampling.gives(of) ==> values@ == base_values(
                        palette_model(*indexed),
                        (of.embedded)(pixel.alpha, pixel.colors@, premultiplied),
                        of,
                    ),
            { look_up(indexed, (sampling.embedded)(pixel, premultiplied), sampling) };
        let filled = output.fill_embedded(&samples, &recover, conversion);
        assert forall|of: Sampled, conv: Conversions|
            #[trigger] sampling.gives(of) && #[trigger] conversion.gives(
                conv,
            ) implies embedded_output(
            empty,
            source.components@,
            |alpha: u32, colors: Seq<u32>|
                base_values(
                    palette_model(self.space.indexed),
                    (of.embedded)(alpha, colors, self.is_premultiplied(*source)),
                    of,
                ),
            conv,
            self.pixels() as nat,
        ) == match filled {
            Some(_) => Some(output@),
            None => None,
        } by {
            let recovered = |alpha: u32, colors: Seq<u32>|
                base_values(
                    palette_model(self.space.indexed),
                    (of.embedded)(alpha, colors, self.is_premultiplied(*source)),
                    of,
                );
            assert(recovers_components(recover, recovered));
        }
        if filled.is_none() {
            return None;
        }
        let image = match self.finish_output(output, rendering) {
            Some(image) => image,
            None => {
                return None;
            },
        };
        match self.alpha {
            None => None,
            Some(data) => Some(
                DecodedImage {
                    image,
                    alpha: Some(
                        LumaData {
                            data,
                            width: self.context.width,
                            height: self.context.height,
                            interpolate: self.image.interpolate,
                            scale_factors: self.scale_factors,
                        },
                    ),
                },
            ),
        }
    }
}

impl<'a> ImageDecoder<'a> {
    /// The image, if it has no opacity channel and its soft mask has no matte.
    pub open spec fn decoded(
        &self,
        to: Prepared,
        by: Rendered,
        of: Sampled,
        conv: Conversions,
        masks: spec_fn(Stream, ImageXObject) -> Option<PlaneModel>,
    ) -> Option<DecodedModel> {
        match self.colors(to, by, of, conv) {
            None => None,
            Some(image) => Some(
                DecodedModel { image, alpha: self.opacity(self.left(to), to, masks) },
            ),
        }
    }

    /// Decode the colors and the opacity of the image. A mask has no colors.
    ///
    /// `conversion` is that of the [output space](Self::output_space) if the image has a matte or
    /// an opacity channel, else that of the color space.
    pub fn decode<
        F: Fn(&Vec<u8>, u32, u32, usize) -> Option<(Vec<u8>, u32)>,
        U: Fn(&Vec<u8>, u32, u32, usize, u8) -> Option<Vec<u16>>,
        B: Fn(&SampleContext) -> Option<Vec<u8>>,
        E: Fn(&EmbeddedPixel, bool) -> Vec<u8>,
        P: Fn(&Vec<u32>) -> Option<Vec<u8>>,
        L: Fn(&Vec<u8>) -> Option<Vec<u8>>,
        I: Fn(&Vec<u8>) -> Option<Vec<u8>>,
        C: Fn(&Vec<u8>, u32, u32) -> Option<Vec<u8>>,
        T: Fn(&Vec<u8>) -> Vec<u8>,
        D: Fn(&Vec<u32>) -> Vec<u64>,
        X: Fn(u64) -> u8,
        Y: Fn(&Vec<u8>) -> Vec<u64>,
        W: Fn(&Vec<u32>) -> Vec<u64>,
        Z: Fn(&SampleContext, u32) -> (u64, u8),
        R: Fn(&Vec<u64>, &Vec<u64>, u64) -> Vec<u64>,
        G: Fn(&EmbeddedPixel, bool) -> Vec<u64>,
        CT: Fn(u64) -> u8,
        CA: Fn(&Vec<u64>) -> Option<[u8; 4]>,
        CI: Fn(&Vec<u64>) -> Option<Vec<u64>>,
        CJ: Fn(&Vec<u64>) -> Option<Vec<u8>>,
        CN: Fn(&Vec<u64>) -> Option<[u8; 3]>,
        CE: Fn(&Vec<u64>) -> Vec<u8>,
        CC: Fn(&Vec<u8>) -> Option<Vec<u8>>,
        M: Fn(&Stream, ImageXObject) -> Option<LumaData>,
        O: Fn(&Stream, ImageXObject) -> Option<OpenedMask>,
    >(
        self,
        preparation: &Preparation<F, U, B, E>,
        rendering: &Rendering<P, L, I, C, T>,
        sampling: &Sampling<D, X, Y, W, Z, R, G>,
        conversion: &Conversion<CT, CA, CI, CJ, CN, CE, CC>,
        masking: &Masking<M, O>,
    ) -> (result: Option<DecodedImage>)
        requires
            self.wf(),
            preparation.is_total(),
            rendering.is_total(),
            sampling.is_total(),
            conversion.is_total(),
            masking.is_total(),
        ensures
            self.image.kind != ImageKind::Image || !is_valid_mode(*self.doc, *self.dict)
                ==> result is None,
            forall|by: Rendered, of: Sampled, conv: Conversions|
                #[trigger] rendering.gives(by) && #[trigger] sampling.gives(of)
                    && #[trigger] conversion.gives(conv) && self.image.kind == ImageKind::Image
                    && is_valid_mode(*self.doc, *self.dict) && has_matte(*self.doc, *self.dict)
                    ==> self.is_unmatted(decoded_image(result), masking.open, of, conv, by),
            forall|by: Rendered, of: Sampled, conv: Conversions|
                #[trigger] rendering.gives(by) && #[trigger] sampling.gives(of)
                    && #[trigger] conversion.gives(conv) && self.image.kind == ImageKind::Image
                    && is_valid_mode(*self.doc, *self.dict) && alpha_mode(
                    *self.doc,
                    *self.dict,
                ) is Some ==> decoded_image(result) == self.embedded_image(by, of, conv),
            forall|
                to: Prepared,
                by: Rendered,
                of: Sampled,
                conv: Conversions,
                masks: spec_fn(Stream, ImageXObject) -> Option<PlaneModel>,
            |
                #[trigger] preparation.gives(to) && #[trigger] rendering.gives(by)
                    && #[trigger] sampling.gives(of) && #[trigger] conversion.gives(conv)
                    && #[trigger] decodes_masks(masking.mask, masks) && self.image.kind
                    == ImageKind::Image && is_valid_mode(*self.doc, *self.dict) && !has_matte(
                    *self.doc,
                    *self.dict,
                ) && alpha_mode(*self.doc, *self.dict) is None ==> decoded_image(result)
                    == self.decoded(to, by, of, conv, masks),
    {
        if self.image.kind.is_mask() || !has_valid_mode(self.doc, self.dict) {
            return None;
        }
        match embedded_alpha_mode(self.doc, self.dict) {
            Some(mode) => {
                return self.decode_embedded(mode, rendering, sampling, conversion);
            },
            None => {},
        }
        if has_soft_mask_matte(self.doc, self.dict) {
            return self.decode_matte(rendering, sampling, conversion, masking);
        }
        let mut decoder = self;
        let image = match decoder.decode_image(preparation, rendering, sampling, conversion) {
            Some(image) => image,
            None => {
                return None;
            },
        };
        let alpha = decoder.decode_alpha_without_matte(preparation, &masking.mask);
        Some(DecodedImage { image, alpha })
    }

    /// There may be device colors: nothing modifies them.
    pub open spec fn can_be_device_cmyk(&self) -> bool {
        &&& self.image.kind == ImageKind::Image
        &&& is_valid_mode(*self.doc, *self.dict)
        &&& !self.has_transfer_function
    }

    /// The device colors are the components of the image.
    pub open spec fn is_device_cmyk(&self) -> bool {
        &&& self.space.output.kind is DeviceCmyk
        &&& !has_matte(*self.doc, *self.dict)
    }

    /// The device colors are those of tints, without a matte.
    pub open spec fn is_plain_tint(&self) -> bool {
        &&& !(self.space.output.kind is DeviceCmyk)
        &&& !has_matte(*self.doc, *self.dict)
        &&& alpha_mode(*self.doc, *self.dict) is None
    }

    /// The device colors are those of tints that are preblended with a matte.
    pub open spec fn is_matted_tint(&self) -> bool {
        &&& !(self.space.output.kind is DeviceCmyk)
        &&& has_matte(*self.doc, *self.dict)
    }

    /// Decode the device colors and the opacity of an image in device CMYK.
    ///
    /// There is a result only without a transfer function, and when the image resolves directly
    /// to `DeviceCMYK` without a matte, or is made of tints whose alternate space is
    /// `DeviceCMYK`. `conversion` is as in [`decode`](Self::decode).
    pub fn decode_device_cmyk<
        F: Fn(&Vec<u8>, u32, u32, usize) -> Option<(Vec<u8>, u32)>,
        U: Fn(&Vec<u8>, u32, u32, usize, u8) -> Option<Vec<u16>>,
        B: Fn(&SampleContext) -> Option<Vec<u8>>,
        E: Fn(&EmbeddedPixel, bool) -> Vec<u8>,
        D: Fn(&Vec<u32>) -> Vec<u64>,
        X: Fn(u64) -> u8,
        Y: Fn(&Vec<u8>) -> Vec<u64>,
        W: Fn(&Vec<u32>) -> Vec<u64>,
        Z: Fn(&SampleContext, u32) -> (u64, u8),
        R: Fn(&Vec<u64>, &Vec<u64>, u64) -> Vec<u64>,
        G: Fn(&EmbeddedPixel, bool) -> Vec<u64>,
        CT: Fn(u64) -> u8,
        CA: Fn(&Vec<u64>) -> Option<[u8; 4]>,
        CI: Fn(&Vec<u64>) -> Option<Vec<u64>>,
        CJ: Fn(&Vec<u64>) -> Option<Vec<u8>>,
        CN: Fn(&Vec<u64>) -> Option<[u8; 3]>,
        CE: Fn(&Vec<u64>) -> Vec<u8>,
        CC: Fn(&Vec<u8>) -> Option<Vec<u8>>,
        M: Fn(&Stream, ImageXObject) -> Option<LumaData>,
        O: Fn(&Stream, ImageXObject) -> Option<OpenedMask>,
    >(
        self,
        preparation: &Preparation<F, U, B, E>,
        sampling: &Sampling<D, X, Y, W, Z, R, G>,
        conversion: &Conversion<CT, CA, CI, CJ, CN, CE, CC>,
        masking: &Masking<M, O>,
    ) -> (result: Option<DecodedCmykImage>)
        requires
            self.wf(),
            preparation.is_total(),
            sampling.is_total(),
            conversion.is_total(),
            masking.is_total(),
        ensures
            !self.can_be_device_cmyk() || !(self.is_device_cmyk() || self.is_plain_tint()
                || self.is_matted_tint()) ==> result is None,
            forall|
                to: Prepared,
                masks: spec_fn(Stream, ImageXObject) -> Option<PlaneModel>,
            |
                #[trigger] preparation.gives(to) && #[trigger] decodes_masks(masking.mask, masks)
                    && self.can_be_device_cmyk() && self.is_device_cmyk() ==> decoded_planes(result)
                    == match self.components(to) {
                    Some(rows) => Some(
                        DecodedPlanes {
                            image: self.plane_of(rows.data, rows.height),
                            alpha: self.opacity(self.remains(to), to, masks),
                        },
                    ),
                    None => None,
                },
            forall|
                to: Prepared,
                of: Sampled,
                conv: Conversions,
                masks: spec_fn(Stream, ImageXObject) -> Option<PlaneModel>,
            |
                #[trigger] preparation.gives(to) && #[trigger] sampling.gives(of)
                    && #[trigger] conversion.gives(conv) && #[trigger] decodes_masks(
                    masking.mask,
                    masks,
                ) && self.can_be_device_cmyk() && self.is_plain_tint() ==> decoded_planes(result)
                    == self.plain_tints(to, of, conv, masks),
            forall|of: Sampled, conv: Conversions|
                #[trigger] sampling.gives(of) && #[trigger] conversion.gives(conv)
                    && self.can_be_device_cmyk() && self.is_matted_tint()
                    ==> self.is_unmatted_cmyk(decoded_planes(result), masking.open, of, conv),
    {
        if self.image.kind != ImageKind::Image || !has_valid_mode(self.doc, self.dict)
            || self.has_transfer_function {
            return None;
        }
        let device_cmyk = match self.space.output.kind {
            ColorSpaceKind::DeviceCmyk => true,
            _ => false,
        };
        if has_soft_mask_matte(self.doc, self.dict) {
            if device_cmyk {
                return None;
            }
            let (output, alpha) = match self.recover_output(
                sampling,
                conversion,
                masking,
                ColorTarget::Cmyk,
            ) {
                Some(recovered) => recovered,
                None => {
                    return None;
                },
            };
            return match self.finish_device(output) {
                Some(image) => Some(DecodedCmykImage { image, alpha: Some(alpha) }),
                None => None,
            };
        }
        if device_cmyk {
            let mut decoder = self;
            let data = match decoder.decode_components(preparation) {
                Some(data) => data,
                None => {
                    return None;
                },
            };
            let image = CmykData {
                data,
                width: decoder.context.width,
                height: decoder.context.height,
                interpolate: decoder.image.interpolate,
                scale_factors: decoder.scale_factors,
            };
            let alpha = decoder.decode_alpha_without_matte(preparation, &masking.mask);
            return Some(DecodedCmykImage { image, alpha });
        }
        if embedded_alpha_mode(self.doc, self.dict).is_some() {
            return None;
        }
        let output = match self.decode_tints(sampling, conversion, ColorTarget::Cmyk) {
            Some(output) => output,
            None => {
                return None;
            },
        };
        let image = match self.finish_device(output) {
            Some(image) => image,
            None => {
                return None;
            },
        };
        let alpha = self.decode_alpha_without_matte(preparation, &masking.mask);
        Some(DecodedCmykImage { image, alpha })
    }

    /// The image in the device space that is the alternate of its tints, and its opacity.
    pub open spec fn plain_tints(
        &self,
        to: Prepared,
        of: Sampled,
        conv: Conversions,
        masks: spec_fn(Stream, ImageXObject) -> Option<PlaneModel>,
    ) -> Option<DecodedPlanes> {
        match self.tint_output(of, conv, ColorTarget::Cmyk) {
            None => None,
            Some(output) => match self.device_plane(output) {
                Some(image) => Some(
                    DecodedPlanes { image, alpha: self.opacity(self.untouched(), to, masks) },
                ),
                None => None,
            },
        }
    }

    fn finish_device(&self, output: ColorOutput) -> (image: Option<CmykData>)
        ensures
            match self.device_plane(output@) {
                Some(expected) => image matches Some(image) && image@ == expected,
                None => image is None,
            },
    {
        match output.finish_cmyk(self.has_transfer_function) {
            None => None,
            Some(data) => Some(
                CmykData {
                    data,
                    width: self.context.width,
                    height: self.context.height,
                    interpolate: self.image.interpolate,
                    scale_factors: self.scale_factors,
                },
            ),
        }
    }
}

/// An opacity that cannot be decoded keeps no image from being decoded, and no opacity changes the
/// colors.
pub proof fn lemma_opacity_keeps_colors(
    decoder: ImageDecoder,
    to: Prepared,
    by: Rendered,
    of: Sampled,
    conv: Conversions,
    first: spec_fn(Stream, ImageXObject) -> Option<PlaneModel>,
    second: spec_fn(Stream, ImageXObject) -> Option<PlaneModel>,
)
    ensures
        decoder.decoded(to, by, of, conv, first) is Some == decoder.colors(to, by, of, conv)
            is Some,
        decoder.decoded(to, by, of, conv, first) matches Some(decoded) ==> Some(decoded.image)
            == decoder.colors(to, by, of, conv) && decoded.image == decoder.decoded(
            to,
            by,
            of,
            conv,
            second,
        )->0.image,
{
}

/// A mask in a stream takes precedence over a color key: then the samples do not matter to the
/// opacity.
pub proof fn lemma_mask_precedes_key(
    decoder: ImageDecoder,
    first: Remains,
    second: Remains,
    to: Prepared,
    masks: spec_fn(Stream, ImageXObject) -> Option<PlaneModel>,
)
    requires
        alpha_mode(*decoder.doc, *decoder.dict) is None,
        mask_stream(*decoder.doc, *decoder.dict) is Some,
    ensures
        decoder.opacity(first, to, masks) == decoder.opacity(second, to, masks),
{
}

} // verus!
