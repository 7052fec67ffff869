use hayro_core::function::numeric::Interval;
use hayro_core::image::decoder::{
    DecodedImage, ImageDecoder, ImageSpace, Masking, OpenedMask, Preparation, Rendering,
};
use hayro_core::image::dictionary::{ImageKind, ImageXObject};
use hayro_core::image::embedded::{
    components, ChannelSamples, EmbeddedPixel, EmbeddedSamples, JpxSamples,
};
use hayro_core::image::output::{Conversion, OutputSpace};
use hayro_core::image::samples::SampleContext;
use hayro_core::image::sampling::Sampling;
use hayro_core::object::{
    Array, Dict, Document, Entry, MaybeRef, Number, Object, ObjectIdentifier, Stream,
};
use hayro_core::types::{
    ColorSpaceKind, EmbeddedImageAlphaMode, ImageColorSpaceProperties, ImageData, LumaData,
    ScaleFactors,
};
use hayro_core::x_object::pattern::{
    Degenerate, IntentEffect, Pattern, Rectangle, TransferEffect,
};
use hayro_core::x_object::raster::Image;
use hayro_syntax::object as syntax;
use hayro_syntax::object::FromBytes;

fn number(number: syntax::Number) -> Number {
    Number {
        integer: number.to_string().parse().ok(),
        truncated: number.as_i64(),
        single: number.as_f32().to_bits(),
        narrowed: (number.as_f64() as f32).to_bits(),
        double: number.as_f64().to_bits(),
    }
}

fn dict(dict: &syntax::Dict<'_>) -> Dict {
    Dict {
        entries: dict
            .entries()
            .map(|(key, value)| Entry {
                key: key.to_vec(),
                value: maybe_ref(value),
            })
            .collect(),
    }
}

fn maybe_ref(value: syntax::MaybeRef<syntax::Object<'_>>) -> MaybeRef {
    match value {
        syntax::MaybeRef::Ref(reference) => MaybeRef::Ref(ObjectIdentifier {
            obj_number: i32::try_from(reference.obj_number).unwrap(),
            gen_number: reference.gen_number,
        }),
        syntax::MaybeRef::NotRef(value) => MaybeRef::NotRef(object(value)),
    }
}

fn stream(stream: &syntax::Stream<'_>) -> Stream {
    Stream {
        dict: dict(stream.dict()),
        data: stream.decoded().ok().map(|data| data.into_owned()),
    }
}

fn object(value: syntax::Object<'_>) -> Object {
    match value {
        syntax::Object::Null(_) => Object::Null,
        syntax::Object::Boolean(value) => Object::Boolean(value),
        syntax::Object::Number(value) => Object::Number(number(value)),
        syntax::Object::String(value) => Object::String(value.as_bytes().to_vec()),
        syntax::Object::Name(value) => Object::Name(value.to_vec()),
        syntax::Object::Dict(value) => Object::Dict(dict(&value)),
        syntax::Object::Array(value) => Object::Array(Array {
            items: value.raw_iter().map(maybe_ref).collect(),
        }),
        syntax::Object::Stream(value) => Object::Stream(stream(&value)),
    }
}

/// A document without indirect objects.
fn no_objects() -> Document {
    Document {
        objects: Vec::new(),
        root: ObjectIdentifier { obj_number: 0, gen_number: 0 },
    }
}

fn read_object(source: &[u8]) -> Object {
    object(syntax::Object::from_bytes(source).unwrap())
}

fn read_dict(source: &[u8]) -> Dict {
    match read_object(source) {
        Object::Dict(dict) => dict,
        _ => panic!("dictionary"),
    }
}

fn unit() -> ScaleFactors {
    ScaleFactors { x: 1.0_f32.to_bits(), y: 1.0_f32.to_bits() }
}

fn interval(low: f32, high: f32) -> Interval {
    Interval { low: low.to_bits(), high: high.to_bits() }
}

fn context(width: u32, height: u32, decode: &[(f32, f32)], data: &[u8]) -> SampleContext {
    SampleContext {
        width,
        height,
        components: decode.len(),
        bits_per_component: 8,
        decode: decode.iter().map(|&(low, high)| interval(low, high)).collect(),
        data: data.to_vec(),
    }
}

fn raster(width: u32, height: u32) -> ImageXObject {
    ImageXObject {
        width,
        height,
        color_space_properties: ImageColorSpaceProperties {
            has_color_space: true,
            declared_color_space_kind: None,
            color_space_kind: None,
            color_space_components: None,
            color_space_default_overridden: false,
        },
        interpolate: true,
        kind: ImageKind::Image,
    }
}

struct Setup {
    kind: ColorSpaceKind,
    ranges: Vec<(f32, f32)>,
    alpha: Option<Vec<u8>>,
    jpx_samples: Option<JpxSamples>,
    has_transfer_function: bool,
    transfers_channels: bool,
}

fn setup(kind: ColorSpaceKind, components: usize) -> Setup {
    Setup {
        kind,
        ranges: vec![(0.0, 1.0); components],
        alpha: None,
        jpx_samples: None,
        has_transfer_function: false,
        transfers_channels: false,
    }
}

fn open<'a>(
    document: &'a Document,
    dict: &'a Dict,
    image: ImageXObject,
    context: SampleContext,
    setup: Setup,
) -> ImageDecoder<'a> {
    ImageDecoder::new(
        document,
        dict,
        image,
        context,
        unit(),
        ImageSpace {
            output: OutputSpace {
                kind: setup.kind,
                components: setup.ranges.len(),
                device_alternate: None,
                is_all_colorants: false,
                uses_tint_transform: setup.kind == ColorSpaceKind::Separation,
                icc_components: None,
            },
            ranges: setup.ranges.iter().map(|&(low, high)| interval(low, high)).collect(),
            index_decode: None,
            indexed: None,
        },
        setup.alpha,
        setup.jpx_samples,
        setup.has_transfer_function,
        setup.transfers_channels,
    )
}

/// Rows are completed with zeros.
fn fix(data: &Vec<u8>, width: u32, height: u32, components: usize) -> Option<(Vec<u8>, u32)> {
    if data.is_empty() {
        return None;
    }
    let mut data = data.clone();
    data.resize(width as usize * height as usize * components, 0);
    Some((data, height))
}

fn unpack(data: &Vec<u8>, _: u32, _: u32, _: usize, bits: u8) -> Option<Vec<u16>> {
    (bits == 8).then(|| data.iter().map(|byte| u16::from(*byte)).collect())
}

/// Samples are halved, as a decode map to the lower half of a range does.
fn narrow(context: &SampleContext) -> Option<Vec<u8>> {
    Some(context.data.iter().map(|byte| byte / 2).collect())
}

/// Associated colors are divided by the opacity.
fn unassociated(pixel: &EmbeddedPixel, premultiplied: bool) -> Vec<f64> {
    let alpha = f64::from(f32::from_bits(pixel.alpha));
    pixel
        .colors
        .iter()
        .map(|color| {
            let color = f64::from(f32::from_bits(*color));
            (if premultiplied { color * 255.0 / alpha } else { color }).clamp(0.0, 255.0) / 255.0
        })
        .collect()
}

fn byte(value: f64) -> u8 {
    (value * 255.0).round() as u8
}

fn encode(pixel: &EmbeddedPixel, premultiplied: bool) -> Vec<u8> {
    unassociated(pixel, premultiplied).into_iter().map(byte).collect()
}

fn pixel(samples: &Vec<u32>) -> Option<Vec<u8>> {
    Some(samples.iter().map(|sample| *sample as u8 ^ 1).collect())
}

fn triple(data: &Vec<u8>, width: u32, height: u32) -> Option<Vec<u8>> {
    (data.len() == (width * height) as usize)
        .then(|| data.iter().flat_map(|byte| [*byte; 3]).collect())
}

fn complement(data: &Vec<u8>) -> Vec<u8> {
    data.iter().map(|byte| 255 - byte).collect()
}

fn mask(stream: &Stream, image: ImageXObject) -> Option<LumaData> {
    let data = stream.data.as_ref()?.as_slice().to_vec();
    (!data.is_empty()).then_some(LumaData {
        data,
        width: image.width,
        height: image.height,
        interpolate: image.interpolate,
        scale_factors: unit(),
    })
}

fn open_mask(stream: &Stream, image: ImageXObject) -> Option<OpenedMask> {
    Some(OpenedMask {
        context: context(
            image.width,
            image.height,
            &[(0.0, 1.0)],
            stream.data.as_ref()?.as_slice(),
        ),
        has_alpha: false,
        scale_factors: unit(),
    })
}

fn reals(values: &[u64]) -> Vec<f64> {
    values.iter().map(|bits| f64::from_bits(*bits)).collect()
}

fn bits(values: Vec<f64>) -> Vec<u64> {
    values.into_iter().map(f64::to_bits).collect()
}

/// Samples are divided by the opacity, away from the matte.
fn recover(values: &Vec<u64>, matte: &Vec<u64>, opacity: u64) -> Vec<u64> {
    let alpha = f64::from_bits(opacity);
    let values = reals(values).into_iter().zip(reals(matte)).map(|(value, matte)| {
        let value = if alpha == 0.0 { matte } else { matte + (value - matte) / alpha };
        value.clamp(0.0, 1.0)
    });
    bits(values.collect())
}

fn decode_samples(samples: &Vec<u32>) -> Vec<u64> {
    bits(samples.iter().map(|sample| f64::from(*sample) / 255.0).collect())
}

fn widen(matte: &Vec<u32>) -> Vec<u64> {
    bits(matte.iter().map(|bits| f64::from(f32::from_bits(*bits))).collect())
}

fn opacity(_: &SampleContext, sample: u32) -> (u64, u8) {
    ((f64::from(sample) / 255.0).to_bits(), sample as u8)
}

fn native(values: &Vec<u64>) -> Option<[u8; 3]> {
    let bytes: Vec<u8> = reals(values).into_iter().map(byte).collect();
    match bytes.as_slice() {
        [gray] => Some([*gray; 3]),
        [red, green, blue] => Some([*red, *green, *blue]),
        _ => None,
    }
}

fn decode_with<'a>(
    decoder: ImageDecoder<'a>,
    luma: impl Fn(&Vec<u8>) -> Option<Vec<u8>>,
    in_place: impl Fn(&Vec<u8>) -> Option<Vec<u8>>,
) -> Option<DecodedImage> {
    decoder.decode(
        &Preparation { fix, unpack, narrow, embedded: encode },
        &Rendering { pixel, luma, in_place, convert: triple, transfer: complement },
        &Sampling {
            decode: decode_samples,
            index: |_: u64| 0,
            entry: |_: &Vec<u8>| Vec::new(),
            widen,
            opacity,
            recover,
            embedded: |pixel: &EmbeddedPixel, premultiplied: bool| {
                bits(unassociated(pixel, premultiplied))
            },
        },
        &Conversion {
            tint: |_: u64| 0,
            alternate: |_: &Vec<u64>| None,
            icc_components: |_: &Vec<u64>| None,
            convert_icc: |_: &Vec<u64>| None,
            native,
            encode: |values: &Vec<u64>| reals(values).into_iter().map(byte).collect(),
            convert: |data: &Vec<u8>| Some(data.iter().map(|byte| byte / 2).collect()),
        },
        &Masking { mask, open: open_mask },
    )
}

fn decode(decoder: ImageDecoder<'_>) -> Option<DecodedImage> {
    let gray = decoder.space.output.kind == ColorSpaceKind::DeviceGray;
    decode_with(
        decoder,
        |data: &Vec<u8>| gray.then(|| data.clone()),
        |data: &Vec<u8>| (!gray).then(|| data.clone()),
    )
}

fn luma(image: &ImageData) -> &[u8] {
    match image {
        ImageData::Luma(luma) => &luma.data,
        ImageData::Rgb(_) => panic!("luma"),
    }
}

fn rgb(image: &ImageData) -> &[u8] {
    match image {
        ImageData::Rgb(rgb) => &rgb.data,
        ImageData::Luma(_) => panic!("rgb"),
    }
}

#[test]
fn color_keys_are_applied_to_samples_before_decode_maps() {
    let document = no_objects();
    let dict = read_dict(b"<< /Mask [10 20] >>");
    // Inverted samples are components already; the key is compared with the samples.
    let decoded = decode(open(
        &document,
        &dict,
        raster(3, 1),
        context(3, 1, &[(1.0, 0.0)], &[15, 200, 20]),
        setup(ColorSpaceKind::DeviceGray, 1),
    ))
    .unwrap();
    assert_eq!(luma(&decoded.image), [240, 55, 235]);
    let alpha = decoded.alpha.unwrap();
    assert_eq!(alpha.data, [0, 255, 0]);
    assert!(alpha.interpolate);
    // Samples that need a map stay, and the key is applied afterwards.
    let decoded = decode(open(
        &document,
        &dict,
        raster(3, 1),
        context(3, 1, &[(0.0, 0.5)], &[15, 200, 20]),
        setup(ColorSpaceKind::DeviceGray, 1),
    ))
    .unwrap();
    assert_eq!(luma(&decoded.image), [7, 100, 10]);
    assert_eq!(decoded.alpha.unwrap().data, [0, 255, 0]);
}

#[test]
fn transfer_functions_for_channels_need_rgb_colors() {
    let document = no_objects();
    let dict = read_dict(b"<< >>");
    let image = |transfers_channels: bool| {
        let decoder = open(
            &document,
            &dict,
            raster(2, 1),
            context(2, 1, &[(0.0, 1.0)], &[10, 20]),
            Setup {
                has_transfer_function: true,
                transfers_channels,
                ..setup(ColorSpaceKind::DeviceGray, 1)
            },
        );
        decode(decoder).unwrap().image
    };
    assert_eq!(luma(&image(false)), [245, 235]);
    assert_eq!(rgb(&image(true)), [245, 245, 245, 235, 235, 235]);
}

#[test]
fn masks_in_streams_take_precedence_and_may_fail() {
    let document = no_objects();
    let source = |mask: &str| {
        let Object::Stream(stream) = read_object(
            format!("<< /Width 2 /Height 1 /Length {} >> stream\n{mask}\nendstream", mask.len())
                .as_bytes(),
        ) else {
            panic!("stream")
        };
        let mut dict = read_dict(b"<< >>");
        dict.entries.push(Entry {
            key: b"SMask".to_vec(),
            value: MaybeRef::NotRef(Object::Stream(stream)),
        });
        dict.entries.push(Entry {
            key: b"Mask".to_vec(),
            value: MaybeRef::NotRef(read_object(b"[0 255]")),
        });
        dict
    };
    let image = |mask: &str| {
        let dict = source(mask);
        let decoder = open(
            &document,
            &dict,
            raster(2, 1),
            context(2, 1, &[(0.0, 1.0)], &[10, 20]),
            setup(ColorSpaceKind::DeviceGray, 1),
        );
        decode(decoder).unwrap()
    };
    assert_eq!(image("AB").alpha.unwrap().data, b"AB");
    let without = image("");
    assert!(without.alpha.is_none());
    assert_eq!(luma(&without.image), [10, 20]);
}

#[test]
fn embedded_opacity_is_undone_whatever_the_matte() {
    let document = no_objects();
    let channel = |samples: [f32; 2]| ChannelSamples {
        samples: samples.iter().map(|sample| sample.to_bits()).collect(),
        bits_per_component: 8,
    };
    let decoded = |entries: &str, alpha: Option<Vec<u8>>, removed: bool| {
        let dict = read_dict(entries.as_bytes());
        let jpx_samples = alpha.as_ref().map(|_| JpxSamples {
            components: vec![channel([60.0, 90.0]), channel([51.0, 255.0])],
            premultiplication_removed: removed,
        });
        let decoder = open(
            &document,
            &dict,
            raster(2, 1),
            context(2, 1, &[(0.0, 1.0)], &[60, 90]),
            Setup { alpha, jpx_samples, ..setup(ColorSpaceKind::DeviceGray, 1) },
        );
        decode(decoder)
    };
    let alpha = || Some(vec![51, 255]);
    let jpx = "/Filter /JPXDecode /SMaskInData";
    let plain = decoded(&format!("<< {jpx} 1 >>"), alpha(), false).unwrap();
    assert_eq!(luma(&plain.image), [60, 90]);
    assert_eq!(plain.alpha.unwrap().data, [51, 255]);
    for matte in ["", "/Matte [0.2]", "/Matte [0.2 0.2]", "/Matte /None"] {
        let undone = decoded(&format!("<< {jpx} 2 {matte} >>"), alpha(), false).unwrap();
        assert_eq!(luma(&undone.image), [255, 90]);
        let alpha = undone.alpha.unwrap();
        assert_eq!(alpha.data, [51, 255]);
        assert!(alpha.interpolate);
    }
    // The association may have been undone before.
    let removed = decoded(&format!("<< {jpx} 2 >>"), alpha(), true).unwrap();
    assert_eq!(luma(&removed.image), [60, 90]);
    // An opacity channel is required, and a mode that there is.
    assert!(decoded(&format!("<< {jpx} 2 >>"), None, false).is_none());
    assert!(decoded(&format!("<< {jpx} 3 >>"), alpha(), false).is_none());
}

#[test]
fn lab_colors_are_decoded_without_narrowing() {
    let document = no_objects();
    let lab = |dict: &Dict| {
        let decoder = open(
            &document,
            dict,
            raster(1, 1),
            context(1, 1, &[(0.0, 100.0), (-50.0, 50.0), (-50.0, 50.0)], &[50, 60, 70]),
            Setup {
                ranges: vec![(0.0, 100.0), (-50.0, 50.0), (-50.0, 50.0)],
                ..setup(ColorSpaceKind::Lab, 3)
            },
        );
        decode(decoder)
    };
    let exact = lab(&read_dict(b"<< /BitsPerComponent 8 >>")).unwrap();
    assert_eq!(rgb(&exact.image), [51, 61, 71]);
    assert!(exact.alpha.is_none());
    let keyed = lab(&read_dict(b"<< /Mask [50 50 60 60 70 70] >>")).unwrap();
    assert_eq!(rgb(&keyed.image), [50, 60, 70]);
    assert_eq!(keyed.alpha.unwrap().data, [0]);
    assert!(lab(&read_dict(b"<< /Decode [0 100] >>")).is_none());
}

#[test]
fn device_cmyk_is_put_out_only_unmodified() {
    let document = no_objects();
    let dict = read_dict(b"<< /Mask [1 1 2 2 3 3 4 4] >>");
    let decoded = |kind: ColorSpaceKind, has_transfer_function: bool, image: ImageXObject| {
        open(
            &document,
            &dict,
            image,
            context(2, 1, &[(0.0, 1.0); 4], &[1, 2, 3, 4, 5, 6, 7, 8]),
            Setup { has_transfer_function, ..setup(kind, 4) },
        )
        .decode_device_cmyk(
            &Preparation { fix, unpack, narrow, embedded: encode },
            &Sampling {
                decode: decode_samples,
                index: |_: u64| 0,
                entry: |_: &Vec<u8>| Vec::new(),
                widen,
                opacity,
                recover,
                embedded: |_: &EmbeddedPixel, _: bool| Vec::new(),
            },
            &Conversion {
                tint: |_: u64| 0,
                alternate: |_: &Vec<u64>| None,
                icc_components: |_: &Vec<u64>| None,
                convert_icc: |_: &Vec<u64>| None,
                native,
                encode: |_: &Vec<u64>| Vec::new(),
                convert: |_: &Vec<u8>| None,
            },
            &Masking { mask, open: open_mask },
        )
    };
    let cmyk = decoded(ColorSpaceKind::DeviceCmyk, false, raster(2, 1)).unwrap();
    assert_eq!(cmyk.image.data, [1, 2, 3, 4, 5, 6, 7, 8]);
    assert_eq!((cmyk.image.width, cmyk.image.height), (2, 1));
    assert_eq!(cmyk.alpha.unwrap().data, [0, 255]);
    assert!(decoded(ColorSpaceKind::IccBased, false, raster(2, 1)).is_none());
    assert!(decoded(ColorSpaceKind::DeviceCmyk, true, raster(2, 1)).is_none());
    let stencil = ImageXObject { kind: ImageKind::StencilMask, ..raster(2, 1) };
    assert!(decoded(ColorSpaceKind::DeviceCmyk, false, stencil).is_none());
}

fn matte_dict(mask: &[u8], entries: &str) -> Dict {
    let mut source = format!(
        "<< /Subtype /Image /Width 2 /Height 1 /ColorSpace /DeviceGray /BitsPerComponent 8 \
         {entries} /Length {} >> stream\n",
        mask.len()
    )
    .into_bytes();
    source.extend(mask);
    source.extend(b"\nendstream");
    let value = MaybeRef::NotRef(read_object(&source));
    Dict { entries: vec![Entry { key: b"SMask".to_vec(), value }] }
}

#[test]
fn mattes_are_undone_before_conversion() {
    let document = no_objects();
    let decoded = |dict: &Dict, setup: Setup| {
        let components = setup.ranges.len();
        let data: Vec<u8> = [60, 90].iter().flat_map(|byte| vec![*byte; components]).collect();
        let decode = vec![(0.0, 1.0); components];
        decode_as_components(open(&document, dict, raster(2, 1), context(2, 1, &decode, &data), setup))
    };
    let dict = matte_dict(&[51, 255], "/Matte [0.2]");
    let gray = decoded(&dict, setup(ColorSpaceKind::DeviceGray, 1)).unwrap();
    assert_eq!(luma(&gray.image), [96, 90]);
    let alpha = gray.alpha.unwrap();
    assert_eq!(alpha.data, [51, 255]);
    // The mask and the image are interpolated independently.
    assert!(!alpha.interpolate);
    let channels = Setup {
        has_transfer_function: true,
        transfers_channels: true,
        ..setup(ColorSpaceKind::DeviceGray, 1)
    };
    let transferred = decoded(&dict, channels).unwrap();
    assert_eq!(rgb(&transferred.image), [159, 159, 159, 165, 165, 165]);
    // Tints are converted without narrowing.
    let separation = decoded(&dict, setup(ColorSpaceKind::Separation, 1)).unwrap();
    assert_eq!(rgb(&separation.image), [96, 96, 96, 90, 90, 90]);
    // The components of other spaces are converted together.
    let matte = matte_dict(&[51, 255], "/Matte [0 0 0 0]");
    let cmyk = decoded(&matte, setup(ColorSpaceKind::DeviceCmyk, 4)).unwrap();
    assert_eq!(rgb(&cmyk.image), [127, 127, 127, 127, 45, 45, 45, 45]);
    // The matte has a component for each of the image.
    assert!(decoded(&dict, setup(ColorSpaceKind::DeviceRgb, 3)).is_none());
    let outside = matte_dict(&[51, 255], "/Matte [1.5]");
    assert!(decoded(&outside, setup(ColorSpaceKind::DeviceGray, 1)).is_none());
    // There is one opacity for each pixel.
    let short = matte_dict(&[51], "/Matte [0.2]");
    assert!(decoded(&short, setup(ColorSpaceKind::DeviceGray, 1)).is_none());
    // Opacity that came with the samples leaves no room for a soft mask.
    let embedded =
        Setup { alpha: Some(vec![51, 255]), ..setup(ColorSpaceKind::DeviceGray, 1) };
    assert!(decoded(&dict, embedded).is_none());
}

fn decode_as_components(decoder: ImageDecoder<'_>) -> Option<DecodedImage> {
    decode_with(decoder, |data: &Vec<u8>| Some(data.clone()), |_: &Vec<u8>| None)
}

#[test]
fn masks_have_no_colors() {
    let document = no_objects();
    let dict = read_dict(b"<< >>");
    for kind in [ImageKind::Mask, ImageKind::StencilMask] {
        let decoder = open(
            &document,
            &dict,
            ImageXObject { kind, ..raster(1, 1) },
            context(1, 1, &[(0.0, 1.0)], &[1]),
            setup(ColorSpaceKind::DeviceGray, 1),
        );
        assert!(decode(decoder).is_none());
    }
    // An image without samples cannot be decoded either.
    let decoder = open(
        &document,
        &dict,
        raster(1, 1),
        context(1, 1, &[(0.0, 1.0)], &[]),
        setup(ColorSpaceKind::DeviceGray, 1),
    );
    assert!(decode(decoder).is_none());
}

#[test]
fn embedded_components_are_encoded_pixel_by_pixel() {
    let channel = |samples: &[f32]| ChannelSamples {
        samples: samples.iter().map(|sample| sample.to_bits()).collect(),
        bits_per_component: 8,
    };
    let encode = |pixel: &EmbeddedPixel| {
        let alpha = f32::from_bits(pixel.alpha);
        pixel
            .colors
            .iter()
            .map(|color| (f32::from_bits(*color) * 255.0 / alpha).min(255.0) as u8)
            .collect::<Vec<u8>>()
    };
    let source = JpxSamples {
        components: vec![channel(&[10.0, 20.0]), channel(&[30.0, 40.0]), channel(&[51.0, 255.0])],
        premultiplication_removed: false,
    };
    let decode = vec![interval(0.0, 1.0), interval(0.0, 1.0)];
    let mode = EmbeddedImageAlphaMode::Premultiplied;
    let samples = EmbeddedSamples::new(&source, mode, 2, 1, 2, &decode).unwrap();
    assert_eq!(components(&samples, &encode), Some(vec![50, 150, 20, 40]));
    let source = JpxSamples {
        components: vec![channel(&[10.0, f32::NAN]), channel(&[51.0, 255.0])],
        premultiplication_removed: false,
    };
    let samples = EmbeddedSamples::new(&source, mode, 2, 1, 1, &decode[..1].to_vec()).unwrap();
    assert_eq!(components(&samples, &encode), None);
}

#[test]
fn patterns_are_dictionaries_or_streams() {
    let document = no_objects();
    let degenerate = Degenerate {
        step: |bits: u32| f32::from_bits(bits).abs() < 1.0e-6,
        area: |_: Rectangle| false,
    };
    let shading = read_object(
        b"<< /PatternType 2 /Shading << /ShadingType 2 >> /Matrix [2 0 0 2 5 6] >>",
    );
    let pattern = Pattern::new(&document, &shading, &degenerate).unwrap();
    assert_eq!(pattern.select_intent(), IntentEffect::Convert);
    assert_eq!(pattern.select_transfer(true, true), TransferEffect::Nothing);
    let Pattern::Shading(pattern) = pattern else { panic!("shading") };
    let matrix = pattern.matrix.unwrap();
    assert_eq!(
        [matrix.a, matrix.b, matrix.c, matrix.d, matrix.e, matrix.f],
        [2.0, 0.0, 0.0, 2.0, 5.0, 6.0].map(f64::to_bits)
    );
    let tiling = |paint_type: u8| {
        read_object(
            format!(
                "<< /BBox [0 0 5 5] /XStep 5 /YStep 5 /PaintType {paint_type} /TilingType 1 \
                 /Length 0 >> stream\n\nendstream"
            )
            .as_bytes(),
        )
    };
    for (paint_type, effect) in
        [(1, IntentEffect::Select), (2, IntentEffect::SelectAndConvertPaints)]
    {
        let object = tiling(paint_type);
        let pattern = Pattern::new(&document, &object, &degenerate).unwrap();
        assert_eq!(pattern.select_intent(), effect);
        let Pattern::Tiling(pattern) = pattern else { panic!("tiling") };
        assert_eq!(pattern.is_colored(), paint_type == 1);
        assert!(pattern.matrix.is_none());
    }
    assert!(Pattern::new(&document, &tiling(3), &degenerate).is_none());
    assert!(Pattern::new(&document, &read_object(b"<< >>"), &degenerate).is_none());
    assert!(Pattern::new(&document, &read_object(b"[1]"), &degenerate).is_none());
}

#[test]
fn masks_are_stencils_for_a_paint() {
    let document = no_objects();
    let Object::Stream(stream) =
        read_object(b"<< /Filter /JPXDecode /SMaskInData 1 /Length 0 >> stream\n\nendstream")
    else {
        panic!("stream")
    };
    let image = Image::new(&document, &stream, raster(3, 4), "paint");
    assert_eq!((image.width(), image.height()), (3, 4));
    let Image::Raster(image) = image else { panic!("raster") };
    assert_eq!(image.embedded_alpha_mode(), Some(EmbeddedImageAlphaMode::Unassociated));
    assert!(image.color_space_properties().has_color_space());
    assert!(image.stream().data.is_none());
    let stencil = ImageXObject { kind: ImageKind::StencilMask, ..raster(5, 6) };
    let image = Image::new(&document, &stream, stencil, "paint");
    assert_eq!((image.width(), image.height()), (5, 6));
    let Image::Stencil(image) = image else { panic!("stencil") };
    assert_eq!(image.paint, "paint");
}
