use hayro_core::function::argument::{Argument, RealCall};
use hayro_core::function::definition::Function;
use hayro_core::function::eval::{Affine, Arithmetic};
use hayro_core::function::instruction::CalculatorInstruction;
use hayro_core::function::numeric::Interval;
use hayro_core::function::sampling::axis_places;
use hayro_core::function::type0::{SampledCheck, Type0};
use hayro_core::function::type2::Type2;
use hayro_core::image::alpha::unpremultiply_components as undo_components;
use hayro_core::image::decoder::{
    ImageDecoder, ImageSpace, Masking, OpenedMask, Preparation, Rendering,
};
use hayro_core::image::dictionary::{
    embedded_alpha_mode, has_mask, has_soft_mask_matte, ImageKind, ImageXObject,
};
use hayro_core::image::embedded::{
    ChannelSamples, EmbeddedPixel, EmbeddedSamples, JpxSamples,
};
use hayro_core::image::icc::decode_profile;
use hayro_core::image::output::{
    finish_colors, ColorOutput, ColorTarget, Conversion, OutputSpace, CONVERSION_BATCH_PIXELS,
};
use hayro_core::image::palette::Palette;
use hayro_core::image::rgb::{
    convert_block, convert_samples, decode_rgb, output_bytes, DecodedFloat, ImageFacts,
};
use hayro_core::image::samples::{FloatImageError, SampleContext, Samples};
use hayro_core::image::sampling::{IndexedSpace, Sampling};
use hayro_core::image::tint::{direct_invert, invert};
use hayro_core::interpret::warning::{ImageColorSpaceError, InterpreterWarning};
use hayro_core::object::{
    Array, Dict, Document, Entry, IndirectObject, MaybeRef, Number, Object, ObjectIdentifier,
    Stream,
};
use hayro_core::polled::Polled;
use hayro_core::types::{
    ColorSpaceKind, EmbeddedImageAlphaMode, ImageColorSpaceProperties, ImageData, LumaData,
    ScaleFactors,
};
use hayro_syntax::object as syntax;
use hayro_syntax::object::FromBytes;
use hayro_syntax::Pdf;
use std::cell::Cell;

fn number(number: syntax::Number) -> Number {
    Number {
        integer: number.to_string().parse().ok(),
        truncated: number.as_i64(),
        single: number.as_f32().to_bits(),
        narrowed: (number.as_f64() as f32).to_bits(),
        double: number.as_f64().to_bits(),
    }
}

fn dict(dict: &syntax::Dict<'_>) -> Dict {
    Dict {
        entries: dict
            .entries()
            .map(|(key, value)| Entry {
                key: key.to_vec(),
                value: maybe_ref(value),
            })
            .collect(),
    }
}

fn maybe_ref(value: syntax::MaybeRef<syntax::Object<'_>>) -> MaybeRef {
    match value {
        syntax::MaybeRef::Ref(reference) => MaybeRef::Ref(ObjectIdentifier {
            obj_number: i32::try_from(reference.obj_number).unwrap(),
            gen_number: reference.gen_number,
        }),
        syntax::MaybeRef::NotRef(value) => MaybeRef::NotRef(object(value)),
    }
}

fn stream(stream: &syntax::Stream<'_>) -> Stream {
    Stream {
        dict: dict(stream.dict()),
        data: stream.decoded().ok().map(|data| data.into_owned()),
    }
}

fn object(value: syntax::Object<'_>) -> Object {
    match value {
        syntax::Object::Null(_) => Object::Null,
        syntax::Object::Boolean(value) => Object::Boolean(value),
        syntax::Object::Number(value) => Object::Number(number(value)),
        syntax::Object::String(value) => Object::String(value.as_bytes().to_vec()),
        syntax::Object::Name(value) => Object::Name(value.to_vec()),
        syntax::Object::Dict(value) => Object::Dict(dict(&value)),
        syntax::Object::Array(value) => Object::Array(Array {
            items: value.raw_iter().map(maybe_ref).collect(),
        }),
        syntax::Object::Stream(value) => Object::Stream(stream(&value)),
    }
}

/// A document without indirect objects.
fn no_objects() -> Document {
    Document {
        objects: Vec::new(),
        root: ObjectIdentifier { obj_number: 0, gen_number: 0 },
    }
}

fn read_object(source: &[u8]) -> Object {
    object(syntax::Object::from_bytes(source).unwrap())
}

fn float(bits: u32) -> f32 {
    f32::from_bits(bits)
}

fn affine64(x: f32, low: f32, high: f32, start: f32, end: f32) -> f64 {
    if x == low {
        return f64::from(start);
    }
    if x == high {
        return f64::from(end);
    }
    let [x, low, high, start, end] = [x, low, high, start, end].map(f64::from);
    sum_products([start * high, -start * x, end * x, -end * low]) / (high - low)
}

/// The sum of products that are exact, without losing small ones to cancellation.
fn sum_products(terms: [f64; 4]) -> f64 {
    let mut parts = [0.0; 4];
    let mut len = 0;
    for mut value in terms {
        let mut next = 0;
        for index in 0..len {
            let term = parts[index];
            let sum = value + term;
            let virtual_term = sum - value;
            let error = (value - (sum - virtual_term)) + (term - virtual_term);
            if error != 0.0 {
                parts[next] = error;
                next += 1;
            }
            value = sum;
        }
        parts[next] = value;
        len = next + 1;
    }
    parts[..len].iter().sum()
}

fn affine(map: Affine) -> u32 {
    let [x, low, high, start, end] =
        [map.x, map.low, map.high, map.start, map.end].map(f32::from_bits);
    (affine64(x, low, high, start, end) as f32).to_bits()
}

/// Bounds the error of interpolation in double precision.
fn judge(check: SampledCheck) -> bool {
    let scale =
        32.0 * f64::EPSILON * check.terms as f64 * (1_u64 << check.cubic_axes) as f64;
    let [low, high] = [check.decode.low, check.decode.high].map(|bits| f64::from(float(bits)));
    // Between bounds of opposite signs, outputs near zero keep their offsets.
    let opposite = low.min(high) < 0.0 && low.max(high) > 0.0;
    let amplification = if opposite { 1.0 } else { (low.abs() + high.abs()).max(1.0) };
    !(scale * amplification > 1.0e-6)
}

fn log_power(function: &Type2, x: f32) -> f64 {
    let x = f64::from(x).abs();
    let logarithm = if (0.5..=1.5).contains(&x) {
        (x - 1.0).ln_1p()
    } else {
        x.ln()
    };
    f64::from_bits(function.exponent) * logarithm
}

fn numerically_bounded(function: &Type2) -> bool {
    let n = f64::from_bits(function.exponent);
    if n == 0.0 || n == 1.0 {
        return true;
    }
    let domain = function.clamper.domain[0];
    let (low, high) = (float(domain.low), float(domain.high));
    let tiny = f32::from_bits(1);
    for (start, end) in [(low, high.min(-tiny)), (low.max(tiny), high)] {
        if start > end || (start == end && start.abs() == 1.0) {
            continue;
        }
        let a = log_power(function, start);
        let b = log_power(function, end);
        let near_one = a.abs().max(b.abs()) <= 0.5;
        let magnitude = if near_one {
            a.exp_m1().abs().max(b.exp_m1().abs())
        } else {
            a.max(b).exp()
        };
        for (&c0, &c1) in function.c0.iter().zip(&function.c1) {
            let (c0, c1) = (f64::from(float(c0)), f64::from(float(c1)));
            if c0 == c1 {
                continue;
            }
            let anchor = if !near_one {
                c0
            } else if start < 0.0 && function.odd {
                2.0 * c0 - c1
            } else {
                c1
            };
            let error = 128.0
                * f64::EPSILON
                * (1.0 + a.abs().max(b.abs()).min(1024.0))
                * (anchor.abs() + (c1 - c0).abs() * magnitude).max(1.0);
            if !error.is_finite() || error > 1.0e-6 {
                return false;
            }
        }
    }
    true
}

/// Powers are monotone on either side of zero: their endpoints and zero bound every output.
fn bound(function: &Type2) -> bool {
    let domain = function.clamper.domain[0];
    numerically_bounded(function)
        && exponential(function, domain.low).is_some()
        && exponential(function, domain.high).is_some()
        && (float(domain.low) > 0.0
            || float(domain.high) < 0.0
            || exponential(function, 0).is_some())
}

fn exponential(function: &Type2, input: u32) -> Option<Vec<u32>> {
    let n = f64::from_bits(function.exponent);
    let domain = function.clamper.domain[0];
    let x = float(input).clamp(float(domain.low), float(domain.high));
    let power = |c0: f32, c1: f32| {
        let (c0, c1) = (f64::from(c0), f64::from(c1));
        let t = log_power(function, x);
        let negative = x < 0.0 && function.odd;
        if t.abs() <= 0.5 {
            if negative {
                (-(c1 - c0)).mul_add(t.exp_m1(), 2.0 * c0 - c1)
            } else {
                (c1 - c0).mul_add(t.exp_m1(), c1)
            }
        } else {
            let factor = if negative { -t.exp() } else { t.exp() };
            (c1 - c0).mul_add(factor, c0)
        }
    };
    let mut outputs = Vec::new();
    for (index, (&c0, &c1)) in function.c0.iter().zip(&function.c1).enumerate() {
        let (c0, c1) = (float(c0), float(c1));
        let output = if c0 == c1 {
            f64::from(c0)
        } else if n == 0.0 || x == 1.0 {
            f64::from(c1)
        } else if n == 1.0 {
            affine64(x, 0.0, 1.0, c0, c1)
        } else if x == 0.0 {
            f64::from(c0)
        } else {
            power(c0, c1)
        };
        if !output.is_finite() {
            return None;
        }
        let output = match &function.clamper.range {
            Some(range) => output.clamp(
                f64::from(float(range[index].low)),
                f64::from(float(range[index].high)),
            ),
            None => output,
        } as f32;
        if !output.is_finite() {
            return None;
        }
        outputs.push(output.to_bits());
    }
    Some(outputs)
}

/// The samples along an axis that an output depends on, each with its weight.
fn axis(key: f64, size: usize, cubic: bool) -> Vec<(usize, f64)> {
    let lower = key.floor() as usize;
    let t = key - lower as f64;
    let places = axis_places(lower, t == 0.0, size, cubic);
    let weights = match places.len() {
        1 => vec![1.0],
        2 => vec![1.0 - t, t],
        _ => {
            let t2 = t * t;
            let t3 = t2 * t;
            let h00 = 2.0 * t3 - 3.0 * t2 + 1.0;
            let h10 = t3 - 2.0 * t2 + t;
            let h01 = -2.0 * t3 + 3.0 * t2;
            let h11 = t3 - t2;
            vec![-0.5 * h10, h00 - 0.5 * h11, h01 + 0.5 * h10, 0.5 * h11]
        }
    };
    places.into_iter().zip(weights).collect()
}

fn interpolate(
    function: &Type0,
    axes: &[Vec<(usize, f64)>],
    coordinates: &mut Vec<usize>,
    weight: f64,
    out: &mut [f64],
) {
    let dimension = coordinates.len();
    if dimension == axes.len() {
        let offset = function.sample_offset(coordinates);
        for (output, sample) in out.iter_mut().zip(&function.table[offset..]) {
            *output += weight * f64::from(*sample);
        }
        return;
    }
    for &(index, factor) in &axes[dimension] {
        coordinates.push(index);
        interpolate(function, axes, coordinates, weight * factor, out);
        coordinates.pop();
    }
}

fn sampled(function: &Type0, input: &Vec<u32>) -> Option<Vec<u32>> {
    let mut axes = Vec::new();
    for (index, &bits) in input.iter().enumerate() {
        let size = function.sizes[index];
        if size == 1 {
            axes.push(axis(0.0, 1, function.cubic));
            continue;
        }
        let [low, high] =
            [function.domain[index].low, function.domain[index].high].map(f32::from_bits);
        let x = f64::from(float(bits).clamp(low, high));
        let (low, high) = (f64::from(low), f64::from(high));
        let [start, end] = [function.encode[index].low, function.encode[index].high]
            .map(|bits| f64::from(float(bits)));
        let key = (sum_products([start * high, -start * x, end * x, -end * low])
            / (high - low))
            .clamp(0.0, (size - 1) as f64);
        axes.push(axis(key, size, function.cubic));
    }
    let mut samples = vec![0.0; function.decode.len()];
    interpolate(function, &axes, &mut Vec::new(), 1.0, &mut samples);
    let maximum = ((1_u64 << function.bits) - 1) as f64;
    let outputs = samples.into_iter().enumerate().map(|(index, sample)| {
        let [start, end] = [function.decode[index].low, function.decode[index].high]
            .map(|bits| f64::from(float(bits)));
        let [low, high] = [function.range[index].low, function.range[index].high]
            .map(|bits| f64::from(float(bits)));
        ((start + (sample / maximum) * (end - start)).clamp(low, high) as f32).to_bits()
    });
    Some(outputs.collect())
}

fn single(argument: Argument) -> f32 {
    match argument {
        Argument::Integer(value) => value as f32,
        Argument::Float(bits) => float(bits),
        Argument::Bool(_) => 0.0,
    }
}

fn compute(call: RealCall) -> u32 {
    let result = match call {
        RealCall::Widen(value) => value as f32,
        RealCall::Unary(op, argument) => {
            let value = single(argument);
            match op {
                CalculatorInstruction::Ceiling => value.ceil(),
                CalculatorInstruction::Floor => value.floor(),
                CalculatorInstruction::Round => {
                    let lower = value.floor();
                    if value - lower >= 0.5 {
                        lower + 1.0
                    } else {
                        lower
                    }
                }
                CalculatorInstruction::Truncate => value.trunc(),
                CalculatorInstruction::Cos => value.to_radians().cos(),
                CalculatorInstruction::Sin => value.to_radians().sin(),
                CalculatorInstruction::Ln => value.ln(),
                CalculatorInstruction::Log => value.log10(),
                CalculatorInstruction::Sqrt => value.sqrt(),
                _ => value,
            }
        }
        RealCall::Binary(op, first, second) => {
            let (a, b) = (single(first), single(second));
            match op {
                CalculatorInstruction::Add => a + b,
                CalculatorInstruction::Sub => a - b,
                CalculatorInstruction::Mul => a * b,
                CalculatorInstruction::Div => a / b,
                CalculatorInstruction::Atan => a.atan2(b).to_degrees().rem_euclid(360.0),
                _ => a.abs().powf(b),
            }
        }
    };
    result.to_bits()
}

type Host = Arithmetic<
    fn(&Type0, &Vec<u32>) -> Option<Vec<u32>>,
    fn(&Type2, u32) -> Option<Vec<u32>>,
    fn(Affine) -> u32,
    fn(RealCall) -> u32,
>;

fn host() -> Host {
    Arithmetic {
        sampled,
        exponential,
        affine,
        compute,
    }
}

fn double(bits: u64) -> f64 {
    f64::from_bits(bits)
}

fn eval(function: &Function, input: &[f64]) -> Option<Vec<f64>> {
    let input = input.iter().map(|value| (*value as f32).to_bits()).collect();
    let output = function.eval(&input, &host())?;
    Some(output.into_iter().map(|bits| f64::from(float(bits))).collect())
}

fn srgb(linear: f64) -> f64 {
    if linear <= 0.003_130_8 {
        12.92 * linear
    } else {
        1.055 * linear.powf(1.0 / 2.4) - 0.055
    }
}

/// Color spaces, as far as the tests need them.
enum Space {
    Gray,
    Rgb,
    Cmyk,
    Pattern,
    CalGray {
        gamma: f64,
    },
    CalRgb {
        white: Vec<f64>,
        matrix: Vec<f64>,
    },
    /// A profile with linear gray components.
    Icc,
    /// A neutral color space with lightness.
    Lab {
        ranges: Vec<(f32, f32)>,
    },
    Tint {
        kind: ColorSpaceKind,
        components: usize,
        alternate: Box<Space>,
        function: Function,
    },
    Indexed {
        base: Box<Space>,
        palette: Palette,
    },
}

fn number_at(document: &Document, dict: &Dict, key: &str) -> Option<f64> {
    match document.lookup(dict, key) {
        Some(Object::Number(number)) => Some(double(number.double)),
        _ => None,
    }
}

fn numbers(document: &Document, array: &Array) -> Option<Vec<f64>> {
    array
        .items
        .iter()
        .map(|item| match document.resolve(item) {
            Some(Object::Number(number)) => Some(double(number.double)),
            _ => None,
        })
        .collect()
}

impl Space {
    fn parse(document: &Document, object: &Object) -> Option<Self> {
        let array = match object {
            Object::Name(name) => {
                return match name.as_slice() {
                    b"DeviceGray" => Some(Self::Gray),
                    b"DeviceRGB" => Some(Self::Rgb),
                    b"DeviceCMYK" => Some(Self::Cmyk),
                    _ => None,
                }
            }
            Object::Array(array) => array,
            _ => return None,
        };
        let item = |index: usize| document.resolve(array.items.get(index)?);
        let Some(Object::Name(family)) = item(0) else {
            return None;
        };
        match (family.as_slice(), item(1)?) {
            (b"Pattern", _) => Some(Self::Pattern),
            (b"ICCBased", Object::Stream(_)) => Some(Self::Icc),
            (b"CalGray", Object::Dict(dict)) => Some(Self::CalGray {
                gamma: number_at(document, dict, "Gamma").unwrap_or(1.0),
            }),
            (b"CalRGB", Object::Dict(dict)) => {
                let listed = |key: &str| match document.lookup(dict, key) {
                    Some(Object::Array(array)) => numbers(document, array),
                    _ => None,
                };
                Some(Self::CalRgb { white: listed("WhitePoint")?, matrix: listed("Matrix")? })
            }
            (b"Lab", Object::Dict(dict)) => {
                let ab = match document.lookup(dict, "Range") {
                    Some(Object::Array(range)) => numbers(document, range)?,
                    _ => vec![-100.0, 100.0, -100.0, 100.0],
                };
                Some(Self::Lab {
                    ranges: vec![
                        (0.0, 100.0),
                        (ab[0] as f32, ab[1] as f32),
                        (ab[2] as f32, ab[3] as f32),
                    ],
                })
            }
            (b"Separation", _) => Self::tint(document, ColorSpaceKind::Separation, 1, array),
            (b"DeviceN", Object::Array(names)) => {
                Self::tint(document, ColorSpaceKind::DeviceN, names.items.len(), array)
            }
            (b"Indexed", base) => {
                let base = Self::parse(document, base)?;
                let palette = Palette::new(document, array, base.kind(), base.components())?;
                Some(Self::Indexed { base: Box::new(base), palette })
            }
            _ => None,
        }
    }

    fn tint(
        document: &Document,
        kind: ColorSpaceKind,
        components: usize,
        array: &Array,
    ) -> Option<Self> {
        let alternate = Self::parse(document, document.resolve(&array.items[2])?)?;
        let function =
            Function::new(document, document.resolve(&array.items[3])?, &judge, &bound)?;
        Some(Self::Tint { kind, components, alternate: Box::new(alternate), function })
    }

    fn kind(&self) -> ColorSpaceKind {
        match self {
            Self::Gray => ColorSpaceKind::DeviceGray,
            Self::Rgb => ColorSpaceKind::DeviceRgb,
            Self::Cmyk => ColorSpaceKind::DeviceCmyk,
            Self::Pattern => ColorSpaceKind::Pattern,
            Self::CalGray { .. } => ColorSpaceKind::CalGray,
            Self::CalRgb { .. } => ColorSpaceKind::CalRgb,
            Self::Icc => ColorSpaceKind::IccBased,
            Self::Lab { .. } => ColorSpaceKind::Lab,
            Self::Tint { kind, .. } => *kind,
            Self::Indexed { .. } => ColorSpaceKind::Indexed,
        }
    }

    fn components(&self) -> usize {
        self.ranges().len()
    }

    fn ranges(&self) -> Vec<(f32, f32)> {
        match self {
            Self::Gray | Self::CalGray { .. } | Self::Icc => vec![(0.0, 1.0)],
            Self::Rgb | Self::CalRgb { .. } => vec![(0.0, 1.0); 3],
            Self::Cmyk => vec![(0.0, 1.0); 4],
            Self::Pattern => Vec::new(),
            Self::Lab { ranges } => ranges.clone(),
            Self::Tint { components, .. } => vec![(0.0, 1.0); *components],
            Self::Indexed { palette, .. } => vec![(0.0, f32::from(palette.last))],
        }
    }

    fn default_decode(&self, bits: u8) -> Vec<(f32, f32)> {
        match self {
            Self::Indexed { .. } => vec![(0.0, ((1_u32 << bits) - 1) as f32)],
            _ => self.ranges(),
        }
    }

    fn alternate(&self) -> Option<ColorSpaceKind> {
        match self {
            Self::Tint { alternate, .. } => match alternate.kind() {
                kind @ (ColorSpaceKind::DeviceGray
                | ColorSpaceKind::DeviceRgb
                | ColorSpaceKind::DeviceCmyk) => Some(kind),
                _ => None,
            },
            Self::Indexed { base, .. } => base.alternate(),
            _ => None,
        }
    }

    fn output(&self) -> OutputSpace {
        OutputSpace {
            kind: self.kind(),
            components: self.components(),
            device_alternate: self.alternate(),
            is_all_colorants: false,
            uses_tint_transform: match self {
                Self::Tint { .. } => true,
                Self::Indexed { base, .. } => matches!(**base, Self::Tint { .. }),
                _ => false,
            },
            icc_components: matches!(self, Self::Icc).then_some(1),
        }
    }

    /// The entry of a palette, in the ranges of its base.
    fn entry(base: &Self, palette: &Palette, index: f64) -> Vec<f64> {
        let index = index.round().clamp(0.0, f64::from(palette.last)) as u8;
        palette
            .entry(index)
            .into_iter()
            .zip(base.ranges())
            .map(|(byte, (low, high))| {
                f64::from(low) + f64::from(byte) / 255.0 * (f64::from(high) - f64::from(low))
            })
            .collect()
    }

    fn alternate_components(&self, values: &[f64]) -> Option<Vec<f64>> {
        match self {
            Self::Tint { function, .. } => eval(function, values),
            Self::Indexed { base, palette } => {
                base.alternate_components(&Self::entry(base, palette, values[0]))
            }
            _ => None,
        }
    }

    fn rgb(&self, values: &[f64]) -> Option<[f64; 3]> {
        match self {
            Self::Gray => Some([values[0].clamp(0.0, 1.0); 3]),
            Self::Rgb => Some([0, 1, 2].map(|i| values[i].clamp(0.0, 1.0))),
            Self::Icc => Some([srgb(values[0].clamp(0.0, 1.0)); 3]),
            Self::CalGray { gamma } => Some([srgb(values[0].clamp(0.0, 1.0).powf(*gamma)); 3]),
            Self::CalRgb { white, matrix } => {
                // Colors are relative to the white point, and taken to that of sRGB.
                let xyz = [0, 1, 2].map(|row| {
                    let sum: f64 = (0..3).map(|i| matrix[3 * i + row] * values[i]).sum();
                    sum / white[row] * [0.950_47, 1.0, 1.088_83][row]
                });
                let linear = [
                    [3.240_454_2, -1.537_138_5, -0.498_531_4],
                    [-0.969_266, 1.876_010_8, 0.041_556],
                    [0.055_643_4, -0.204_025_9, 1.057_225_2],
                ];
                Some(linear.map(|row| {
                    let value: f64 = row.iter().zip(xyz).map(|(a, b)| a * b).sum();
                    srgb(value.clamp(0.0, 1.0))
                }))
            }
            Self::Lab { .. } => {
                assert_eq!(values[1..], [0.0, 0.0]);
                let lightness = values[0].clamp(0.0, 100.0);
                let y = if lightness <= 8.0 {
                    lightness * 27.0 / 24389.0
                } else {
                    ((lightness + 16.0) / 116.0).powi(3)
                };
                Some([srgb(y); 3])
            }
            Self::Tint { alternate, .. } => alternate.rgb(&self.alternate_components(values)?),
            Self::Indexed { base, palette } => base.rgb(&Self::entry(base, palette, values[0])),
            Self::Cmyk | Self::Pattern => None,
        }
    }
}

fn intervals(ranges: Vec<(f32, f32)>) -> Vec<Interval> {
    ranges
        .into_iter()
        .map(|(low, high)| Interval { low: low.to_bits(), high: high.to_bits() })
        .collect()
}

fn decode_sample(sample: u32, maximum: u32, map: Interval) -> f64 {
    let a = f64::from(float(map.low)) * f64::from(maximum - sample);
    let b = f64::from(float(map.high)) * f64::from(sample);
    let sum = a + b;
    let virtual_b = sum - a;
    let error = (a - (sum - virtual_b)) + (b - virtual_b);
    sum / f64::from(maximum) + error / f64::from(maximum)
}

fn decode_pixel(context: &SampleContext, samples: &[u32]) -> Vec<f64> {
    let maximum = (1_u32 << context.bits_per_component) - 1;
    samples
        .iter()
        .zip(&context.decode)
        .map(|(sample, map)| decode_sample(*sample, maximum, *map))
        .collect()
}

fn byte(value: f64) -> u8 {
    (value * 255.0).round() as u8
}

fn sample_context(document: &Document, stream: &Stream, space: &Space) -> Option<SampleContext> {
    let native = number_at(document, &stream.dict, "NativeDepth");
    let bits = native.or(number_at(document, &stream.dict, "BitsPerComponent"))? as u8;
    let decode = match document.lookup(&stream.dict, "Decode") {
        Some(Object::Array(array)) if native.is_none() => numbers(document, array)?
            .chunks_exact(2)
            .map(|pair| (pair[0] as f32, pair[1] as f32))
            .collect(),
        _ => space.default_decode(bits),
    };
    Some(SampleContext {
        width: number_at(document, &stream.dict, "Width")? as u32,
        height: number_at(document, &stream.dict, "Height")? as u32,
        components: space.components(),
        bits_per_component: bits,
        decode: intervals(decode),
        data: stream.data.as_ref()?.as_slice().to_vec(),
    })
}

struct Alpha {
    data: Vec<u8>,
    interpolate: bool,
}

struct DecodedImage {
    /// One byte a pixel if the colors are gray, four if they are kept in CMYK, else three.
    data: Vec<u8>,
    gray: bool,
    alpha: Option<Alpha>,
}

fn rgb(image: &DecodedImage) -> Vec<u8> {
    if image.gray {
        image.data.iter().flat_map(|value| [*value; 3]).collect()
    } else {
        image.data.clone()
    }
}

fn colors(image: &DecodedImage) -> Vec<u8> {
    assert!(image.gray);
    image.data.clone()
}

fn document(pdf: &Pdf) -> Document {
    let mut document = no_objects();
    for obj_number in 1..16 {
        let id = syntax::ObjectIdentifier::new(obj_number, 0);
        if let Some(value) = pdf.xref().get::<syntax::Object<'_>>(id) {
            let mut object = object(value);
            // Native samples stand for those of an encoded image.
            if let Object::Stream(stream) = &mut object {
                if stream.dict.get_raw("NativeDepth").is_some() {
                    stream.dict.entries.push(Entry {
                        key: b"Filter".to_vec(),
                        value: MaybeRef::NotRef(Object::Name(b"JPXDecode".to_vec())),
                    });
                }
            }
            document.objects.push(IndirectObject {
                id: ObjectIdentifier { obj_number: obj_number as i32, gen_number: 0 },
                object,
            });
        }
    }
    document
}

fn image_stream(document: &Document) -> &Stream {
    match document.get(ObjectIdentifier { obj_number: 4, gen_number: 0 }) {
        Some(Object::Stream(stream)) => stream,
        _ => panic!("image"),
    }
}

fn open_image(document: &Document, stream: &Stream) -> Option<(ImageXObject, Space)> {
    let resolve = |object: &Object| match Space::parse(document, object) {
        Some(space) => Ok(ImageColorSpaceProperties {
            has_color_space: true,
            declared_color_space_kind: Some(space.kind()),
            color_space_kind: Some(space.kind()),
            color_space_components: Some(space.components()),
            color_space_default_overridden: false,
        }),
        None => Err(ImageColorSpaceError::Invalid),
    };
    let (image, _) = ImageXObject::new(document, &stream.dict, &resolve);
    let space = match document.lookup(&stream.dict, "ColorSpace") {
        Some(space) => Space::parse(document, space)?,
        None => Space::Rgb,
    };
    Some((image?, space))
}

/// The conversion of bytes in CMYK.
fn cmyk_bytes(data: &[u8]) -> Vec<u8> {
    data.chunks_exact(4)
        .flat_map(|pixel| {
            let rest = 255 - u16::from(pixel[3]);
            [0, 1, 2].map(|i: usize| ((255 - u16::from(pixel[i])) * rest / 255) as u8)
        })
        .collect()
}

fn bits(values: Vec<f64>) -> Vec<u64> {
    values.into_iter().map(f64::to_bits).collect()
}

fn reals(values: &[u64]) -> Vec<f64> {
    values.iter().map(|bits| double(*bits)).collect()
}

fn in_range(byte: u8, (low, high): (f32, f32)) -> f64 {
    f64::from(low) + f64::from(byte) / 255.0 * (f64::from(high) - f64::from(low))
}

fn to_range(value: f64, (low, high): (f32, f32)) -> u8 {
    if low == high {
        0
    } else {
        byte((value - f64::from(low)) / (f64::from(high) - f64::from(low)))
    }
}

/// The components of a pixel with an opacity channel.
fn embedded_values(
    channels: &[ChannelSamples],
    decode: &[Interval],
    pixel: &EmbeddedPixel,
    premultiplied: bool,
) -> Vec<f64> {
    let maximum = |channel: &ChannelSamples| f64::from((1_u32 << channel.bits_per_component) - 1);
    let (opacity, colors) = channels.split_last().unwrap();
    let alpha_maximum = maximum(opacity);
    let alpha = f64::from(float(pixel.alpha)).clamp(0.0, alpha_maximum);
    pixel
        .colors
        .iter()
        .zip(colors)
        .zip(decode)
        .map(|((color, channel), map)| {
            let maximum = maximum(channel);
            let sample = f64::from(float(*color)).clamp(0.0, maximum);
            let sample = match (premultiplied, alpha == 0.0) {
                (false, _) => sample,
                (true, true) => 0.0,
                (true, false) => (sample * alpha_maximum / alpha).clamp(0.0, maximum),
            };
            let (low, high) = (f64::from(float(map.low)), f64::from(float(map.high)));
            low + sample / maximum * (high - low)
        })
        .collect()
}

fn channels(source: &JpxSamples) -> Vec<ChannelSamples> {
    source
        .components
        .iter()
        .map(|channel| ChannelSamples {
            samples: channel.samples.clone(),
            bits_per_component: channel.bits_per_component,
        })
        .collect()
}

/// Decodes an image as a device gets it, or in the alternate device space of its tints.
fn decode_as(
    document: &Document,
    target: ColorTarget,
    jpx: Option<JpxSamples>,
) -> Option<DecodedImage> {
    let stream = image_stream(document);
    let (image, space) = open_image(document, stream)?;
    let context = sample_context(document, stream, &space)?;
    let source = sample_context(document, stream, &space)?;
    let scale_factors = ScaleFactors { x: 1.0_f32.to_bits(), y: 1.0_f32.to_bits() };
    let indexed = match &space {
        Space::Indexed { base, palette } => Some(IndexedSpace {
            base: base.output(),
            palette: Palette {
                components: palette.components,
                last: palette.last,
                table: palette.table.clone(),
            },
        }),
        _ => None,
    };
    let looks_up = has_soft_mask_matte(document, &stream.dict)
        || embedded_alpha_mode(document, &stream.dict).is_some();
    let base = match &space {
        Space::Indexed { base, .. } => base.as_ref(),
        _ => &space,
    };
    // The space whose components are put out.
    let output = if looks_up { base } else { &space };
    let put_out_indices = matches!(output, Space::Indexed { .. });
    let is_indexed = indexed.is_some();
    let opaque = jpx.as_ref().map(|jpx| {
        let opacity = jpx.components.last().unwrap();
        let maximum = f64::from((1_u32 << opacity.bits_per_component) - 1);
        let bytes = opacity.samples.iter().map(|sample| {
            byte(f64::from(float(*sample)).clamp(0.0, maximum) / maximum)
        });
        bytes.collect()
    });
    let native = jpx.as_ref().map(channels).unwrap_or_default();
    let decoder = ImageDecoder::new(
        document,
        &stream.dict,
        image,
        context,
        scale_factors,
        ImageSpace {
            output: space.output(),
            ranges: intervals(space.ranges()),
            index_decode: is_indexed
                .then(|| intervals(space.default_decode(source.bits_per_component))),
            indexed,
        },
        opaque,
        jpx,
        false,
        false,
    );
    if looks_up {
        assert_eq!(decoder.output_space(), base.output());
    }
    let preparation = Preparation {
        fix: |data: &Vec<u8>, _: u32, height: u32, _: usize| Some((data.clone(), height)),
        unpack: |data: &Vec<u8>, width: u32, height: u32, components: usize, bits: u8| {
            raw_samples(&SampleContext {
                width,
                height,
                components,
                bits_per_component: bits,
                decode: intervals(vec![(0.0, 1.0); components]),
                data: data.clone(),
            })
        },
        narrow: |context: &SampleContext| {
            let samples = raw_samples(context)?;
            let pixels = samples.chunks_exact(context.components);
            Some(
                pixels
                    .flat_map(|pixel| {
                        let samples: Vec<u32> = pixel.iter().map(|v| u32::from(*v)).collect();
                        decode_pixel(context, &samples)
                    })
                    .zip(space.ranges().into_iter().cycle())
                    .map(|(value, range)| to_range(value, range))
                    .collect(),
            )
        },
        embedded: |pixel: &EmbeddedPixel, premultiplied: bool| {
            embedded_values(&native, &source.decode, pixel, premultiplied)
                .into_iter()
                .zip(space.ranges())
                .map(|(value, range)| to_range(value, range))
                .collect()
        },
    };
    let convert = |data: &[u8]| -> Option<Vec<u8>> {
        let mut colors = Vec::new();
        for pixel in data.chunks_exact(space.components()) {
            let values: Vec<f64> =
                pixel.iter().zip(space.ranges()).map(|(v, range)| in_range(*v, range)).collect();
            colors.extend(space.rgb(&values)?.map(byte));
        }
        Some(colors)
    };
    let is_gray = space.kind() == ColorSpaceKind::DeviceGray
        || space.alternate() == Some(ColorSpaceKind::DeviceGray);
    let rendering = Rendering {
        pixel: |samples: &Vec<u32>| {
            Some(space.rgb(&decode_pixel(&source, samples))?.map(byte).to_vec())
        },
        luma: |data: &Vec<u8>| {
            if is_gray {
                Some(convert(data)?.chunks_exact(3).map(|rgb| rgb[0]).collect())
            } else {
                None
            }
        },
        in_place: |_: &Vec<u8>| None,
        convert: |data: &Vec<u8>, _: u32, _: u32| match space {
            Space::Cmyk => Some(cmyk_bytes(data)),
            _ => convert(data),
        },
        transfer: |data: &Vec<u8>| data.clone(),
    };
    let sampling = Sampling {
        decode: |samples: &Vec<u32>| bits(decode_pixel(&source, samples)),
        index: |value: u64| double(value).round().clamp(0.0, 255.0) as u8,
        entry: |entry: &Vec<u8>| {
            let values = entry.iter().zip(base.ranges());
            bits(values.map(|(byte, range)| in_range(*byte, range)).collect())
        },
        widen: |matte: &Vec<u32>| {
            bits(matte.iter().map(|bits| f64::from(float(*bits))).collect())
        },
        opacity: |mask: &SampleContext, sample: u32| {
            let opacity = decode_pixel(mask, &[sample])[0].clamp(0.0, 1.0);
            (opacity.to_bits(), byte(opacity))
        },
        recover: |values: &Vec<u64>, matte: &Vec<u64>, opacity: u64| {
            let opacity = double(opacity);
            let parts = reals(values).into_iter().zip(reals(matte)).zip(base.ranges());
            bits(
                parts
                    .map(|((value, matte), (low, high))| {
                        let value =
                            if opacity == 0.0 { matte } else { matte + (value - matte) / opacity };
                        value.clamp(f64::from(low), f64::from(high))
                    })
                    .collect(),
            )
        },
        embedded: |pixel: &EmbeddedPixel, premultiplied: bool| {
            bits(embedded_values(&native, &source.decode, pixel, premultiplied))
        },
    };
    let conversion = Conversion {
        tint: |value: u64| {
            let value = if put_out_indices { double(value) } else { double(value) * 255.0 };
            value.round().clamp(0.0, 255.0) as u8
        },
        alternate: |values: &Vec<u64>| {
            let components = output.alternate_components(&reals(values))?;
            Some(<[f64; 4]>::try_from(components).ok()?.map(byte))
        },
        icc_components: |values: &Vec<u64>| Some(values.clone()),
        convert_icc: |values: &Vec<u64>| {
            let values = reals(values);
            Some(values.into_iter().flat_map(|v| [byte(srgb(v.clamp(0.0, 1.0))); 3]).collect())
        },
        native: |values: &Vec<u64>| Some(output.rgb(&reals(values))?.map(byte)),
        encode: |values: &Vec<u64>| {
            let values = reals(values).into_iter().zip(output.ranges());
            values.map(|(value, range)| to_range(value, range)).collect()
        },
        convert: |data: &Vec<u8>| Some(cmyk_bytes(data)),
    };
    let masking = Masking {
        mask: |mask: &Stream, image: ImageXObject| {
            let context = sample_context(document, mask, &Space::Gray)?;
            let samples = raw_samples(&context)?;
            Some(LumaData {
                data: samples
                    .into_iter()
                    .map(|sample| byte(decode_pixel(&context, &[u32::from(sample)])[0]))
                    .collect(),
                width: context.width,
                height: context.height,
                interpolate: image.interpolate,
                scale_factors,
            })
        },
        open: |mask: &Stream, _: ImageXObject| {
            let context = sample_context(document, mask, &Space::Gray)?;
            Some(OpenedMask { context, has_alpha: false, scale_factors })
        },
    };
    let (data, gray, alpha) = match target {
        ColorTarget::Rgb => {
            let decoded =
                decoder.decode(&preparation, &rendering, &sampling, &conversion, &masking)?;
            match decoded.image {
                ImageData::Luma(image) => (image.data, true, decoded.alpha),
                ImageData::Rgb(image) => (image.data, false, decoded.alpha),
            }
        }
        ColorTarget::Cmyk => {
            let decoded =
                decoder.decode_device_cmyk(&preparation, &sampling, &conversion, &masking)?;
            (decoded.image.data, false, decoded.alpha)
        }
    };
    let alpha = alpha.map(|alpha| Alpha { data: alpha.data, interpolate: alpha.interpolate });
    Some(DecodedImage { data, gray, alpha })
}

/// Decodes an image as a device gets it.
fn decode_whole(document: &Document) -> Option<DecodedImage> {
    decode_as(document, ColorTarget::Rgb, None)
}

fn raw_samples(context: &SampleContext) -> Option<Vec<u16>> {
    let mut samples = Samples::new(context, true).ok()?;
    let mut values = Vec::new();
    for _ in 0..context.width * context.height {
        values.extend(samples.read().ok()?.into_iter().map(|sample| sample as u16));
    }
    Some(values)
}

fn matte_document(
    space: &str,
    width: u32,
    height: u32,
    image_entries: &str,
    data: &[u8],
    mask_entries: &str,
    alpha: &[u8],
) -> Document {
    let mut pdf = format!("%PDF-1.7\n1 0 obj<</Type/Catalog/Pages 2 0 R>>endobj\n2 0 obj<</Type/Pages/Kids[3 0 R]/Count 1>>endobj\n3 0 obj<</Type/Page/Parent 2 0 R/MediaBox[0 0 32 32]/Resources<<>>>>endobj\n4 0 obj<</Type/XObject/Subtype/Image/Width {width}/Height {height}/ColorSpace {space} {image_entries}/SMask 5 0 R/Length {}>>stream\n", data.len()).into_bytes();
    pdf.extend_from_slice(data);
    pdf.extend_from_slice(format!("\nendstream\nendobj\n5 0 obj<</Type/XObject/Subtype/Image/Width {width}/Height {height}/ColorSpace/DeviceGray {mask_entries}/Length {}>>stream\n",alpha.len()).as_bytes());
    pdf.extend_from_slice(alpha);
    pdf.extend_from_slice(b"\nendstream\nendobj\n");
    if space.contains("6 0 R") {
        pdf.extend_from_slice(b"6 0 obj<</N 1/Length 0>>stream\n\nendstream\nendobj\n");
    }
    if space.contains("7 0 R") {
        let function = b"{ pop pop pop pop pop pop pop }";
        pdf.extend_from_slice(
            format!(
                "7 0 obj<</FunctionType 4/Domain[{}]/Range[0 1]/Length {}>>stream\n",
                "0 1 ".repeat(8),
                function.len()
            )
            .as_bytes(),
        );
        pdf.extend_from_slice(function);
        pdf.extend_from_slice(b"\nendstream\nendobj\n");
    }
    pdf.extend_from_slice(b"trailer<</Root 1 0 R>>\n%%EOF");
    document(&Pdf::new(pdf).unwrap())
}

fn decoded(
    space: &str,
    width: u32,
    height: u32,
    image_entries: &str,
    data: &[u8],
    mask_entries: &str,
    alpha: &[u8],
) -> Option<DecodedImage> {
    let document = matte_document(space, width, height, image_entries, data, mask_entries, alpha);
    decode_whole(&document)
}

#[test]
fn matte_native_alpha_is_not_rounded_before_recovering_color() {
    // C'=1/65535 and alpha=2/65535 recover C=1/2. Both would
    // become zero if unpacking or alpha storage narrowed before recovery.
    let image = decoded(
        "/DeviceRGB",
        1,
        1,
        "/BitsPerComponent 16",
        &[0, 1, 0, 1, 0, 1],
        "/BitsPerComponent 16/Matte[0 0 0]",
        &[0, 2],
    )
    .unwrap();
    assert_eq!(rgb(&image), [128; 3]);
    assert_eq!(image.alpha.unwrap().data, [0]);
    let image = decoded(
        "/DeviceRGB",
        1,
        1,
        "/BitsPerComponent 16/Decode[1 0 1 0 1 0]",
        &[255, 254, 255, 254, 255, 254],
        "/BitsPerComponent 16/Decode[1 0]/Matte[0 0 0]",
        &[255, 253],
    )
    .unwrap();
    assert_eq!(rgb(&image), [128; 3]);
}

#[test]
fn matte_zero_alpha_clipping_and_independent_interpolation_are_preserved() {
    let image = decoded(
        "/DeviceRGB",
        3,
        1,
        "/BitsPerComponent 8/Interpolate false",
        &[100, 150, 200, 0, 0, 0, 255, 255, 255],
        "/BitsPerComponent 8/Interpolate true/Matte[.25 .5 .75]",
        &[0, 128, 128],
    )
    .unwrap();
    assert_eq!(rgb(&image), [64, 128, 191, 0, 0, 0, 255, 255, 255]);
    assert!(image.alpha.unwrap().interpolate);
    let image = decoded(
        "[/Lab<</WhitePoint[1 1 1]/Range[0 0 0 0]>>]",
        1,
        1,
        "/BitsPerComponent 8/Decode[50 50 0 0 0 0]",
        &[0; 3],
        "/BitsPerComponent 8/Decode[.5 .5]/Matte[80 0 0]",
        &[0],
    )
    .unwrap();
    assert_eq!(rgb(&image), [48; 3]);
}

#[test]
fn invalid_matte_arrays_samples_and_mask_dictionaries_fail_closed() {
    for mask in [
        "/BitsPerComponent 8/Matte[0 0 0 false]",
        "/BitsPerComponent 8/Matte[0 0]",
        "/BitsPerComponent 8/Matte[-1 0 0]",
        "/BitsPerComponent 8/Matte[0 0 2]",
        "/BitsPerComponent 8/Matte[0 0 0]/Decode[0 1 false]",
        "/BitsPerComponent 8/Matte[0 0 0]/ImageMask true",
        "/BitsPerComponent 8/Matte[0 0 0]/Mask null",
        "/BitsPerComponent 8/Matte[0 0 0]/SMask null",
        "/BitsPerComponent 8/Matte[0 0 0]/ColorSpace/DeviceRGB",
        "/BitsPerComponent 8/Matte[0 0 0]/Width 2",
        "/BitsPerComponent 3/Matte[0 0 0]",
        "/Matte[0 0 0]",
    ] {
        assert!(
            decoded(
                "/DeviceRGB",
                1,
                1,
                "/BitsPerComponent 8",
                &[128; 3],
                mask,
                &[128]
            )
            .is_none(),
            "{mask}"
        );
    }
    assert!(
        decoded(
            "/DeviceRGB",
            1,
            1,
            "/BitsPerComponent 16",
            &[0; 5],
            "/BitsPerComponent 8/Matte[0 0 0]",
            &[128]
        )
        .is_none()
    );
    assert!(
        decoded(
            "/DeviceRGB",
            1,
            1,
            "/BitsPerComponent 8",
            &[128; 3],
            "/BitsPerComponent 16/Matte[0 0 0]",
            &[128]
        )
        .is_none()
    );
}

#[test]
fn indexed_matte_preserves_native_indices_opacity_and_packed_rows() {
    let image = decoded(
        "[/Indexed /DeviceGray 1 <0100>]",
        2,
        1,
        "/BitsPerComponent 16/Decode[0 1]",
        &[0x7f, 0xff, 0x80, 0],
        "/BitsPerComponent 16/Matte[1]",
        &[2, 2, 2, 2],
    )
    .unwrap();
    // Adjacent 16-bit indices straddle 1/2. Alpha=514/65535=2/255;
    // palette component 1/255 recovers exactly 1/2 before byte storage.
    assert_eq!(rgb(&image), [128, 128, 128, 0, 0, 0]);
    assert_eq!(image.alpha.unwrap().data, [2, 2]);
    for bits in [1, 2, 4, 8, 16] {
        let maximum = (1_u32 << bits) - 1;
        let mut data = Vec::new();
        for _ in 0..2 {
            let mut row = vec![0; (3 * bits as usize).div_ceil(8)];
            for (i, sample) in [0, maximum, 0].into_iter().enumerate() {
                for bit in 0..bits as usize {
                    let offset = i * bits as usize + bit;
                    row[offset / 8] |=
                        (((sample >> (bits as usize - bit - 1)) & 1) as u8) << (7 - offset % 8);
                }
            }
            data.extend(row);
        }
        let image = decoded(
            "[/Indexed /DeviceGray 1 <10e0>]",
            3,
            2,
            &format!("/BitsPerComponent {bits}/Decode[2 -1]"),
            &data,
            "/BitsPerComponent 8/Matte[1]",
            &[255; 6],
        )
        .unwrap();
        assert_eq!(
            rgb(&image),
            [224, 224, 224, 16, 16, 16, 224, 224, 224].repeat(2),
            "{bits}"
        );
    }
}

#[test]
fn invalid_indexed_palettes_and_matte_components_fail_closed() {
    for space in [
        "[/Indexed /DeviceRGB 256 <808080>]",
        "[/Indexed /DeviceRGB -1 <808080>]",
        "[/Indexed /DeviceRGB 0.0 <808080>]",
        "[/Indexed /DeviceRGB 0 <808080> false]",
        "[/Indexed /DeviceRGB 0 <8080>]",
        "[/Indexed /DeviceRGB 0 <80808080>]",
        "[/Indexed [/Indexed /DeviceGray 0 <80>] 0 <00>]",
        "[/Indexed [/Pattern /DeviceRGB] 0 <808080>]",
    ] {
        assert!(
            decoded(
                space,
                1,
                1,
                "/BitsPerComponent 8",
                &[0],
                "/BitsPerComponent 8/Matte[0]",
                &[128]
            )
            .is_none(),
            "{space}"
        );
    }
    for matte in ["-1", "2", "false", "0 false", "0 0 0"] {
        assert!(
            decoded(
                "[/Indexed /DeviceRGB 1 <8040c0e61e64>]",
                1,
                1,
                "/BitsPerComponent 8",
                &[0],
                &format!("/BitsPerComponent 8/Matte[{matte}]"),
                &[128]
            )
            .is_none(),
            "{matte}"
        );
    }
}

#[test]
fn indexed_matte_many_component_conversion_crosses_bounded_batches() {
    let count = CONVERSION_BATCH_PIXELS + 3;
    let data: Vec<u8> = (0..count).map(|i| (i % 2) as u8).collect();
    let alpha = [2_u8, 2].repeat(count);
    let image = decoded(
        "[/Indexed [/DeviceN [/A /B /C /D /E /F /G /H] [/CalGray<</WhitePoint[1 1 1]>>] 7 0 R] 1 <01010101010101010000000000000000>]",
        count as u32, 1, "/BitsPerComponent 8", &data,
        "/BitsPerComponent 16/Matte[1]", &alpha,
    ).unwrap();
    let expected: Vec<u8> = data
        .iter()
        .flat_map(|index| [if *index == 0 { 188 } else { 0 }; 3])
        .collect();
    assert_eq!(rgb(&image), expected);
    assert_eq!(image.alpha.unwrap().data, vec![2; count]);
}

fn tint_document(header: &str, data: &[u8], extra: &[u8]) -> Document {
    let mut bytes = format!(
        "%PDF-1.7\n1 0 obj <</Type/Catalog/Pages 2 0 R>> endobj\n\
         2 0 obj <</Type/Pages/Kids[3 0 R]/Count 1>> endobj\n\
         3 0 obj <</Type/Page/Parent 2 0 R/MediaBox[0 0 32 32]/Resources<<>>>> endobj\n\
         4 0 obj <</Type/XObject/Subtype/Image {header}/Length {}>> stream\n",
        data.len()
    )
    .into_bytes();
    bytes.extend_from_slice(data);
    bytes.extend_from_slice(b"\nendstream\nendobj\n");
    bytes.extend_from_slice(extra);
    bytes.extend_from_slice(b"\ntrailer <</Root 1 0 R>>\n%%EOF");
    document(&Pdf::new(bytes).unwrap())
}

fn with_image(
    header: &str,
    data: &[u8],
    extra: &[u8],
    target: ColorTarget,
) -> Option<DecodedImage> {
    let document = tint_document(header, data, extra);
    // Colors in full precision are not for tints.
    assert!(matches!(
        decode_float(&document, 8, u64::MAX, &|| true),
        Err(FloatImageError::Unsupported)
    ));
    decode_as(&document, target, None)
}

fn decode(header: &str, data: &[u8], extra: &[u8]) -> Option<DecodedImage> {
    with_image(header, data, extra, ColorTarget::Rgb)
}

fn decode_float(
    document: &Document,
    component_bytes: usize,
    limit: u64,
    checkpoint: &impl Fn() -> bool,
) -> Result<DecodedFloat, FloatImageError> {
    let stream = image_stream(document);
    let (image, space) = open_image(document, stream).unwrap();
    let facts = ImageFacts {
        is_image: image.kind == ImageKind::Image,
        color_space: Some(space.kind()),
        has_transfer_function: false,
        width: image.width(),
        height: image.height(),
    };
    let jpx = document.lookup(&stream.dict, "Filter").is_some();
    let open = || {
        if jpx {
            return None;
        }
        Some((sample_context(document, stream, &space)?, false))
    };
    let pixel = |samples: &Vec<u32>| {
        let context = sample_context(document, stream, &space)?;
        let rgb = space.rgb(&decode_pixel(&context, samples))?;
        Some(match component_bytes {
            4 => rgb.into_iter().flat_map(|value| (value as f32).to_le_bytes()).collect(),
            _ => rgb.into_iter().flat_map(f64::to_le_bytes).collect(),
        })
    };
    decode_rgb(
        document,
        &stream.dict,
        facts,
        embedded_alpha_mode(document, &stream.dict).is_some(),
        component_bytes,
        limit,
        &open,
        &mut Polled::new(checkpoint),
        &pixel,
    )
}

const RAMP: &str = "<</FunctionType 2/Domain[0 1]/Range[0 1]/C0[-500]/C1[500]/N 1>>";

#[test]
fn packed_and_byte_tints_apply_decode_before_the_function() {
    for prefix in ["Separation /Spot", "DeviceN [/Spot]"] {
        for (bits, data, expected) in [
            (1, vec![0x40, 0xa0], vec![0, 255, 0, 255, 0, 255]),
            (2, vec![0x18, 0xe4], vec![0, 85, 170, 255, 170, 85]),
            (
                4,
                vec![0x08, 0xf0, 0xf8, 0x00],
                vec![0, 136, 255, 255, 136, 0],
            ),
            (
                8,
                vec![0, 128, 255, 255, 128, 0],
                vec![0, 128, 255, 255, 128, 0],
            ),
        ] {
            let header = format!(
                "/Width 3/Height 2/BitsPerComponent {bits}/ColorSpace[/{prefix} /DeviceGray {RAMP}]/Decode[.5 .501]"
            );
            let image = decode(&header, &data, b"").unwrap();
            assert!(
                colors(&image)
                    .iter()
                    .zip(&expected)
                    .all(|(a, b)| a.abs_diff(*b) <= 1),
                "{prefix} {bits}: {:?}",
                colors(&image)
            );
            let reversed = decode(&header.replace("[.5 .501]", "[.501 .5]"), &data, b"").unwrap();
            assert!(
                colors(&reversed)
                    .iter()
                    .zip(&expected)
                    .all(|(a, b)| a.abs_diff(255 - *b) <= 1)
            );
        }
    }
}

#[test]
fn sixteen_bit_neighbors_do_not_collapse_to_one_tint() {
    for prefix in ["Separation /Spot", "DeviceN [/Spot]"] {
        let header = format!(
            "/Width 2/Height 1/BitsPerComponent 16/ColorSpace[/{prefix} /DeviceGray <</FunctionType 2/Domain[0 1]/Range[0 1]/C0[-32767]/C1[32768]/N 1>>]"
        );
        let image = decode(&header, &[0x7f, 0xff, 0x80, 0], b"").unwrap();
        assert_eq!(colors(&image), [0, 255]);
        assert!(decode(&header, &[0x7f, 0xff, 0x80], b"").is_none());
    }
}

#[test]
fn tint_decode_preserves_color_key_and_soft_mask_alpha() {
    let base = format!(
        "/Width 3/Height 1/BitsPerComponent 2/ColorSpace[/Separation /Spot /DeviceGray {RAMP}]/Decode[.5 .501]"
    );
    let image = decode(&format!("{base}/Mask[1 2]"), &[0x18], b"").unwrap();
    assert_eq!(colors(&image), [0, 85, 170]);
    assert_eq!(image.alpha.unwrap().data, [255, 0, 0]);
    let extra = b"5 0 obj <</Type/XObject/Subtype/Image/Width 3/Height 1/BitsPerComponent 8/ColorSpace/DeviceGray/Length 3>> stream\n\x00\x80\xff\nendstream\nendobj";
    let image = decode(&format!("{base}/SMask 5 0 R"), &[0x18], extra).unwrap();
    assert_eq!(colors(&image), [0, 85, 170]);
    assert_eq!(image.alpha.unwrap().data, [0, 128, 255]);
}

#[test]
fn matte_recovery_precedes_tint_evaluation() {
    let transform = "<</FunctionType 3/Domain[0 1]/Range[0 1]/Functions[<</FunctionType 2/Domain[0 1]/C0[0]/C1[0]/N 1>><</FunctionType 2/Domain[0 1]/C0[1]/C1[1]/N 1>>]/Bounds[.50003]/Encode[0 1 0 1]>>";
    let header = format!(
        "/Width 2/Height 1/BitsPerComponent 16/ColorSpace[/Separation /Spot /DeviceGray {transform}]/SMask 5 0 R"
    );
    let extra = b"5 0 obj <</Type/XObject/Subtype/Image/Width 2/Height 1/BitsPerComponent 8/ColorSpace/DeviceGray/Matte[.5]/Length 2>> stream\n\x80\xff\nendstream\nendobj";
    let image = decode(&header, &[0x80, 1, 0x80, 1], extra).unwrap();
    assert_eq!(colors(&image), [255, 0]);
    assert_eq!(image.alpha.unwrap().data, [128, 255]);
}

#[test]
fn cmyk_tints_retain_decode_precision_and_original_mask_samples() {
    let ramp = "<</FunctionType 2/Domain[0 1]/Range[0 1 0 1 0 1 0 1]/C0[-500 501 .25 .5]/C1[500 -499 .25 .5]/N 1>>";
    for prefix in ["Separation /Spot", "DeviceN [/Spot]"] {
        for (bits, samples) in [
            (1, vec![0x40]),
            (2, vec![0x30]),
            (4, vec![0x0f]),
            (8, vec![0, 255]),
            (16, vec![0, 0, 255, 255]),
        ] {
            let maximum = (1_u32 << bits) - 1;
            let header = format!(
                "/Width 2/Height 1/BitsPerComponent {bits}/ColorSpace[/{prefix} /DeviceCMYK {ramp}]/Decode[.5 .501]/Mask[0 0]"
            );
            let decoded = with_image(&header, &samples, b"", ColorTarget::Cmyk)
            .unwrap();
            assert_eq!(
                decoded.data,
                [0, 255, 64, 128, 255, 0, 64, 128],
                "{prefix} {bits}/{maximum}"
            );
            assert_eq!(decoded.alpha.unwrap().data, [0, 255]);
            let decoded = with_image(&header.replace("[.5 .501]", "[.501 .5]"),
                &samples,
                b"", ColorTarget::Cmyk)
            .unwrap();
            assert_eq!(decoded.data, [255, 0, 64, 128, 0, 255, 64, 128]);
            assert_eq!(decoded.alpha.unwrap().data, [0, 255]);
        }
    }
}

#[test]
fn cmyk_tints_recover_matte_before_function_and_final_quantization() {
    let transform = "<</FunctionType 3/Domain[0 1]/Range[0 1 0 1 0 1 0 1]/Functions[<</FunctionType 2/Domain[0 1]/C0[0 1 .25 .5]/C1[0 1 .25 .5]/N 1>><</FunctionType 2/Domain[0 1]/C0[1 0 .25 .5]/C1[1 0 .25 .5]/N 1>>]/Bounds[.50003]/Encode[0 1 0 1]>>";
    let header = format!(
        "/Width 2/Height 1/BitsPerComponent 16/ColorSpace[/Separation /Spot /DeviceCMYK {transform}]/SMask 5 0 R"
    );
    let mask = b"5 0 obj <</Type/XObject/Subtype/Image/Width 2/Height 1/BitsPerComponent 8/ColorSpace/DeviceGray/Matte[.5]/Length 2>>stream\n\x80\xff\nendstream\nendobj";
    let decoded = with_image(&header, &[0x80, 1, 0x80, 1], mask, ColorTarget::Cmyk)
    .unwrap();
    assert_eq!(decoded.data, [255, 0, 64, 128, 0, 255, 64, 128]);
    assert_eq!(decoded.alpha.unwrap().data, [128, 255]);
    assert!(
        with_image(&header, &[0x80, 1, 0x80], mask, ColorTarget::Cmyk)
        .is_none()
    );
}

#[test]
fn exact_byte_cmyk_lookup_preserves_palette_keys_and_repeated_samples() {
    let tint = "[/Separation /Spot /DeviceCMYK <</FunctionType 2/Domain[0 1]/C0[0 1 .25 .5]/C1[1 0 .25 .5]/N 1>>]";
    for (space, source, expected) in [
        (
            tint.to_owned(),
            vec![0, 64, 128, 255, 128, 64],
            vec![0, 64, 128, 255, 128, 64],
        ),
        (
            format!("[/Indexed {tint} 3<00ff4080>]"),
            vec![0, 1, 2, 3, 2, 1],
            vec![0, 255, 64, 128, 64, 255],
        ),
    ] {
        let header = format!("/Width 6/Height 1/BitsPerComponent 8/ColorSpace {space}");
        let decoded = with_image(&header, &source, b"", ColorTarget::Cmyk)
        .unwrap();
        for (pixel, expected) in decoded.data.chunks_exact(4).zip(expected) {
            assert_eq!(pixel, [expected, 255 - expected, 64, 128]);
        }
    }
}

#[test]
fn native_gray_retention_preserves_cached_byte_conversion() {
    let header = "/Width 3/Height 1/BitsPerComponent 8/ColorSpace[/DeviceN[/Spot]/DeviceGray<</FunctionType 2/Domain[0 1]/C0[.125]/C1[.875]/N 1>>]";
    let decoded = decode(header, &[0, 128, 255], b"").unwrap();
    assert!(decoded.gray);
    assert_eq!(decoded.data, [32, 128, 223]);
}

fn decode_single(
    header: &str,
    data: &[u8],
    limit: u64,
    checkpoint: impl Fn() -> bool,
) -> Result<DecodedFloat, FloatImageError> {
    decode_float(&tint_document(header, data, b""), 4, limit, &checkpoint)
}

fn floats(image: &DecodedFloat) -> Vec<f32> {
    image
        .data
        .chunks_exact(4)
        .map(|bytes| f32::from_le_bytes(bytes.try_into().unwrap()))
        .collect()
}

#[test]
fn malformed_truncated_unproved_and_over_budget_images_have_no_output() {
    let header = "/Width 2 /Height 1 /ColorSpace /DeviceGray /BitsPerComponent 16";
    assert!(matches!(
        decode_single(header, &[0; 3], 24, || true),
        Err(FloatImageError::Decode)
    ));
    assert!(matches!(
        decode_single(header, &[0; 4], 23, || true),
        Err(FloatImageError::Limit { requested: 24 })
    ));
    assert!(matches!(
        decode_single(header, &[0; 4], 24, || false),
        Err(FloatImageError::Cancelled)
    ));
    for extra in [
        "/Decode [0]",
        "/Decode [0 1 false]",
        "/Decode [0 false]",
        "/Decode false",
        "/Mask [0 1]",
        "/SMask null",
    ] {
        assert!(
            matches!(
                decode_single(&format!("{header} {extra}"), &[0; 4], 24, || true),
                Err(FloatImageError::Unsupported)
            ),
            "{extra}"
        );
    }
    assert!(matches!(
        decode_single(&format!("{header} /Filter /JPXDecode"), &[0; 4], 24, || {
            true
        }),
        Err(FloatImageError::Decode)
    ));
    let calls = Cell::new(0);
    let result = decode_single(
        "/Width 1025 /Height 1 /ColorSpace /DeviceGray /BitsPerComponent 8",
        &vec![128; 1025],
        12300,
        || {
            calls.set(calls.get() + 1);
            calls.get() < 4
        },
    );
    assert!(matches!(result, Err(FloatImageError::Cancelled)));
    assert_eq!(calls.get(), 4);
}

#[test]
fn direct_sixteen_bit_and_decode_components_do_not_round_to_bytes() {
    let header = "/Width 2 /Height 1 /ColorSpace /DeviceGray /BitsPerComponent 16";
    let image = decode_single(header, &[0x80, 0, 0x80, 1], 24, || true).unwrap();
    assert_eq!(
        floats(&image),
        [
            vec![32768.0_f32 / 65535.0; 3],
            vec![32769.0_f32 / 65535.0; 3]
        ]
        .concat()
    );
    assert_eq!(
        (image.context.width, image.context.height),
        (2, 1)
    );
    let image = decode_single(
        &format!("{header} /Decode [1 0]"),
        &[0, 1, 0xff, 0xfe],
        24,
        || true,
    )
    .unwrap();
    assert_eq!(
        floats(&image),
        [vec![65534.0_f32 / 65535.0; 3], vec![1.0_f32 / 65535.0; 3]].concat()
    );
    let image = decode_single(
        "/Width 1 /Height 1 /ColorSpace /DeviceRGB /BitsPerComponent 8 /Decode [.1 .9 .2 .8 .3 .7]",
        &[64, 128, 192],
        12,
        || true,
    )
    .unwrap();
    let expected = [
        (0.1_f64 + 64.0 / 255.0 * 0.8) as f32,
        (0.2_f64 + 128.0 / 255.0 * 0.6) as f32,
        (0.3_f64 + 192.0 / 255.0 * 0.4) as f32,
    ];
    assert!(
        floats(&image)
            .iter()
            .zip(expected)
            .all(|(a, b)| (a - b).abs() < 1e-7)
    );
}

#[test]
fn packed_sample_rows_and_calibrated_conversion_preserve_real_values() {
    for (bits, data, expected) in [
        (1, vec![0x80, 0x60], vec![1.0, 0.0, 0.0, 0.0, 1.0, 1.0]),
        (
            2,
            vec![0x6c, 0x90],
            vec![1.0 / 3.0, 2.0 / 3.0, 1.0, 2.0 / 3.0, 1.0 / 3.0, 0.0],
        ),
        (
            4,
            vec![0x18, 0xf0, 0x80, 0x10],
            vec![1.0 / 15.0, 8.0 / 15.0, 1.0, 8.0 / 15.0, 0.0, 1.0 / 15.0],
        ),
    ] {
        let image = decode_single(
            &format!("/Width 3 /Height 2 /ColorSpace /DeviceGray /BitsPerComponent {bits}"),
            &data,
            72,
            || true,
        )
        .unwrap();
        assert_eq!(
            floats(&image),
            expected
                .into_iter()
                .flat_map(|v| [v; 3])
                .collect::<Vec<_>>()
        );
    }
    let header = "/Width 1 /Height 1 /ColorSpace [/CalGray <</WhitePoint[0.95047 1 1.08883]/Gamma 2>>] /BitsPerComponent 16 /Interpolate true";
    with_document(header, &[0x80, 0], |document| {
        let (image, _) = open_image(document, image_stream(document)).unwrap();
        assert!(image.interpolate);
    });
    let image = decode_single(header, &[0x80,0],12,||true).unwrap();
    let linear = (32768.0_f64 / 65535.0).powi(2);
    let expected = 1.055 * linear.powf(1.0 / 2.4) - 0.055;
    assert!(
        floats(&image)
            .iter()
            .all(|v| (f64::from(*v) - expected).abs() < 2e-6)
    );
    assert!(
        floats(&image)
            .iter()
            .any(|v| (*v * 255.0).fract().abs() > 0.1)
    );
}

#[test]
fn embedded_alpha_requires_jpx_and_a_supported_mode() {
    let mode = |entries: &[u8]| {
        let dict = dict(&syntax::Dict::from_bytes(entries).expect("image dictionary"));
        embedded_alpha_mode(&no_objects(), &dict)
    };

    assert_eq!(
        mode(b"<< /Filter /JPXDecode /SMaskInData 1 >>"),
        Some(EmbeddedImageAlphaMode::Unassociated)
    );
    assert_eq!(
        mode(b"<< /Filter [/ASCII85Decode /JPXDecode] /SMaskInData 2 >>"),
        Some(EmbeddedImageAlphaMode::Premultiplied)
    );
    assert_eq!(
        mode(b"<< /F /JPXDecode /SMaskInData 2 >>"),
        Some(EmbeddedImageAlphaMode::Premultiplied)
    );
    assert_eq!(mode(b"<< /Filter /JPXDecode /SMaskInData 0 >>"), None);
    assert_eq!(mode(b"<< /Filter /JPXDecode /SMaskInData 3 >>"), None);
    assert_eq!(mode(b"<< /Filter /FlateDecode /SMaskInData 2 >>"), None);
    assert_eq!(mode(b"<< /SMaskInData 2 >>"), None);
}

fn unpremultiply_components(
    components: &mut Vec<u8>,
    alpha: &[u8],
    matte: &[u8],
) -> Option<()> {
    let undo = |value: u8, matte: u8, alpha: u8| {
        let matte = f32::from(matte);
        let value = matte + (f32::from(value) - matte) * (255.0 / f32::from(alpha));
        value.round_ties_even().clamp(0.0, 255.0) as u8
    };
    undo_components(components, &alpha.to_vec(), &matte.to_vec(), &undo)
}

#[test]
fn embedded_preblend_is_reversed_per_source_component() {
    let mut rgb = vec![64, 0, 0, 255, 128, 0];
    assert_eq!(
        unpremultiply_components(&mut rgb, &[64, 128], &[0, 0, 0]),
        Some(())
    );
    assert_eq!(rgb, [255, 0, 0, 255, 255, 0]);

    let mut cmyk = vec![128, 64, 32, 191];
    assert_eq!(
        unpremultiply_components(&mut cmyk, &[128], &[0, 0, 0, 255]),
        Some(())
    );
    assert_eq!(cmyk, [255, 128, 64, 128]);
}

#[test]
fn embedded_preblend_preserves_zero_alpha_and_rejects_mismatched_planes() {
    let mut color = vec![10, 20, 30];
    assert_eq!(
        unpremultiply_components(&mut color, &[0], &[10, 20, 30]),
        Some(())
    );
    assert_eq!(color, [10, 20, 30]);

    assert_eq!(unpremultiply_components(&mut color, &[], &[0, 0, 0]), None);
    assert_eq!(unpremultiply_components(&mut color, &[255], &[]), None);
}

fn gray_context(width: u32, bits: u8, data: Vec<u8>) -> SampleContext {
    SampleContext {
        width,
        height: 1,
        components: 1,
        bits_per_component: bits,
        decode: intervals(vec![(0.0, 1.0)]),
        data,
    }
}

#[test]
fn samples_are_read_row_by_row_and_refused_with_a_reason() {
    let context = SampleContext { width: 3, height: 2, ..gray_context(3, 4, vec![0x12, 0x3f, 0x45, 0x6f]) };
    let mut samples = Samples::new(&context, false).unwrap();
    for expected in 1..=6 {
        assert_eq!(samples.read(), Ok(vec![expected]));
    }
    assert_eq!(samples.read(), Err(FloatImageError::Decode));
    let refused = |context: SampleContext, jpx| Samples::new(&context, jpx).err();
    assert_eq!(refused(gray_context(0, 8, vec![0]), false), Some(FloatImageError::Decode));
    assert_eq!(refused(gray_context(1, 3, vec![0]), false), Some(FloatImageError::Unsupported));
    assert_eq!(refused(gray_context(1, 3, vec![0]), true), None);
    assert_eq!(refused(gray_context(2, 8, vec![0]), false), Some(FloatImageError::Decode));
    let infinite = SampleContext {
        decode: intervals(vec![(0.0, f32::INFINITY)]),
        ..gray_context(1, 8, vec![0])
    };
    assert_eq!(refused(infinite, false), Some(FloatImageError::Unsupported));
    assert_eq!(output_bytes(2, 3, 4, 72), Ok(72));
    assert_eq!(output_bytes(2, 3, 4, 71), Err(FloatImageError::Limit { requested: 72 }));
    assert_eq!(
        output_bytes(u32::MAX, u32::MAX, 8, u64::MAX),
        Err(FloatImageError::Limit { requested: u64::MAX })
    );
}

#[test]
fn images_need_a_size_and_report_unresolved_spaces() {
    let document = no_objects();
    let read = |source: &[u8]| dict(&syntax::Dict::from_bytes(source).unwrap());
    let gray = |_: &Object| {
        Ok(ImageColorSpaceProperties {
            has_color_space: true,
            declared_color_space_kind: Some(ColorSpaceKind::DeviceGray),
            color_space_kind: Some(ColorSpaceKind::CalGray),
            color_space_components: Some(1),
            color_space_default_overridden: true,
        })
    };
    let (image, warning) = ImageXObject::new(
        &document,
        &read(b"<< /W 3 /H 2 /CS /G /I true >>"),
        &gray,
    );
    let image = image.unwrap();
    assert_eq!((image.width(), image.height(), image.interpolate), (3, 2, true));
    assert_eq!((image.kind, warning), (ImageKind::Image, None));
    let properties = image.color_space_properties;
    assert!(properties.has_color_space() && properties.color_space_is_default_overridden());
    assert_eq!(properties.declared_color_space_kind(), Some(ColorSpaceKind::DeviceGray));
    assert_eq!(properties.color_space_kind(), Some(ColorSpaceKind::CalGray));
    assert_eq!(properties.color_space_components(), Some(1));
    let failing = |_: &Object| Err(ImageColorSpaceError::Invalid);
    let (image, warning) = ImageXObject::new(
        &document,
        &read(b"<< /Width 3 /Height 2 /ColorSpace /Bad >>"),
        &failing,
    );
    assert!(image.is_none());
    assert_eq!(
        warning,
        Some(InterpreterWarning::ImageColorSpace(ImageColorSpaceError::Invalid))
    );
    for source in [b"<< /Width 0 /Height 2 >>".as_slice(), b"<< /Height 2 >>"] {
        assert!(ImageXObject::new(&document, &read(source), &gray).0.is_none());
    }
    let stencil = ImageXObject::new_mask(
        &document,
        &read(b"<< /Width 1 /Height 1 /ImageMask true >>"),
    )
    .unwrap();
    assert_eq!(stencil.kind, ImageKind::StencilMask);
    assert!(stencil.kind.is_mask());
    assert!(has_mask(&document, &read(b"<< /Mask [0 1] >>")));
    assert!(!has_mask(&document, &read(b"<< >>")));
    assert!(!has_soft_mask_matte(&document, &read(b"<< /SMask 9 0 R >>")));
}

#[test]
fn inverted_maps_are_recognized_and_undone() {
    let plain = intervals(vec![(0.0, 1.0), (0.0, 1.0)]);
    let inverted = intervals(vec![(1.0, 0.0), (1.0, 0.0)]);
    let mixed = intervals(vec![(1.0, 0.0), (0.0, 1.0)]);
    assert_eq!(direct_invert(8, &plain, &plain, None), Some(false));
    assert_eq!(direct_invert(8, &inverted, &plain, None), Some(true));
    assert_eq!(direct_invert(8, &mixed, &plain, None), None);
    assert_eq!(direct_invert(4, &plain, &plain, None), None);
    assert_eq!(direct_invert(8, &mixed, &plain, Some(&mixed)), Some(false));
    let mut data = vec![0, 1, 254, 255];
    invert(&mut data);
    assert_eq!(data, [255, 254, 1, 0]);
    invert(&mut data);
    assert_eq!(data, [0, 1, 254, 255]);
}

#[test]
fn converted_batches_come_out_in_order() {
    let count = CONVERSION_BATCH_PIXELS + 3;
    let space = OutputSpace {
        kind: ColorSpaceKind::DeviceCmyk,
        components: 4,
        device_alternate: None,
        is_all_colorants: false,
        uses_tint_transform: false,
        icc_components: None,
    };
    let calls = Cell::new(0);
    let conversion = Conversion {
        tint: |_: u64| 0,
        alternate: |_: &Vec<u64>| None,
        icc_components: |_: &Vec<u64>| None,
        convert_icc: |_: &Vec<u64>| None,
        native: |_: &Vec<u64>| None,
        encode: |values: &Vec<u64>| values.iter().map(|bits| byte(double(*bits))).collect(),
        convert: |bytes: &Vec<u8>| {
            calls.set(calls.get() + 1);
            Some(bytes.chunks_exact(4).flat_map(|pixel| [pixel[0], pixel[1], pixel[2]]).collect())
        },
    };
    let mut output = ColorOutput::with_target(space, count, ColorTarget::Rgb).unwrap();
    for index in 0..count {
        let value = f64::from((index % 256) as u32) / 255.0;
        output.push(&vec![value.to_bits(); 4], &conversion).unwrap();
    }
    assert!(output.push(&vec![0; 4], &conversion).is_none());
    assert_eq!(calls.get(), 2);
    let finished = output.finish(false).unwrap();
    let expected: Vec<u8> =
        (0..count).flat_map(|index| [(index % 256) as u8; 3]).collect();
    assert_eq!(finished.data, expected);
    assert!(!finished.gray);
    assert!(ColorOutput::with_target(space, 0, ColorTarget::Rgb).is_none());
    assert!(ColorOutput::with_target(space, 1, ColorTarget::Cmyk).is_none());
    let tripled = finish_colors(vec![1, 2], true, true);
    assert_eq!((tripled.data, tripled.gray), (vec![1, 1, 1, 2, 2, 2], false));
}

#[test]
fn profiles_convert_batches_between_checkpoints() {
    let context = gray_context(1025, 8, (0..1025).map(|index| index as u8).collect());
    let map = |samples: &Vec<u32>| Some(vec![u64::from(samples[0])]);
    let convert = |values: &Vec<u64>| {
        Some(values.iter().flat_map(|value| [*value as u8; 3]).collect())
    };
    let calls = Cell::new(0);
    let go_on = || {
        calls.set(calls.get() + 1);
        true
    };
    let data = decode_profile(&context, 1, &map, &convert, &mut Polled::new(go_on)).unwrap();
    assert_eq!(data, (0..1025).flat_map(|index| [index as u8; 3]).collect::<Vec<_>>());
    assert_eq!(calls.get(), 3);
    assert_eq!(
        decode_profile(&context, 1, &map, &convert, &mut Polled::new(|| false)),
        Err(FloatImageError::Cancelled)
    );
    assert_eq!(
        decode_profile(
            &context,
            1,
            &|_: &Vec<u32>| None,
            &convert,
            &mut Polled::new(|| true)
        ),
        Err(FloatImageError::Decode)
    );
}

#[test]
fn embedded_opacity_is_the_last_channel() {
    let channel = |samples: [f32; 2]| ChannelSamples {
        samples: samples.map(f32::to_bits).to_vec(),
        bits_per_component: 8,
    };
    let source = JpxSamples {
        components: vec![channel([1.0, 2.0]), channel([3.0, f32::NAN])],
        premultiplication_removed: false,
    };
    let decode = intervals(vec![(0.0, 1.0)]);
    let mode = EmbeddedImageAlphaMode::Premultiplied;
    let samples = EmbeddedSamples::new(&source, mode, 2, 1, 1, &decode).unwrap();
    assert!(samples.premultiplied);
    let pixel = samples.read(0).unwrap();
    assert_eq!((pixel.alpha, pixel.colors), (f32::to_bits(3.0), vec![f32::to_bits(1.0)]));
    assert!(samples.read(1).is_none() && samples.read(2).is_none());
    let mode = EmbeddedImageAlphaMode::Unassociated;
    assert!(!EmbeddedSamples::new(&source, mode, 2, 1, 1, &decode).unwrap().premultiplied);
    assert!(EmbeddedSamples::new(&source, mode, 1, 1, 1, &decode).is_none());
    assert!(EmbeddedSamples::new(&source, mode, 2, 1, 2, &decode).is_none());
}

#[test]
fn embedded_opacity_is_undone_before_colors_are_put_out() {
    let channel = |samples: [f32; 2]| ChannelSamples {
        samples: samples.map(f32::to_bits).to_vec(),
        bits_per_component: 8,
    };
    let space = OutputSpace {
        kind: ColorSpaceKind::DeviceGray,
        components: 1,
        device_alternate: None,
        is_all_colorants: false,
        uses_tint_transform: false,
        icc_components: None,
    };
    let conversion = Conversion {
        tint: |_: u64| 0,
        alternate: |_: &Vec<u64>| None,
        icc_components: |_: &Vec<u64>| None,
        convert_icc: |_: &Vec<u64>| None,
        native: |values: &Vec<u64>| Some([byte(double(values[0])); 3]),
        encode: |_: &Vec<u64>| Vec::new(),
        convert: |_: &Vec<u8>| None,
    };
    let recover = |pixel: &EmbeddedPixel| {
        let value = f64::from(float(pixel.colors[0])) / f64::from(float(pixel.alpha));
        vec![value.min(1.0).to_bits()]
    };
    let decode = intervals(vec![(0.0, 1.0)]);
    let mode = EmbeddedImageAlphaMode::Premultiplied;
    let filled = |alpha: [f32; 2]| {
        let source = JpxSamples {
            components: vec![channel([51.0, 102.0]), channel(alpha)],
            premultiplication_removed: false,
        };
        let samples = EmbeddedSamples::new(&source, mode, 2, 1, 1, &decode).unwrap();
        let mut output = ColorOutput::with_target(space, 2, ColorTarget::Rgb).unwrap();
        output.fill_embedded(&samples, &recover, &conversion)?;
        output.finish(false)
    };
    let finished = filled([102.0, 255.0]).unwrap();
    assert_eq!((finished.data, finished.gray), (vec![128, 102], true));
    assert!(filled([102.0, f32::INFINITY]).is_none());
}

fn with_document<T>(header: &str, data: &[u8], run: impl FnOnce(&Document) -> T) -> T {
    run(&tint_document(header, data, b""))
}

#[test]
fn matte_recovery_precedes_nonlinear_color_conversion() {
    for (space, decode, matte, expected) in [
        (
            "[/CalGray<</WhitePoint[.95047 1 1.08883]>>]",
            ".5 .5",
            ".9",
            [89; 3],
        ),
        (
            "[/CalRGB<</WhitePoint[.95047 1 1.08883]/Matrix[.95047 0 0 0 1 0 0 0 1.08883]>>]",
            ".5 .5 .5 .5 .5 .5",
            ".9 .9 .9",
            [89; 3],
        ),
        (
            "[/Lab<</WhitePoint[.95047 1 1.08883]>>]",
            "50 50 0 0 0 0",
            "80 0 0",
            [48; 3],
        ),
    ] {
        let image = decoded(
            space,
            1,
            1,
            &format!("/BitsPerComponent 8/Decode[{decode}]"),
            &vec![0; decode.split_whitespace().count() / 2],
            &format!("/BitsPerComponent 8/Decode[.5 .5]/Matte[{matte}]"),
            &[0],
        )
        .unwrap();
        assert_eq!(rgb(&image), expected, "{space}");
        assert_eq!(image.alpha.unwrap().data, [128]);
    }
}

#[test]
fn matte_recovery_handles_packed_rows_and_subtractive_components() {
    for bits in [1, 2, 4, 8, 16] {
        let max = (1_u32 << bits) - 1;
        let mut data = Vec::new();
        let mut alpha = Vec::new();
        for _ in 0..2 {
            let mut row = vec![0_u8; (3 * bits as usize).div_ceil(8)];
            for (i, value) in [0, max / 2, max].into_iter().enumerate() {
                for bit in 0..bits as usize {
                    let offset = i * bits as usize + bit;
                    row[offset / 8] |=
                        (((value >> (bits as usize - bit - 1)) & 1) as u8) << (7 - offset % 8);
                }
            }
            data.extend(row);
            alpha.extend([255; 3]);
        }
        let image = decoded(
            "/DeviceGray",
            3,
            2,
            &format!("/BitsPerComponent {bits}"),
            &data,
            "/BitsPerComponent 8/Matte[.5]",
            &alpha,
        )
        .unwrap();
        assert_eq!(
            rgb(&image),
            [
                0,
                (f64::from(max / 2) / f64::from(max) * 255.0).round() as u8,
                255
            ]
            .into_iter()
            .flat_map(|v| [v; 3])
            .collect::<Vec<_>>()
            .repeat(2)
        );
    }
    let image = decoded(
        "/DeviceCMYK",
        1,
        1,
        "/BitsPerComponent 8/Decode[.25 .25 .25 .25 .25 .25 .25 .25]",
        &[0; 4],
        "/BitsPerComponent 8/Decode[.5 .5]/Matte[0 0 0 0]",
        &[0],
    )
    .unwrap();
    assert_eq!(rgb(&image), cmyk_bytes(&[128; 4]));
}

#[test]
fn decode_affine_keeps_opposing_bounds_and_clamps_only_after_mapping() {
    let map = |low: f32, high: f32| Interval { low: low.to_bits(), high: high.to_bits() };
    assert_eq!(decode_sample(1, 3, map(-f32::MAX / 2.0, f32::MAX)), 0.0);
    assert_eq!(decode_sample(0, 65535, map(0.125, 0.875)), 0.125);
    assert_eq!(decode_sample(65535, 65535, map(0.125, 0.875)), 0.875);
    let image = decode_single(
        "/Width 3 /Height 1 /ColorSpace /DeviceGray /BitsPerComponent 8 /Decode [-1 2]",
        &[0, 128, 255],
        36,
        || true,
    )
    .unwrap();
    assert_eq!(
        floats(&image),
        [
            vec![0.0; 3],
            vec![(129.0_f64 / 255.0) as f32; 3],
            vec![1.0; 3]
        ]
        .concat()
    );
}

#[test]
fn binary64_decode_retains_source_side_of_binary32_cutoff_and_charges_capacity() {
    let header = "/Width 1 /Height 1 /ColorSpace /DeviceGray /BitsPerComponent 16";
    with_document(header, &[0xff, 0xfe], |image| {
        let data = decode_float(image, 8, 24, &|| true).unwrap();
        assert_eq!(data.data.len(), 24);
        for bytes in data.data.chunks_exact(8) {
            let value = f64::from_le_bytes(bytes.try_into().unwrap());
            assert_eq!(value, 65534.0 / 65535.0);
            assert!(value < f64::from(value as f32));
        }
        assert!(matches!(
            decode_float(image, 8, 23, &|| true),
            Err(FloatImageError::Limit { requested: 24 })
        ));
        assert!(matches!(
            decode_float(image, 8, 24, &|| false),
            Err(FloatImageError::Cancelled)
        ));
    });
    with_document(header, &[0xff], |image| {
        assert!(matches!(
            decode_float(image, 8, 24, &|| true),
            Err(FloatImageError::Decode)
        ));
    });
    with_document(
        "/Width 1 /Height 1 /ColorSpace [/CalGray <</WhitePoint[0.95047 1 1.08883]/Gamma 2>>] /BitsPerComponent 16",
        &[0x80, 0],
        |image| {
            let wide = decode_float(image, 8, 24, &|| true).unwrap();
            let narrow = decode_float(image, 4, 12, &|| true).unwrap();
            assert!(
                wide.data
                    .chunks_exact(8)
                    .zip(floats(&narrow))
                    .any(|(bytes, value)| {
                        let wide = f64::from_le_bytes(bytes.try_into().unwrap());
                        wide != f64::from(value) && wide as f32 == value
                    })
            );
        },
    );
}

#[test]
fn lab_native_samples_decode_before_color_conversion_at_all_pdf_depths() {
    for bits in [1, 2, 4, 8, 16] {
        let maximum = (1_u32 << bits) - 1;
        let mut data = Vec::new();
        // Two three-pixel rows; pad each row separately for packed depths.
        let samples = [0, maximum / 2, maximum, maximum, 1, 0];
        for row in samples.chunks_exact(3) {
            let mut row_data = vec![0_u8; (9 * bits as usize).div_ceil(8)];
            for (i, sample) in row.iter().flat_map(|v| [*v, 0, 0]).enumerate() {
                for bit in 0..bits as usize {
                    let offset = i * bits as usize + bit;
                    row_data[offset / 8] |=
                        (((sample >> (bits as usize - bit - 1)) & 1) as u8) << (7 - offset % 8);
                }
            }
            data.extend(row_data);
        }
        for decode in ["0 100 0 0 0 0", "100 0 0 0 0 0", "-50 150 0 0 0 0"] {
            let bounds: Vec<f64> = decode
                .split_whitespace()
                .map(|v| v.parse().unwrap())
                .collect();
            let header = format!(
                "/Width 3 /Height 2 /ColorSpace [/Lab <</WhitePoint[.95047 1 1.08883]>>] /BitsPerComponent {bits} /Decode [{decode}]"
            );
            with_document(&header, &data, |image| {
                let wide = decode_float(image, 8, 144, &|| true).unwrap();
                let ordinary = decode_whole(image).unwrap();
                assert!(!ordinary.gray, "Lab remains RGB");
                for ((sample, pixel), bytes) in samples
                    .iter()
                    .zip(wide.data.chunks_exact(24))
                    .zip(ordinary.data.chunks_exact(3))
                {
                    let lightness = (bounds[0]
                        + f64::from(*sample) / f64::from(maximum) * (bounds[1] - bounds[0]))
                        .clamp(0.0, 100.0);
                    let y = if lightness <= 8.0 {
                        lightness * 27.0 / 24389.0
                    } else {
                        ((lightness + 16.0) / 116.0).powi(3)
                    };
                    let expected = if y <= 0.0031308 {
                        12.92 * y
                    } else {
                        1.055 * y.powf(1.0 / 2.4) - 0.055
                    };
                    for (channel, byte) in pixel.chunks_exact(8).zip(bytes) {
                        let value = f64::from_le_bytes(channel.try_into().unwrap());
                        assert!(
                            (value - expected).abs() < 2e-6,
                            "{bits}, {decode}, {sample}: {value} != {expected}"
                        );
                        assert_eq!(*byte, (value * 255.0).round() as u8);
                    }
                }
                assert!(matches!(
                    decode_float(image, 8, 143, &|| true),
                    Err(FloatImageError::Limit { requested: 144 })
                ));
                assert!(matches!(
                    decode_float(image, 8, 144, &|| false),
                    Err(FloatImageError::Cancelled)
                ));
            });
        }
    }
}

#[test]
fn lab_sixteen_bit_neighbors_survive_transfer_cut_and_invalid_inputs_fail_closed() {
    let header = "/Width 2 /Height 1 /ColorSpace [/Lab <</WhitePoint[.95047 1 1.08883]>>] /BitsPerComponent 16 /Decode [0 100 0 0 0 0]";
    let data: Vec<u8> = [32768_u16, 0, 0, 32769, 0, 0]
        .into_iter()
        .flat_map(u16::to_be_bytes)
        .collect();
    with_document(header, &data, |image| {
        let wide = decode_float(image, 8, 48, &|| true).unwrap();
        let samples: Vec<f64> = wide
            .data
            .chunks_exact(8)
            .map(|v| f64::from_le_bytes(v.try_into().unwrap()))
            .collect();
        assert!(samples[..3].iter().all(|v| *v < 0.466342));
        assert!(samples[3..].iter().all(|v| *v > 0.466342));
    });
    with_document(header, &data[..11], |image| {
        assert!(matches!(
            decode_float(image, 8, 48, &|| true),
            Err(FloatImageError::Decode)
        ));
        assert!(decode_whole(image).is_none());
    });
    for extra in [
        "/Decode [0 100 0 0 0 0 false]",
        "/Decode false",
        "/Mask [0 0 0 0 0 0]",
        "/SMask null",
    ] {
        with_document(&format!("{header} {extra}"), &data, |image| {
            assert!(
                matches!(decode_float(image, 8, 48, &|| true), Err(FloatImageError::Unsupported)),
                "{extra}"
            );
        });
    }
}

#[test]
fn matte_recovery_precedes_icc_and_tint_transforms() {
    for (space, expected) in [
        ("[/ICCBased 6 0 R]", 89),
        (
            "[/Separation /Spot [/CalGray<</WhitePoint[1 1 1]>>] <</FunctionType 2/Domain[0 1]/C0[0]/C1[1]/N 1>>]",
            90,
        ),
        (
            "[/DeviceN [/Spot] [/CalGray<</WhitePoint[1 1 1]>>] <</FunctionType 2/Domain[0 1]/C0[0]/C1[1]/N 1>>]",
            90,
        ),
    ] {
        let image = decoded(
            space,
            1,
            1,
            "/BitsPerComponent 8/Decode[.5 .5]",
            &[0],
            "/BitsPerComponent 8/Decode[.5 .5]/Matte[.9]",
            &[0],
        )
        .unwrap();
        assert!(
            rgb(&image).iter().all(|v| v.abs_diff(expected) <= 1),
            "{space}: {:?}",
            rgb(&image)
        );
    }
    let image = decoded(
        "[/Indexed /DeviceRGB 0 <808080>]",
        1,
        1,
        "/BitsPerComponent 8",
        &[0],
        "/BitsPerComponent 8/Matte[0]",
        &[128],
    )
    .unwrap();
    assert_eq!(rgb(&image), [128; 3]);
}

#[test]
fn indexed_matte_recovers_palette_components_before_base_conversion() {
    for (base, palette, expected) in [
        ("/DeviceRGB", "8040c0e61e64", [26, 98, 255]),
        (
            "[/CalGray<</WhitePoint[.95047 1 1.08883]>>]",
            "80e6",
            [90; 3],
        ),
        (
            "[/CalRGB<</WhitePoint[.95047 1 1.08883]/Matrix[.95047 0 0 0 1 0 0 0 1.08883]>>]",
            "808080e6e6e6",
            [90; 3],
        ),
        (
            "[/Lab<</WhitePoint[.95047 1 1.08883]/Range[0 0 0 0]>>]",
            "800000cc0000",
            [49; 3],
        ),
        ("/DeviceCMYK", "8080808000000000", [0; 3]),
        ("[/ICCBased 6 0 R]", "80e6", [90; 3]),
        (
            "[/Separation /Spot [/CalGray<</WhitePoint[1 1 1]>>] <</FunctionType 2/Domain[0 1]/C0[0]/C1[1]/N 1>>]",
            "80e6",
            [90; 3],
        ),
        (
            "[/DeviceN [/Spot] [/CalGray<</WhitePoint[1 1 1]>>] <</FunctionType 2/Domain[0 1]/C0[0]/C1[1]/N 1>>]",
            "80e6",
            [90; 3],
        ),
    ] {
        for matte in ["1", ".75", ".5"] {
            let image = decoded(
                &format!("[/Indexed {base} 1 <{palette}>]"),
                1,
                1,
                "/BitsPerComponent 8",
                &[0],
                &format!("/BitsPerComponent 8/Decode[.5 .5]/Matte[{matte}]"),
                &[0],
            )
            .unwrap();
            assert_eq!(rgb(&image), expected, "{base}: {matte}");
            assert_eq!(image.alpha.unwrap().data, [128]);
        }
    }
}

/// Rows of native samples, packed as those of other images.
fn packed(samples: &[u32], per_row: usize, depth: usize) -> Vec<u8> {
    let mut data = Vec::new();
    for row in samples.chunks_exact(per_row) {
        let mut bytes = vec![0_u8; (per_row * depth).div_ceil(8)];
        for (i, sample) in row.iter().enumerate() {
            for bit in 0..depth {
                let offset = i * depth + bit;
                bytes[offset / 8] |= (((sample >> (depth - bit - 1)) & 1) as u8) << (7 - offset % 8);
            }
        }
        data.extend(bytes);
    }
    data
}

/// The samples of the images in the tests that are encoded at a depth.
fn depth_samples(depth: usize) -> Vec<u32> {
    let maximum: u32 = (1_u32 << depth) - 1;
    vec![0, maximum / 2, maximum, 1, maximum - 1, maximum.div_ceil(2)]
}

#[test]
fn matte_jpx_source_and_mask_retain_native_depth_and_dictionary_precedence() {
    let source: Vec<u32> =
        (0..6).flat_map(|i| (0..3).map(move |c| (i * 10711 + c * 19789 + 32767) & 65535)).collect();
    let image = decoded(
        "/DeviceRGB",
        3,
        2,
        "/NativeDepth 16/BitsPerComponent 1/Decode false",
        &packed(&source, 9, 16),
        "/BitsPerComponent 8/Decode[.5 .5]/Matte[0 0 0]",
        &[0; 6],
    )
    .unwrap();
    let expected: Vec<u8> = (0..6)
        .flat_map(|i| {
            (0..3).map(move |c| {
                let sample = (i * 10711 + c * 19789 + 32767) & 65535;
                ((2.0 * f64::from(sample) / 65535.0).min(1.0) * 255.0).round() as u8
            })
        })
        .collect();
    assert_eq!(rgb(&image), expected);
    let samples = [0_u16, 32767, 65535, 1, 65534, 32768];
    let source: Vec<u8> = samples
        .iter()
        .flat_map(|v| [v / 2; 3])
        .flat_map(u16::to_be_bytes)
        .collect();
    let image = decoded(
        "/DeviceRGB",
        3,
        2,
        "/BitsPerComponent 16",
        &source,
        "/NativeDepth 16/BitsPerComponent 1/Decode false/Matte[0 0 0]",
        &packed(&depth_samples(16), 3, 16),
    )
    .unwrap();
    let expected: Vec<u8> = samples
        .iter()
        .flat_map(|v| {
            [if *v == 0 {
                0
            } else {
                (f64::from(v / 2) / f64::from(*v) * 255.0).round() as u8
            }; 3]
        })
        .collect();
    assert_eq!(rgb(&image), expected);
    assert_eq!(
        image.alpha.unwrap().data,
        samples.map(|v| (f64::from(v) / 65535.0 * 255.0).round() as u8)
    );
}

#[test]
fn indexed_matte_jpx_and_varying_opacity_preserve_palette_ownership() {
    let image = decoded(
        "[/Indexed /DeviceGray 1 <80e6>]",
        3,
        2,
        "/NativeDepth 16/BitsPerComponent 1/Decode[1 0]",
        &packed(&depth_samples(16), 3, 16),
        "/BitsPerComponent 8/Decode[.5 .5]/Matte[1]",
        &[0; 6],
    )
    .unwrap();
    assert_eq!(
        rgb(&image),
        [26, 230, 230, 230, 230, 230]
            .into_iter()
            .flat_map(|v| [v; 3])
            .collect::<Vec<_>>()
    );
    let image = decoded(
        "[/Indexed /DeviceGray 1 <80e6>]",
        4,
        1,
        "/BitsPerComponent 8",
        &[0; 4],
        "/BitsPerComponent 8/Matte[1]",
        &[0, 64, 128, 255],
    )
    .unwrap();
    assert_eq!(
        rgb(&image),
        [230, 0, 27, 128]
            .into_iter()
            .flat_map(|v| [v; 3])
            .collect::<Vec<_>>()
    );
    assert_eq!(image.alpha.unwrap().data, [0, 64, 128, 255]);
}

#[test]
fn jpx_tints_keep_native_depth_and_ignore_pdf_decode_overrides() {
    for bits in [1, 3, 8, 12, 16] {
        let header = format!("/Width 3/Height 2/NativeDepth {bits}/BitsPerComponent 1/Decode false/ColorSpace[/Separation /Spot /DeviceGray <</FunctionType 2/Domain[0 1]/Range[0 1]/C0[-32768]/C1[32767]/N 1>>]");
        let image = decode(&header, &packed(&depth_samples(bits), 3, bits), b"").unwrap();
        let maximum: u32 = (1_u32 << bits) - 1;
        let expected =
            [0, maximum / 2, maximum, 1, maximum - 1, maximum.div_ceil(2)].map(|sample| {
                ((65535.0 * f64::from(sample) / f64::from(maximum) - 32768.0).clamp(0.0, 1.0)
                    * 255.0)
                    .round() as u8
            });
        assert_eq!(colors(&image), expected, "depth {bits}");
    }
}

/// An image of one pixel with native samples; the last one is the opacity.
fn embedded(
    samples: &[u32],
    depth: u8,
    space: &str,
    mode: &str,
    extra: &str,
    target: ColorTarget,
) -> Option<DecodedImage> {
    let header = format!(
        "/Width 1/Height 1/NativeDepth {depth}/SMaskInData {mode}{space}{extra}"
    );
    let opaque = samples.len() > 1;
    let colors = if opaque { &samples[..samples.len() - 1] } else { samples };
    let data = packed(colors, colors.len(), usize::from(depth));
    let components = samples
        .iter()
        .map(|sample| ChannelSamples {
            samples: vec![(*sample as f32).to_bits()],
            bits_per_component: depth,
        })
        .collect();
    let jpx = JpxSamples { components, premultiplication_removed: false };
    decode_as(&tint_document(&header, &data, b""), target, opaque.then_some(jpx))
}

const RGB8: [u32; 4] = [64, 128, 32, 128];

#[test]
fn parent_matte_does_not_change_jpx_channel_multiplication() {
    for matte in ["", "/Matte[1 0 1]", "/Matte/Unused"] {
        let decoded =
            embedded(&RGB8, 8, "/ColorSpace/DeviceRGB", "2", matte, ColorTarget::Rgb).unwrap();
        assert_eq!(rgb(&decoded), [128, 255, 64]);
    }
}

#[test]
fn native_opacity_and_color_precede_calgray_gamma() {
    let space = "/ColorSpace[/CalGray<</WhitePoint[.95047 1 1.08883]/Gamma .01>>]";
    for (mode, expected) in [("2", 249), ("1", 248)] {
        let decoded = embedded(&[128, 32768], 16, space, mode, "", ColorTarget::Rgb).unwrap();
        assert_eq!(rgb(&decoded), [expected; 3]);
        assert_eq!(decoded.alpha.unwrap().data, [128]);
    }
    let decoded = embedded(
        &[32768, 32769],
        16,
        "/ColorSpace[/CalGray<</WhitePoint[.95047 1 1.08883]/Gamma 1000>>]",
        "2",
        "",
        ColorTarget::Rgb,
    )
    .unwrap();
    assert_eq!(rgb(&decoded), [252; 3]);
    assert_eq!(decoded.alpha.unwrap().data, [128]);
}

#[test]
fn channel_recovery_precedes_lab_offsets_and_index_rounding() {
    let decoded = embedded(
        &[64, 64, 64, 128],
        8,
        "/ColorSpace[/Lab<</WhitePoint[.95047 1 1.08883]>>]",
        "2",
        "",
        ColorTarget::Rgb,
    )
    .unwrap();
    // 64 * 255 / 128 = 127.5: L=50, a=b=0 in the default [-100,100] ranges.
    assert_eq!(rgb(&decoded), [119; 3]);
    let decoded = embedded(
        &[1, 26214],
        16,
        "/ColorSpace[/Indexed/DeviceRGB 3<000000ffffffFF00000000FF>]",
        "2",
        "",
        ColorTarget::Rgb,
    )
    .unwrap();
    // Source index 1 / .4 = 2.5 rounds to palette entry 3.
    assert_eq!(rgb(&decoded), [0, 0, 255]);
    assert_eq!(decoded.alpha.unwrap().data, [102]);
}

#[test]
fn opacity_mode_requires_an_integer_and_an_actual_channel() {
    for mode in ["1.5", "1.0", "-1", "3", "/Bad", "true"] {
        assert!(
            embedded(&[128, 32768], 16, "/ColorSpace/DeviceGray", mode, "", ColorTarget::Rgb)
                .is_none(),
            "{mode}"
        );
    }
    assert!(
        embedded(&[128], 16, "/ColorSpace/DeviceGray", "1", "", ColorTarget::Rgb).is_none()
    );
    for mode in ["0", "null", "99 0 R"] {
        let decoded =
            embedded(&RGB8, 8, "/ColorSpace/DeviceRGB", mode, "", ColorTarget::Rgb).unwrap();
        assert_eq!(rgb(&decoded), [64, 128, 32]);
        assert!(decoded.alpha.is_none());
    }
}

#[test]
fn native_depths_and_channel_order_preserve_opacity() {
    for bits in [1, 2, 4, 8, 12, 16] {
        let maximum = (1_u32 << bits) - 1;
        let color = maximum / 8;
        let opacity = maximum.div_ceil(2);
        let decoded = embedded(
            &[color, opacity],
            bits,
            "/ColorSpace/DeviceGray",
            "2",
            "/Decode[1 0]/BitsPerComponent 1",
            ColorTarget::Rgb,
        )
        .unwrap();
        let expected =
            ((u64::from(color) * 255 * 2 + u64::from(opacity)) / (2 * u64::from(opacity))) as u8;
        assert_eq!(rgb(&decoded), [expected; 3], "{bits}");
        assert_eq!(
            decoded.alpha.unwrap().data,
            [
                ((u64::from(opacity) * 255 * 2 + u64::from(maximum)) / (2 * u64::from(maximum)))
                    as u8
            ]
        );
    }
    for space in ["", "/ColorSpace/DeviceRGB"] {
        let extra = "/SMask/Unused/Mask[0 255]";
        let decoded = embedded(&RGB8, 8, space, "2", extra, ColorTarget::Rgb).unwrap();
        assert_eq!(rgb(&decoded), [128, 255, 64]);
        assert_eq!(decoded.alpha.unwrap().data, [128]);
        let decoded = embedded(&[64, 128, 32, 0], 8, space, "2", "", ColorTarget::Rgb).unwrap();
        assert_eq!(rgb(&decoded), [0; 3]);
        assert_eq!(decoded.alpha.unwrap().data, [0]);
        let decoded = embedded(&[64, 128, 32, 255], 8, space, "2", "", ColorTarget::Rgb).unwrap();
        assert_eq!(rgb(&decoded), [64, 128, 32]);
        assert_eq!(decoded.alpha.unwrap().data, [255]);
    }
}

#[test]
fn subtractive_source_components_recover_before_cmyk_conversion() {
    let decoded = embedded(
        &[64, 128, 32, 16, 128],
        8,
        "/ColorSpace/DeviceCMYK",
        "2",
        "",
        ColorTarget::Cmyk,
    )
    .unwrap();
    assert_eq!(decoded.data, [128, 255, 64, 32]);
    assert_eq!(decoded.alpha.unwrap().data, [128]);
}

#[test]
fn conversions_ask_before_every_block_and_stop_where_the_host_does() {
    let header = "/Width 2049 /Height 1 /ColorSpace /DeviceGray /BitsPerComponent 8";
    let bytes = 2049 * 3 * 4;
    // Once before anything, once behind the samples, before three blocks, and at the end.
    for allowed in 0..7 {
        let calls = Cell::new(0);
        let result = decode_single(header, &vec![128; 2049], bytes, || {
            calls.set(calls.get() + 1);
            calls.get() <= allowed
        });
        if allowed < 6 {
            assert!(matches!(result, Err(FloatImageError::Cancelled)), "{allowed}");
            assert_eq!(calls.get(), allowed + 1);
        } else {
            assert_eq!(result.unwrap().data.len() as u64, bytes);
            assert_eq!(calls.get(), 6);
        }
    }
    let calls = Cell::new(0);
    let result = decode_single(header, &vec![128; 2049], bytes - 1, || {
        calls.set(calls.get() + 1);
        true
    });
    assert!(matches!(result, Err(FloatImageError::Limit { requested }) if requested == bytes));
    assert_eq!(calls.get(), 1);

    let context = gray_context(2049, 8, (0..2049).map(|index| index as u8).collect());
    let triple = |samples: &Vec<u32>| Some(vec![samples[0] as u8; 3]);
    let mut samples = Samples::new(&context, false).unwrap();
    for count in [1024, 1024, 1, 0] {
        let start = samples.column as usize + samples.row as usize * 2049;
        let block = convert_block(&mut samples, &triple).unwrap();
        let expected: Vec<u8> =
            (start..start + count).flat_map(|index| [index as u8; 3]).collect();
        assert_eq!(block, expected);
    }
    let mut samples = Samples::new(&context, false).unwrap();
    assert!(convert_block(&mut samples, &|_: &Vec<u32>| None).is_none());
    let no_late_color = |samples: &Vec<u32>| {
        if samples[0] == 255 { None } else { triple(samples) }
    };
    let calls = Cell::new(0);
    let mut checkpoint = Polled::new(|| {
        calls.set(calls.get() + 1);
        true
    });
    assert_eq!(
        convert_samples(&context, &mut checkpoint, &no_late_color),
        Err(FloatImageError::Decode)
    );
    assert_eq!(calls.get(), 1);
}

#[test]
fn batches_stop_where_the_host_does() {
    let context = gray_context(2049, 8, vec![7; 2049]);
    let map = |samples: &Vec<u32>| Some(vec![u64::from(samples[0])]);
    let convert = |values: &Vec<u64>| {
        Some(values.iter().flat_map(|value| [*value as u8; 3]).collect())
    };
    for allowed in 0..5 {
        let calls = Cell::new(0);
        let mut checkpoint = Polled::new(|| {
            calls.set(calls.get() + 1);
            calls.get() <= allowed
        });
        let result = decode_profile(&context, 1, &map, &convert, &mut checkpoint);
        if allowed < 4 {
            assert_eq!(result, Err(FloatImageError::Cancelled));
            assert_eq!(calls.get(), allowed + 1);
        } else {
            assert_eq!(result.unwrap(), vec![7; 2049 * 3]);
            assert_eq!(calls.get(), 4);
        }
    }
}
