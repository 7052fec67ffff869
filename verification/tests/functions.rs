use hayro_core::function::argument::{Argument, RealCall};
use hayro_core::function::definition::{Function, FunctionType, Type4};
use hayro_core::function::eval::{Affine, Arithmetic};
use hayro_core::function::evaluate::{eval_inner, InterpreterStack};
use hayro_core::function::inspection::FunctionDefinition;
use hayro_core::function::instruction::CalculatorInstruction;
use hayro_core::function::numeric::{Clamper, Interval, MAX_COMPONENTS};
use hayro_core::function::program::{
    parse_procedure, PostScriptOp, MAX_CALCULATOR_NESTING, MAX_CALCULATOR_OPERATIONS,
};
use hayro_core::function::sampling::axis_places;
use hayro_core::function::transfer::{
    selected_transfer_function, Quantization, TransferFunction,
};
use hayro_core::function::type0::{SampledCheck, Type0, MAX_CONTRIBUTIONS};
use hayro_core::function::type2::Type2;
use hayro_core::object::{
    Array, Dict, Document, Entry, IndirectObject, MaybeRef, Number, Object, ObjectIdentifier, Stream,
};
use hayro_syntax::bit_reader::BitWriter;
use hayro_syntax::object as syntax;
use hayro_syntax::object::FromBytes;
use std::f32::consts::LN_10;

fn number(number: syntax::Number) -> Number {
    Number {
        integer: number.to_string().parse().ok(),
        truncated: number.as_i64(),
        single: number.as_f32().to_bits(),
        narrowed: (number.as_f64() as f32).to_bits(),
        double: number.as_f64().to_bits(),
    }
}

fn dict(dict: &syntax::Dict<'_>) -> Dict {
    Dict {
        entries: dict
            .entries()
            .map(|(key, value)| Entry {
                key: key.to_vec(),
                value: maybe_ref(value),
            })
            .collect(),
    }
}

fn maybe_ref(value: syntax::MaybeRef<syntax::Object<'_>>) -> MaybeRef {
    match value {
        syntax::MaybeRef::Ref(reference) => MaybeRef::Ref(ObjectIdentifier {
            obj_number: i32::try_from(reference.obj_number).unwrap(),
            gen_number: reference.gen_number,
        }),
        syntax::MaybeRef::NotRef(value) => MaybeRef::NotRef(object(value)),
    }
}

fn stream(stream: &syntax::Stream<'_>) -> Stream {
    Stream {
        dict: dict(stream.dict()),
        data: stream.decoded().ok().map(|data| data.into_owned()),
    }
}

fn object(value: syntax::Object<'_>) -> Object {
    match value {
        syntax::Object::Null(_) => Object::Null,
        syntax::Object::Boolean(value) => Object::Boolean(value),
        syntax::Object::Number(value) => Object::Number(number(value)),
        syntax::Object::String(value) => Object::String(value.as_bytes().to_vec()),
        syntax::Object::Name(value) => Object::Name(value.to_vec()),
        syntax::Object::Dict(value) => Object::Dict(dict(&value)),
        syntax::Object::Array(value) => Object::Array(Array {
            items: value.raw_iter().map(maybe_ref).collect(),
        }),
        syntax::Object::Stream(value) => Object::Stream(stream(&value)),
    }
}

/// A document without indirect objects.
fn no_objects() -> Document {
    Document {
        objects: Vec::new(),
        root: ObjectIdentifier { obj_number: 0, gen_number: 0 },
    }
}

fn read_object(source: &[u8]) -> Object {
    object(syntax::Object::from_bytes(source).unwrap())
}

fn float(bits: u32) -> f32 {
    f32::from_bits(bits)
}

fn affine64(x: f32, low: f32, high: f32, start: f32, end: f32) -> f64 {
    if x == low {
        return f64::from(start);
    }
    if x == high {
        return f64::from(end);
    }
    let [x, low, high, start, end] = [x, low, high, start, end].map(f64::from);
    sum_products([start * high, -start * x, end * x, -end * low]) / (high - low)
}

/// The sum of products that are exact, without losing small ones to cancellation.
fn sum_products(terms: [f64; 4]) -> f64 {
    let mut parts = [0.0; 4];
    let mut len = 0;
    for mut value in terms {
        let mut next = 0;
        for index in 0..len {
            let term = parts[index];
            let sum = value + term;
            let virtual_term = sum - value;
            let error = (value - (sum - virtual_term)) + (term - virtual_term);
            if error != 0.0 {
                parts[next] = error;
                next += 1;
            }
            value = sum;
        }
        parts[next] = value;
        len = next + 1;
    }
    parts[..len].iter().sum()
}

fn affine(map: Affine) -> u32 {
    let [x, low, high, start, end] =
        [map.x, map.low, map.high, map.start, map.end].map(f32::from_bits);
    (affine64(x, low, high, start, end) as f32).to_bits()
}

/// Bounds the error of interpolation in double precision.
fn judge(check: SampledCheck) -> bool {
    let scale =
        32.0 * f64::EPSILON * check.terms as f64 * (1_u64 << check.cubic_axes) as f64;
    let [low, high] = [check.decode.low, check.decode.high].map(|bits| f64::from(float(bits)));
    // Between bounds of opposite signs, outputs near zero keep their offsets.
    let opposite = low.min(high) < 0.0 && low.max(high) > 0.0;
    let amplification = if opposite { 1.0 } else { (low.abs() + high.abs()).max(1.0) };
    !(scale * amplification > 1.0e-6)
}

fn log_power(function: &Type2, x: f32) -> f64 {
    let x = f64::from(x).abs();
    let logarithm = if (0.5..=1.5).contains(&x) {
        (x - 1.0).ln_1p()
    } else {
        x.ln()
    };
    f64::from_bits(function.exponent) * logarithm
}

fn numerically_bounded(function: &Type2) -> bool {
    let n = f64::from_bits(function.exponent);
    if n == 0.0 || n == 1.0 {
        return true;
    }
    let domain = function.clamper.domain[0];
    let (low, high) = (float(domain.low), float(domain.high));
    let tiny = f32::from_bits(1);
    for (start, end) in [(low, high.min(-tiny)), (low.max(tiny), high)] {
        if start > end || (start == end && start.abs() == 1.0) {
            continue;
        }
        let a = log_power(function, start);
        let b = log_power(function, end);
        let near_one = a.abs().max(b.abs()) <= 0.5;
        let magnitude = if near_one {
            a.exp_m1().abs().max(b.exp_m1().abs())
        } else {
            a.max(b).exp()
        };
        for (&c0, &c1) in function.c0.iter().zip(&function.c1) {
            let (c0, c1) = (f64::from(float(c0)), f64::from(float(c1)));
            if c0 == c1 {
                continue;
            }
            let anchor = if !near_one {
                c0
            } else if start < 0.0 && function.odd {
                2.0 * c0 - c1
            } else {
                c1
            };
            let error = 128.0
                * f64::EPSILON
                * (1.0 + a.abs().max(b.abs()).min(1024.0))
                * (anchor.abs() + (c1 - c0).abs() * magnitude).max(1.0);
            if !error.is_finite() || error > 1.0e-6 {
                return false;
            }
        }
    }
    true
}

/// Powers are monotone on either side of zero: their endpoints and zero bound every output.
fn bound(function: &Type2) -> bool {
    let domain = function.clamper.domain[0];
    numerically_bounded(function)
        && exponential(function, domain.low).is_some()
        && exponential(function, domain.high).is_some()
        && (float(domain.low) > 0.0
            || float(domain.high) < 0.0
            || exponential(function, 0).is_some())
}

fn exponential(function: &Type2, input: u32) -> Option<Vec<u32>> {
    let n = f64::from_bits(function.exponent);
    let domain = function.clamper.domain[0];
    let x = float(input).clamp(float(domain.low), float(domain.high));
    let power = |c0: f32, c1: f32| {
        let (c0, c1) = (f64::from(c0), f64::from(c1));
        let t = log_power(function, x);
        let negative = x < 0.0 && function.odd;
        if t.abs() <= 0.5 {
            if negative {
                (-(c1 - c0)).mul_add(t.exp_m1(), 2.0 * c0 - c1)
            } else {
                (c1 - c0).mul_add(t.exp_m1(), c1)
            }
        } else {
            let factor = if negative { -t.exp() } else { t.exp() };
            (c1 - c0).mul_add(factor, c0)
        }
    };
    let mut outputs = Vec::new();
    for (index, (&c0, &c1)) in function.c0.iter().zip(&function.c1).enumerate() {
        let (c0, c1) = (float(c0), float(c1));
        let output = if c0 == c1 {
            f64::from(c0)
        } else if n == 0.0 || x == 1.0 {
            f64::from(c1)
        } else if n == 1.0 {
            affine64(x, 0.0, 1.0, c0, c1)
        } else if x == 0.0 {
            f64::from(c0)
        } else {
            power(c0, c1)
        };
        if !output.is_finite() {
            return None;
        }
        let output = match &function.clamper.range {
            Some(range) => output.clamp(
                f64::from(float(range[index].low)),
                f64::from(float(range[index].high)),
            ),
            None => output,
        } as f32;
        if !output.is_finite() {
            return None;
        }
        outputs.push(output.to_bits());
    }
    Some(outputs)
}

/// The samples along an axis that an output depends on, each with its weight.
fn axis(key: f64, size: usize, cubic: bool) -> Vec<(usize, f64)> {
    let lower = key.floor() as usize;
    let t = key - lower as f64;
    let places = axis_places(lower, t == 0.0, size, cubic);
    let weights = match places.len() {
        1 => vec![1.0],
        2 => vec![1.0 - t, t],
        _ => {
            let t2 = t * t;
            let t3 = t2 * t;
            let h00 = 2.0 * t3 - 3.0 * t2 + 1.0;
            let h10 = t3 - 2.0 * t2 + t;
            let h01 = -2.0 * t3 + 3.0 * t2;
            let h11 = t3 - t2;
            vec![-0.5 * h10, h00 - 0.5 * h11, h01 + 0.5 * h10, 0.5 * h11]
        }
    };
    places.into_iter().zip(weights).collect()
}

fn interpolate(
    function: &Type0,
    axes: &[Vec<(usize, f64)>],
    coordinates: &mut Vec<usize>,
    weight: f64,
    out: &mut [f64],
) {
    let dimension = coordinates.len();
    if dimension == axes.len() {
        let offset = function.sample_offset(coordinates);
        for (output, sample) in out.iter_mut().zip(&function.table[offset..]) {
            *output += weight * f64::from(*sample);
        }
        return;
    }
    for &(index, factor) in &axes[dimension] {
        coordinates.push(index);
        interpolate(function, axes, coordinates, weight * factor, out);
        coordinates.pop();
    }
}

fn sampled(function: &Type0, input: &Vec<u32>) -> Option<Vec<u32>> {
    let mut axes = Vec::new();
    for (index, &bits) in input.iter().enumerate() {
        let size = function.sizes[index];
        if size == 1 {
            axes.push(axis(0.0, 1, function.cubic));
            continue;
        }
        let [low, high] =
            [function.domain[index].low, function.domain[index].high].map(f32::from_bits);
        let x = f64::from(float(bits).clamp(low, high));
        let (low, high) = (f64::from(low), f64::from(high));
        let [start, end] = [function.encode[index].low, function.encode[index].high]
            .map(|bits| f64::from(float(bits)));
        let key = (sum_products([start * high, -start * x, end * x, -end * low])
            / (high - low))
            .clamp(0.0, (size - 1) as f64);
        axes.push(axis(key, size, function.cubic));
    }
    let mut samples = vec![0.0; function.decode.len()];
    interpolate(function, &axes, &mut Vec::new(), 1.0, &mut samples);
    let maximum = ((1_u64 << function.bits) - 1) as f64;
    let outputs = samples.into_iter().enumerate().map(|(index, sample)| {
        let [start, end] = [function.decode[index].low, function.decode[index].high]
            .map(|bits| f64::from(float(bits)));
        let [low, high] = [function.range[index].low, function.range[index].high]
            .map(|bits| f64::from(float(bits)));
        ((start + (sample / maximum) * (end - start)).clamp(low, high) as f32).to_bits()
    });
    Some(outputs.collect())
}

fn single(argument: Argument) -> f32 {
    match argument {
        Argument::Integer(value) => value as f32,
        Argument::Float(bits) => float(bits),
        Argument::Bool(_) => 0.0,
    }
}

fn compute(call: RealCall) -> u32 {
    let result = match call {
        RealCall::Widen(value) => value as f32,
        RealCall::Unary(op, argument) => {
            let value = single(argument);
            match op {
                CalculatorInstruction::Ceiling => value.ceil(),
                CalculatorInstruction::Floor => value.floor(),
                CalculatorInstruction::Round => {
                    let lower = value.floor();
                    if value - lower >= 0.5 {
                        lower + 1.0
                    } else {
                        lower
                    }
                }
                CalculatorInstruction::Truncate => value.trunc(),
                CalculatorInstruction::Cos => value.to_radians().cos(),
                CalculatorInstruction::Sin => value.to_radians().sin(),
                CalculatorInstruction::Ln => value.ln(),
                CalculatorInstruction::Log => value.log10(),
                CalculatorInstruction::Sqrt => value.sqrt(),
                _ => value,
            }
        }
        RealCall::Binary(op, first, second) => {
            let (a, b) = (single(first), single(second));
            match op {
                CalculatorInstruction::Add => a + b,
                CalculatorInstruction::Sub => a - b,
                CalculatorInstruction::Mul => a * b,
                CalculatorInstruction::Div => a / b,
                CalculatorInstruction::Atan => a.atan2(b).to_degrees().rem_euclid(360.0),
                _ => a.abs().powf(b),
            }
        }
    };
    result.to_bits()
}

type Host = Arithmetic<
    fn(&Type0, &Vec<u32>) -> Option<Vec<u32>>,
    fn(&Type2, u32) -> Option<Vec<u32>>,
    fn(Affine) -> u32,
    fn(RealCall) -> u32,
>;

fn host() -> Host {
    Arithmetic {
        sampled,
        exponential,
        affine,
        compute,
    }
}

fn eval(function: &Function, input: &[f32]) -> Option<Vec<f32>> {
    let input = input.iter().map(|value| value.to_bits()).collect();
    let output = function.eval(&input, &host())?;
    Some(output.into_iter().map(f32::from_bits).collect())
}

fn eval_sampled(function: &Type0, input: &[f32]) -> Option<Vec<f32>> {
    let input: Vec<u32> = input.iter().map(|value| value.to_bits()).collect();
    if input.len() != function.sizes.len() || input.iter().any(|bits| !float(*bits).is_finite()) {
        return None;
    }
    let output = sampled(function, &input)?;
    Some(output.into_iter().map(f32::from_bits).collect())
}

fn eval_calculator(function: &Type4, input: &[f32]) -> Option<Vec<f32>> {
    let input = input.iter().map(|value| value.to_bits()).collect();
    let output = function.eval(&input, &compute)?;
    Some(output.into_iter().map(f32::from_bits).collect())
}

fn interval(low: f32, high: f32) -> Interval {
    Interval {
        low: low.to_bits(),
        high: high.to_bits(),
    }
}

fn pairs(intervals: &[Interval]) -> Vec<(f32, f32)> {
    intervals
        .iter()
        .map(|interval| (float(interval.low), float(interval.high)))
        .collect()
}

fn reals(values: &[u32]) -> Vec<f32> {
    values.iter().map(|bits| float(*bits)).collect()
}

fn stream_source(entries: &str, data: &[u8]) -> Vec<u8> {
    let mut bytes = format!("<< {entries} /Length {} >> stream\n", data.len()).into_bytes();
    bytes.extend_from_slice(data);
    bytes.extend_from_slice(b"\nendstream");
    bytes
}

fn parse_sampled(entries: &str, data: &[u8]) -> Option<Type0> {
    let Object::Stream(stream) = read_object(&stream_source(entries, data)) else {
        panic!("stream")
    };
    Type0::new(&no_objects(), &stream, &judge)
}

fn parse_object(source: &[u8]) -> Option<Function> {
    Function::new(&no_objects(), &read_object(source), &judge, &bound)
}

fn parse(source: &str) -> Option<Function> {
    parse_object(source.as_bytes())
}

fn stream_function(entries: &str, data: &[u8]) -> Function {
    parse_object(&stream_source(entries, data)).unwrap()
}

fn quantization() -> Quantization<fn(u8) -> u32, fn(u32) -> u8> {
    Quantization {
        unit: |byte| (f32::from(byte) / 255.0).to_bits(),
        byte: |bits| (float(bits) * 255.0 + 0.5) as u8,
    }
}

fn transfer(function: Function) -> Option<TransferFunction> {
    TransferFunction::new(function, &host(), &quantization())
}

fn parse_transfer(source: &str) -> Option<TransferFunction> {
    transfer(parse(source)?)
}

fn apply(function: &TransferFunction, value: f32) -> Option<f32> {
    function.apply_f32(value.to_bits(), &host()).map(f32::from_bits)
}

fn packed(bits: u8, values: &[u32]) -> Vec<u8> {
    let mut bytes = vec![0; (usize::from(bits) * values.len()).div_ceil(8)];
    let mut writer = BitWriter::new(&mut bytes, bits).unwrap();
    for &value in values {
        writer.write(value).unwrap();
    }
    bytes
}


#[test]
fn all_sample_widths_preserve_values_padding_and_interpolation() {
    for bits in [1, 2, 4, 8, 12, 16, 24, 32] {
        let max = ((1_u64 << bits) - 1) as u32;
        let values = [0, max / 3, max];
        let bytes = packed(bits, &values);
        let entries = format!("/Domain [0 2] /Range [0 1] /Size [3] /BitsPerSample {bits}");
        let function = parse_sampled(&entries, &bytes).unwrap();
        assert_eq!(function.table, values);
        for (input, expected) in [
            (0.0, 0.0),
            (1.0, f64::from(max / 3) / f64::from(max)),
            (2.0, 1.0),
            (1.5, (f64::from(max / 3) / f64::from(max) + 1.0) / 2.0),
        ] {
            assert_eq!(
                eval_sampled(&function, &[input]).unwrap()[0],
                expected as f32,
                "{bits}: {input}"
            );
        }
        assert!(parse_sampled(&entries, &bytes[..bytes.len() - 1]).is_none());
        let mut trailing = bytes.clone();
        trailing.extend([255; 8]);
        assert_eq!(parse_sampled(&entries, &trailing).unwrap().table, values);
    }
}

#[test]
fn cubic_values_and_boundaries_match_independent_hermite_controls() {
    let function = parse_sampled(
        "/Domain [0 3] /Range [0 1] /Size [4] /BitsPerSample 8 /Order 3",
        &[0, 255, 0, 0],
    )
    .unwrap();
    for (input, expected) in [
        (-1.0, 0.0),
        (0.25, 0.2265625),
        (0.5, 0.5625),
        (0.75, 0.8671875),
        (1.0, 1.0),
        (1.5, 0.5625),
        (2.5, 0.0),
        (4.0, 0.0),
    ] {
        assert_eq!(
            eval_sampled(&function, &[input]).unwrap()[0],
            expected,
            "{input}"
        );
    }
    let unclipped = parse_sampled(
        "/Domain [0 3] /Range [-1 2] /Decode [0 1] /Size [4] /BitsPerSample 8 /Order 3",
        &[0, 255, 0, 0],
    )
    .unwrap();
    assert_eq!(eval_sampled(&unclipped, &[2.5]).unwrap()[0], -0.0625);
    for (size, bytes) in [(1, &[255][..]), (2, &[0, 255][..]), (3, &[0, 255, 0][..])] {
        let function = parse_sampled(
            &format!(
                "/Domain [0 2] /Range [0 1] /Encode [0 2] /Size [{size}] /BitsPerSample 8 /Order 3"
            ),
            bytes,
        )
        .unwrap();
        assert_eq!(
            eval_sampled(&function, &[0.5]).unwrap()[0],
            if size == 1 { 1.0 } else { 0.5 }
        );
    }
}

#[test]
fn multidimensional_tables_keep_first_dimension_fastest_and_outputs_adjacent() {
    let function = parse_sampled(
        "/Domain [0 1 0 1] /Range [0 1 0 1] /Size [2 2] /BitsPerSample 8",
        &[0, 255, 64, 128, 192, 64, 255, 0],
    )
    .unwrap();
    assert_eq!(
        eval_sampled(&function, &[1.0, 0.0]).unwrap().as_slice(),
        &[64.0 / 255.0, 128.0 / 255.0]
    );
    assert_eq!(
        eval_sampled(&function, &[0.0, 1.0]).unwrap().as_slice(),
        &[192.0 / 255.0, 64.0 / 255.0]
    );
    let result = eval_sampled(&function, &[0.25, 0.75]).unwrap();
    assert_eq!(
        result.as_slice(),
        &[(159.8125_f64 / 255.0) as f32, (91.8125_f64 / 255.0) as f32]
    );
    for sizes in [vec![4, 4], vec![4, 3], vec![4, 4, 4], vec![4, 1, 4]] {
        let entries = format!(
            "/Domain [{}] /Range [0 1] /Size [{}] /BitsPerSample 8 /Order 3 /Encode [{}]",
            "0 1 ".repeat(sizes.len()),
            sizes
                .iter()
                .map(usize::to_string)
                .collect::<Vec<_>>()
                .join(" "),
            "0.5 0.5 ".repeat(sizes.len())
        );
        let mut bytes = vec![0; sizes.iter().product()];
        for (offset, value) in bytes.iter_mut().enumerate() {
            let mut key = offset;
            let mut nonzero = true;
            for size in &sizes {
                nonzero &= *size == 1 || key % size == 1;
                key /= size;
            }
            if nonzero {
                *value = 255;
            }
        }
        let function = parse_sampled(&entries, &bytes).unwrap();
        let expected = sizes
            .iter()
            .map(|size| match size {
                1 => 1.0_f32,
                3 => 0.5,
                _ => 0.5625,
            })
            .product::<f32>();
        assert_eq!(
            eval_sampled(&function, &vec![0.5; sizes.len()]).unwrap()[0],
            expected
        );
    }
}

#[test]
fn mapping_uses_finite_wide_intermediates_reversal_and_final_range_clipping() {
    for (entries, input, expected) in [
        ("/Domain [-1 1] /Range [0 1] /Encode [1 0]", -0.5, 0.75),
        ("/Domain [-1 1] /Range [0 1] /Decode [1 0]", -0.5, 0.75),
        ("/Domain [0 1] /Range [0.25 0.75] /Decode [-2 2]", 0.0, 0.25),
        ("/Domain [0 1] /Range [0.25 0.75] /Decode [-2 2]", 1.0, 0.75),
        (
            "/Domain [-300000000000000000000000000000000000000 300000000000000000000000000000000000000] /Range [0 1]",
            0.0,
            0.5,
        ),
        (
            "/Domain [0 1] /Range [0 1] /Encode [-300000000000000000000000000000000000000 300000000000000000000000000000000000000]",
            0.5,
            0.0,
        ),
        (
            "/Domain [0 1] /Range [-1 1] /Decode [-300000000000000000000000000000000000000 300000000000000000000000000000000000000]",
            0.5,
            0.0,
        ),
    ] {
        let function =
            parse_sampled(&format!("{entries} /Size [2] /BitsPerSample 8"), &[0, 255]).unwrap();
        assert_eq!(
            eval_sampled(&function, &[input]).unwrap()[0],
            expected,
            "{entries}"
        );
        assert!(eval_sampled(&function, &[f32::NAN]).is_none());
        assert!(eval_sampled(&function, &[f32::INFINITY]).is_none());
        assert!(eval_sampled(&function, &[]).is_none());
    }
}

#[test]
fn malformed_shapes_types_and_resource_limits_fail_before_table_decoding() {
    let base = "/Domain [0 1] /Range [0 1] /Size [2] /BitsPerSample 8";
    for (old, new) in [
        ("/Domain [0 1]", "/Domain []"),
        ("/Domain [0 1]", "/Domain [0 1 0]"),
        ("/Domain [0 1]", "/Domain [0 0]"),
        ("/Domain [0 1]", "/Domain [1 0]"),
        ("/Domain [0 1]", "/Domain [0 /Bad]"),
        ("/Range [0 1]", "/Range []"),
        ("/Range [0 1]", "/Range [1 0]"),
        ("/Size [2]", "/Size [0]"),
        ("/Size [2]", "/Size [-1]"),
        ("/Size [2]", "/Size [2.0]"),
        ("/Size [2]", "/Size [2 /Bad]"),
        ("/BitsPerSample 8", "/BitsPerSample 8.0"),
        ("/BitsPerSample 8", "/BitsPerSample 3"),
        ("/Size [2]", "/Size [16777217]"),
    ] {
        assert!(parse_sampled(&base.replace(old, new), &[0, 255]).is_none(), "{new}");
    }
    for extra in [
        "/Order 2",
        "/Order 3.0",
        "/Encode []",
        "/Encode [0 1 0]",
        "/Encode /Bad",
        "/Decode [0 /Bad]",
        "/Decode [0 1 0 1]",
        "/Encode [0 9999999999999999999999999999999999999999999999]",
    ] {
        assert!(
            parse_sampled(&format!("{base} {extra}"), &[0, 255]).is_none(),
            "{extra}"
        );
    }
    for (dimensions, size, order) in [
        (MAX_COMPONENTS + 1, 1, 1),
        (17, 2, 1),
        (9, 4, 3),
        (4, usize::MAX, 1),
    ] {
        let entries = format!(
            "/Domain [{}] /Range [0 1] /Size [{}] /BitsPerSample 1 /Order {order}",
            "0 1 ".repeat(dimensions),
            format!("{size} ").repeat(dimensions)
        );
        assert!(
            parse_sampled(&entries, &[]).is_none(),
            "{dimensions}/{size}/{order}"
        );
    }
    // The inclusive work boundary remains admitted.
    let entries = format!(
        "/Domain [{}] /Range [0 1] /Size [{}] /BitsPerSample 1",
        "0 1 ".repeat(16),
        "2 ".repeat(16)
    );
    assert!(parse_sampled(&entries, &vec![0; MAX_CONTRIBUTIONS / 8]).is_some());
}

const ID: &str = "<< /FunctionType 2 /Domain [0 1] /N 1 >>";

fn stitching(domain: &str, children: &str, bounds: &str, encode: &str) -> String {
    format!(
        "<< /FunctionType 3 /Domain [{domain}] /Functions [{children}] /Bounds [{bounds}] /Encode [{encode}] >>"
    )
}


#[test]
fn true_endpoints_reversed_mapping_and_singletons() {
    for (domain, bounds, encode, count, input, expected) in [
        ("0 0.0001", "", "0 1", 1, 0.0, 0.0),
        ("0 0.0001", "", "0 1", 1, 0.000025, 0.25),
        ("0 0.0001", "", "0 1", 1, 0.0001, 1.0),
        ("100000000 100000016", "", "0 1", 1, 100000016.0, 1.0),
        ("0 1", "", "1 0", 1, 0.25, 0.75),
        ("0.5 0.5", "", "0.25 0.75", 1, 0.5, 0.25),
        ("0 1", "1", "0 1 0.25 0.75", 2, 1.0, 0.25),
        ("0 1", "0.5", "0 1 0.25 0.75", 2, 0.5, 0.25),
    ] {
        let source = stitching(domain, &format!("{ID} ").repeat(count), bounds, encode);
        let function = parse(&source).unwrap();
        assert_eq!(
            eval(&function, &[input]),
            Some(vec![expected]),
            "{source}"
        );
    }
}

#[test]
fn nested_tiny_encodes_and_adjacent_boundaries_remain_distinct() {
    let child = stitching(
        "0 0.00000001",
        &format!("{ID} {ID}"),
        "0.000000005",
        "0 1 0 1",
    );
    let parent = parse(&stitching("0 1", &child, "", "0 0.00000001")).unwrap();
    assert_eq!(reals(&parent.stitching_boundaries(&affine)), [0.5]);
    let close = parse(&stitching(
        "0 1",
        &format!("{ID} {ID} {ID}"),
        "0.5 0.50000006",
        "0 1 0 1 0 1",
    ))
    .unwrap();
    assert_eq!(reals(&close.stitching_boundaries(&affine)), [0.5, 0.5_f32.next_up()]);
}

#[test]
fn function_graph_depth_and_node_limits_are_shared() {
    let mut nested = ID.to_owned();
    for _ in 0..31 {
        nested = stitching("0 1", &nested, "", "0 1");
    }
    assert!(parse(&nested).is_some());
    assert!(parse(&stitching("0 1", &nested, "", "0 1")).is_none());
    let leaf = stitching(
        "0 1",
        &format!("{ID} ").repeat(64),
        &(1..64)
            .map(|n| format!("{} ", n as f32 / 64.0))
            .collect::<String>(),
        &"0 1 ".repeat(64),
    );
    let broad = stitching(
        "0 1",
        &format!("{leaf} ").repeat(64),
        &(1..64)
            .map(|n| format!("{} ", n as f32 / 64.0))
            .collect::<String>(),
        &"0 1 ".repeat(64),
    );
    assert!(parse(&broad).is_none());
}

#[test]
fn wide_affine_coefficients_and_tiny_power_residuals() {
    for (c0, c1, n, domain, input, expected) in [
        (
            "-300000000000000000000000000000000000000",
            "300000000000000000000000000000000000000",
            "1",
            "0 1",
            0.5,
            0.0,
        ),
        (
            "300000000000000000000000000000000000000",
            "0.25",
            "1",
            "0 1",
            1.0,
            0.25,
        ),
        (
            "300000000000000000000000000000000000000",
            "0.25",
            "0",
            "0 1",
            0.0,
            0.25,
        ),
        (
            "1000000000000000000000000000000",
            "0",
            "0.000000000000000000000000000001",
            "0.5 1",
            0.5,
            std::f32::consts::LN_2,
        ),
        ("0.5", "1", "16777217", "-1 -1", -1.0, 0.0),
        ("0.5", "1", "9223372036854775807", "-1 -1", -1.0, 0.0),
        ("0", "1", "2.0", "-1 1", -0.5, 0.25),
    ] {
        let source = format!(
            "<< /FunctionType 2 /Domain [{domain}] /Range [0 1] /C0 [{c0}] /C1 [{c1}] /N {n} >>"
        );
        let actual = eval(&parse(&source).unwrap(), &[input]).unwrap()[0];
        assert!(
            (actual - expected).abs() <= f32::EPSILON,
            "{source}: {actual} != {expected}"
        );
    }
}

#[test]
fn invalid_domain_shapes_coefficients_and_exponents_are_rejected() {
    for entries in [
        "/FunctionType 2.0 /Domain [0 1] /N 1",
        "/FunctionType 2 /Domain [0 1] /C0 [0 0] /N 1",
        "/FunctionType 2 /Domain [0 1] /C0 /Bad /N 1",
        "/FunctionType 2 /Domain [0 1] /C0 [] /N 1",
        "/FunctionType 2 /Domain [0 1 2] /N 1",
        "/FunctionType 2 /Domain [0 1 0 1] /N 1",
        "/FunctionType 2 /Domain [0 /Bad 1] /N 1",
        "/FunctionType 2 /Domain [0 1] /Range /Bad /N 1",
        "/FunctionType 2 /Domain [0 1] /Range [0 1 0 1] /N 1",
        "/FunctionType 2 /Domain [-1 1] /N 0.5",
        "/FunctionType 2 /Domain [0 1] /N -1",
        "/FunctionType 2 /Domain [-1 1] /C0 [0] /C1 [0] /N 0.5",
        "/FunctionType 2 /Domain [-1 -1] /N 9223372036854775807.0",
        "/FunctionType 2 /Domain [0 1] /C0 [1000000000000000000000000000000] /C1 [-1000000000000000000000000000000] /Range [0 1] /N 2",
    ] {
        assert!(parse(&format!("<< {entries} >>")).is_none(), "{entries}");
    }
}

#[test]
fn optional_null_and_input_arity() {
    let function =
        parse("<< /FunctionType 2 /Domain [0 1] /Range null /C0 null /C1 null /N 1 >>").unwrap();
    assert_eq!(eval(&function, &[0.25]), Some(vec![0.25]));
    for source in [ID.to_owned(), stitching("0 1", ID, "", "0 1")] {
        let function = parse(&source).unwrap();
        for input in [
            vec![],
            vec![0.0, 0.0],
            vec![f32::NAN],
            vec![f32::INFINITY],
        ] {
            assert!(eval(&function, &input).is_none());
        }
    }
}

#[test]
fn stitching_dictionary_shape_is_required_and_children_must_agree() {
    for (domain, children, bounds, encode) in [
        ("0 1", "".into(), "", "0 1"),
        ("0 1", "/Bad".into(), "", "0 1"),
        ("0 1 0 1", ID.into(), "", "0 1"),
        ("0 1", ID.into(), "0.5", "0 1"),
        ("0 1", ID.into(), "", "0"),
        ("0 1", ID.into(), "", "0 1 0 1"),
        ("0 1", format!("{ID} {ID}"), "0", "0 1 0 1"),
        ("0 1", format!("{ID} {ID}"), "2", "0 1 0 1"),
        ("0.5 0.5", format!("{ID} {ID}"), "0.5", "0 1 0 1"),
        ("0 1", format!("{ID} {ID} {ID}"), "0.5 0.5", "0 1 0 1 0 1"),
        (
            "0 1",
            format!("{ID} << /FunctionType 2 /Domain [0 1] /C0 [0 0] /C1 [1 1] /N 1 >>"),
            "0.5",
            "0 1 0 1",
        ),
    ] {
        let source = stitching(domain, &children, bounds, encode);
        assert!(parse(&source).is_none(), "{source}");
    }
    let valid = stitching("0 1", ID, "", "0 1");
    for token in ["/Bounds []", "/Encode [0 1]"] {
        assert!(parse(&valid.replace(token, "")).is_none());
    }
}

#[test]
fn type2_simple() {
    let func = parse_object(b"<<
          /FunctionType 2
          /Domain [ 0  1 ]
          /C0 [ 0 20  ]
          /C1 [ 30 -50 ]
          /N 1
        >>")
    .unwrap();

    assert_eq!(eval(&func, &[0.0]).unwrap(), [0.0, 20.0]);
    assert_eq!(eval(&func, &[0.5]).unwrap(), [15.0, -15.0]);
    assert_eq!(eval(&func, &[1.0]).unwrap(), [30.0, -50.0]);
}

#[test]
fn with_exponent() {
    let func = parse_object(b"<<
          /FunctionType 2
          /Domain [ 0  1 ]
          /C0 [ 0  ]
          /C1 [ 30 ]
          /N 2
        >>")
    .unwrap();

    assert_eq!(eval(&func, &[0.5]), Some(vec![7.5]));
}

#[test]
fn clamp_domain() {
    let func = parse_object(b"<<
          /FunctionType 2
          /Domain [ 0.2  0.8 ]
          /C0 [ 0  ]
          /C1 [ 30 ]
          /N 2
        >>")
    .unwrap();

    assert_eq!(
        eval(&func, &[0.0]).as_ref(),
        eval(&func, &[0.2]).as_ref(),
    );
    assert_eq!(
        eval(&func, &[-10.]).as_ref(),
        eval(&func, &[0.2]).as_ref(),
    );
    assert_eq!(
        eval(&func, &[0.8]).as_ref(),
        eval(&func, &[0.8]).as_ref(),
    );
    assert_eq!(
        eval(&func, &[1.2]).as_ref(),
        eval(&func, &[1.0]).as_ref(),
    );
}

#[test]
fn clamp_range() {
    let func = parse_object(b"<<
          /FunctionType 2
          /Domain [ 0.0  1.0 ]
          /Range [10.0 20.0]
          /C0 [ 0  ]
          /C1 [ 30 ]
          /N 1
        >>")
    .unwrap();

    assert_eq!(eval(&func, &[0.0]), Some(vec![10.0]));
    assert_eq!(eval(&func, &[0.5]), Some(vec![15.0]));
    assert_eq!(eval(&func, &[1.0]), Some(vec![20.0]));
}

#[test]
fn type3_simple() {
    let data = b"<<
  /FunctionType 3
  /Domain [-7 7]
  /Functions [
<< /FunctionType 2
   /Domain [0 1]
   /C0 [0.5 0.5 0.5]
   /C1 [0.5 0.5 0.5]
   /N 1
>>
<< /FunctionType 2
   /Domain [0 1]
   /C0 [0.7 0.7 0.7]
   /C1 [0.7 0.7 0.7]
   /N 1
>>
  ]
  /Bounds [0]
  /Encode [0 1 0 1]
>>";

    let function = parse_object(data).unwrap();

    assert_eq!(
        eval(&function, &[-7.0]).unwrap(),
        [0.5, 0.5, 0.5]
    );
    assert_eq!(
        eval(&function, &[-3.0]).unwrap(),
        [0.5, 0.5, 0.5]
    );
    assert_eq!(
        eval(&function, &[-0.5]).unwrap(),
        [0.5, 0.5, 0.5]
    );
    assert_eq!(
        eval(&function, &[0.0]).unwrap(),
        [0.7, 0.7, 0.7]
    );
    assert_eq!(
        eval(&function, &[7.0]).unwrap(),
        [0.7, 0.7, 0.7]
    );
}

#[test]
fn lex_1() {
    let program = b"{ copy dup 2.0 exch roll }";
    let parsed = parse_procedure(program).unwrap();

    assert_eq!(
        parsed,
        vec![
            PostScriptOp::Operator(CalculatorInstruction::Copy),
            PostScriptOp::Operator(CalculatorInstruction::Dup),
            PostScriptOp::Number(number(syntax::Number::from_f32(2.0))),
            PostScriptOp::Operator(CalculatorInstruction::Exch),
            PostScriptOp::Operator(CalculatorInstruction::Roll),
        ]
    );
}

#[test]
fn lex_3() {
    let program = b" {  {dup exch} if {0} {1} ifelse }";
    let parsed = parse_procedure(program).unwrap();

    assert_eq!(
        parsed,
        vec![
            PostScriptOp::If(vec![PostScriptOp::Operator(CalculatorInstruction::Dup), PostScriptOp::Operator(CalculatorInstruction::Exch)]),
            PostScriptOp::IfElse(
                vec![PostScriptOp::Number(number(syntax::Number::from_i32(0)))],
                vec![PostScriptOp::Number(number(syntax::Number::from_i32(1)))]
            )
        ]
    );
}

#[test]
fn calculator_function_flattens_forward_branches() {
    let program = parse_procedure(b"{ dup 0 gt { 1 } { 2 } ifelse add }").unwrap();
    let type4 = Type4 {
        program,
        clamper: Clamper {
            domain: vec![interval(0.0, 1.0)],
            range: Some(vec![interval(0.0, 3.0)]),
        },
    };

    let calculator = type4.calculator_function().unwrap();
    assert_eq!(calculator.input_domain, vec![interval(0.0, 1.0)]);
    assert_eq!(calculator.output_range, Some(vec![interval(0.0, 3.0)]));
    assert_eq!(
        calculator.instructions,
        vec![
            CalculatorInstruction::Dup,
            CalculatorInstruction::Integer(0),
            CalculatorInstruction::Gt,
            CalculatorInstruction::JumpIfFalse(6),
            CalculatorInstruction::Integer(1),
            CalculatorInstruction::Jump(7),
            CalculatorInstruction::Integer(2),
            CalculatorInstruction::Add,
        ]
    );
}

#[test]
fn calculator_parser_rejects_excessive_nesting() {
    let program = format!(
        "{{ {} true {} }}",
        "{".repeat(MAX_CALCULATOR_NESTING + 1),
        "} if".repeat(MAX_CALCULATOR_NESTING + 1)
    );
    assert!(parse_procedure(program.as_bytes()).is_none());
}

#[test]
fn calculator_parser_rejects_excessive_operations() {
    let program = format!("{{ {} }}", "0 pop ".repeat(MAX_CALCULATOR_OPERATIONS));
    assert!(parse_procedure(program.as_bytes()).is_none());
}

fn op_impl(prog: &str, out: &[f32]) {
    let procedure = parse_procedure(format!("{{{prog}}}").as_bytes()).unwrap();
    let mut stack = InterpreterStack::new();
    eval_inner(&procedure, &mut stack, &compute).unwrap();
    let res = stack
        .items()
        .iter()
        .map(|value| match value {
            Argument::Bool(value) => f32::from(u8::from(*value)),
            _ => single(*value),
        })
        .collect::<Vec<_>>();
    assert_eq!(res.as_slice(), out);
}

#[test]
fn op_abs() {
    op_impl("4.5 abs", &[4.5]);
    op_impl("-3 abs", &[3.0]);
    op_impl("0 abs", &[0.0]);
}

#[test]
fn op_atan() {
    op_impl("0 1 atan", &[0.0]);
    op_impl("1 0 atan", &[90.0]);
    op_impl("-100 0 atan", &[270.0]);
    op_impl("4 4 atan", &[45.0]);
}

#[test]
fn op_ceiling() {
    op_impl("3.2 ceiling", &[4.0]);
    op_impl("-4.8 ceiling", &[-4.0]);
    op_impl("99 ceiling", &[99.0]);
}

#[test]
fn op_cos() {
    op_impl("0 cos", &[1.0]);
    // Should be zero, but floating point impreciseness.
    op_impl("90 cos", &[-4.371139e-8]);
}

#[test]
fn op_cvi() {
    op_impl("-47.8 cvi", &[-47.0]);
    op_impl("520.9 cvi", &[520.0]);
}

#[test]
fn op_cvr() {
    op_impl("-47.8 cvr", &[-47.8]);
    op_impl("520 cvr", &[520.0]);
}

#[test]
fn op_div() {
    op_impl("3 2 div", &[1.5]);
    op_impl("4 2 div", &[2.0]);
}

#[test]
fn op_exp() {
    op_impl("9 0.5 exp", &[3.0]);
    op_impl("-9 -1 exp", &[-0.11111111]);
}

#[test]
fn op_floor() {
    op_impl("3.2 floor", &[3.0]);
    op_impl("-4.8 floor", &[-5.0]);
    op_impl("99 floor", &[99.0]);
}

#[test]
fn op_idiv() {
    op_impl("3 2 idiv", &[1.0]);
    op_impl("4 2 idiv", &[2.0]);
    op_impl("-5 2 idiv", &[-2.0]);
}

#[test]
fn op_ln() {
    op_impl("10 ln", &[LN_10]);
    op_impl("100 ln", &[4.6051702]);
}

#[test]
fn op_log() {
    op_impl("10 log", &[1.0]);
    op_impl("100 log", &[2.0]);
}

#[test]
fn op_mod() {
    op_impl("5 3 mod", &[2.0]);
    op_impl("5 2 mod", &[1.0]);
    op_impl("-5 3 mod", &[-2.0]);
}

#[test]
fn op_mul() {
    op_impl("5 3 mul", &[15.0]);
    op_impl("-2 6 mul", &[-12.0]);
}

#[test]
fn op_neg() {
    op_impl("4.5 neg", &[-4.5]);
    op_impl("-3 neg", &[3.0]);
}

#[test]
fn op_round() {
    op_impl("3.2 round", &[3.0]);
    op_impl("6.5 round", &[7.0]);
    op_impl("-4.8 round", &[-5.0]);
    op_impl("-6.5 round", &[-6.0]);
    op_impl("99 round", &[99.0]);
    op_impl("99.0 round", &[99.0]);
}

#[test]
fn op_round_halfway_neighbors() {
    // The oracle is the stated nearest integer, with ties toward +infinity
    // (PostScript Language Reference, third edition, section 8.2, round).
    for (half, lower, upper) in [
        (-6.5_f32, -7.0, -6.0),
        (-1.5, -2.0, -1.0),
        (-0.5, -1.0, 0.0),
        (0.5, 0.0, 1.0),
        (1.5, 1.0, 2.0),
        (6.5, 6.0, 7.0),
    ] {
        for (input, expected) in [
            (half.next_down(), lower),
            (half, upper),
            (half.next_up(), upper),
        ] {
            op_impl(&format!("{input} round"), &[expected]);
        }
    }
    // Integral values must not move when the spacing reaches one or more.
    for value in [
        -16_777_216.0_f32,
        -8_388_609.0,
        0.0,
        8_388_609.0,
        16_777_216.0,
    ] {
        op_impl(&format!("{value} round"), &[value]);
    }
}

#[test]
fn op_sin() {
    op_impl("0.0 sin", &[0.0]);
    op_impl("90.0 sin", &[1.0]);
}

#[test]
fn op_sqrt() {
    op_impl("100 sqrt", &[10.0]);
}

#[test]
fn op_sub() {
    op_impl("3 4 sub", &[-1.0]);
    op_impl("6 0 sub", &[6.0]);
}

#[test]
fn op_truncate() {
    op_impl("3.2 truncate", &[3.0]);
    op_impl("-4.8 truncate", &[-4.0]);
    op_impl("99 truncate", &[99.0]);
}

#[test]
fn op_and() {
    op_impl("true true and", &[1.0]);
    op_impl("true false and", &[0.0]);
    op_impl("false true and", &[0.0]);
    op_impl("false false and", &[0.0]);
    op_impl("99 1 and", &[1.0]);
    op_impl("52 7 and", &[4.0]);
}

#[test]
fn op_bitshift() {
    op_impl("7 3 bitshift", &[56.0]);
    op_impl("142 -3 bitshift", &[17.0]);
}

#[test]
fn op_eq() {
    op_impl("4.0 4 eq", &[1.0]);
    op_impl("-2.0 -3 eq", &[0.0]);
}

#[test]
fn op_false() {
    op_impl("false", &[0.0]);
}

#[test]
fn op_ge() {
    op_impl("4.2 4 ge", &[1.0]);
    op_impl("4.2 4.2 ge", &[1.0]);
    op_impl("4.2 6 ge", &[0.0]);
}

#[test]
fn op_gt() {
    op_impl("4.2 4 gt", &[1.0]);
    op_impl("4.2 4.2 gt", &[0.0]);
    op_impl("4.2 6 gt", &[0.0]);
}

#[test]
fn op_le() {
    op_impl("4.2 4 le", &[0.0]);
    op_impl("4.2 4.2 le", &[1.0]);
    op_impl("4.2 6 le", &[1.0]);
}

#[test]
fn op_lt() {
    op_impl("4.2 4 lt", &[0.0]);
    op_impl("4.2 4.2 lt", &[0.0]);
    op_impl("4.2 6 lt", &[1.0]);
}

#[test]
fn op_ne() {
    op_impl("3.0 3 ne", &[0.0]);
    op_impl("3.0 3.0 ne", &[0.0]);
    op_impl("3.0 3.1 ne", &[1.0]);
}

#[test]
fn op_not() {
    op_impl("true not", &[0.0]);
    op_impl("false not", &[1.0]);
    op_impl("52 not", &[-53.0]);
}

#[test]
fn op_or() {
    op_impl("true true or", &[1.0]);
    op_impl("true false or", &[1.0]);
    op_impl("false true or", &[1.0]);
    op_impl("false false or", &[0.0]);
    op_impl("17 5 or", &[21.0]);
}

#[test]
fn op_xor() {
    op_impl("true true xor", &[0.0]);
    op_impl("true false xor", &[1.0]);
    op_impl("false true xor", &[1.0]);
    op_impl("false false xor", &[0.0]);
    op_impl("7 3 xor", &[4.0]);
    op_impl("12 3 xor", &[15.0]);
}

#[test]
fn op_if() {
    op_impl("true { 1.0 } if", &[1.0]);
    op_impl("false { 1.0 } if", &[]);
}

#[test]
fn op_ifelse() {
    op_impl("true { 1.0 } { 2.0 } ifelse", &[1.0]);
    op_impl("false { 1.0 } { 2.0 } ifelse", &[2.0]);
}

#[test]
fn op_copy() {
    op_impl("1 2 3 2 copy", &[1.0, 2.0, 3.0, 2.0, 3.0]);
    op_impl("1 2 3 0 copy", &[1.0, 2.0, 3.0]);
}

#[test]
fn op_dup() {
    op_impl("1 2 3 dup", &[1.0, 2.0, 3.0, 3.0]);
}

#[test]
fn op_exch() {
    op_impl("1 2 3 exch", &[1.0, 3.0, 2.0]);
}

#[test]
fn op_index() {
    op_impl("1 2 3 4 0 index", &[1.0, 2.0, 3.0, 4.0, 4.0]);
    op_impl("1 2 3 4 3 index", &[1.0, 2.0, 3.0, 4.0, 1.0]);
}

#[test]
fn op_pop() {
    op_impl("1 2 3 pop", &[1.0, 2.0]);
}

#[test]
fn op_roll() {
    op_impl("1 2 3 3 -1 roll", &[2.0, 3.0, 1.0]);
    op_impl("1 2 3 3 1 roll", &[3.0, 1.0, 2.0]);
    op_impl("1 2 3 3 0 roll", &[1.0, 2.0, 3.0]);
    op_impl("1 2 3 3 5 roll", &[2.0, 3.0, 1.0]);
    op_impl("0 2 roll", &[]);
    op_impl(
        "1 2 3 4 5 6 7 5 2 roll",
        &[1.0, 2.0, 6.0, 7.0, 3.0, 4.0, 5.0],
    );
}

#[test]
fn domain() {
    let procedure = parse_procedure(b"{  }").unwrap();

    let type4 = Function(FunctionType::Type4(Type4 {
        program: procedure,
        clamper: Clamper {
            domain: vec![interval(-5.0, 5.0); 3],
            range: None,
        },
    }));

    let res = eval(&type4, &[-10.0, -2.0, 6.0]).unwrap();

    assert_eq!(res.as_slice(), &[-5.0, -2.0, 5.0]);
}

fn execute(program: &str) -> Option<Vec<Argument>> {
    let procedure = parse_procedure(format!("{{ {program} }}").as_bytes())?;
    let mut stack = InterpreterStack::new();
    eval_inner(&procedure, &mut stack, &compute)?;
    Some(stack.items().to_vec())
}

#[test]
fn numbers_preserve_integer_real_and_boolean_objects() {
    for (program, expected) in [
        ("16777217", Argument::Integer(16_777_217)),
        ("16777217 16777216 sub", Argument::Integer(1)),
        ("16777217 127 mul", Argument::Integer(2_130_706_559)),
        ("16777217 129 mul", Argument::Float(f32::to_bits(2_164_261_120.0))),
        ("2147483647 1 add", Argument::Float(f32::to_bits(2_147_483_648.0))),
        ("2147483647 -1 sub", Argument::Float(f32::to_bits(2_147_483_648.0))),
        ("-2147483648 neg", Argument::Float(f32::to_bits(2_147_483_648.0))),
        ("-2147483648 abs", Argument::Float(f32::to_bits(2_147_483_648.0))),
        ("2147483648", Argument::Float(f32::to_bits(2_147_483_648.0))),
        ("2147483647 1 mul", Argument::Integer(i32::MAX)),
        ("3 2 add", Argument::Integer(5)),
        ("3.0 2 add", Argument::Float(f32::to_bits(5.0))),
        ("3 2.0 add", Argument::Float(f32::to_bits(5.0))),
        ("3 2 div", Argument::Float(f32::to_bits(1.5))),
        ("-5 2 idiv", Argument::Integer(-2)),
        ("-5 3 mod", Argument::Integer(-2)),
        ("-2147483648 -1 mod", Argument::Integer(0)),
        ("-47.8 cvi", Argument::Integer(-47)),
        ("-2147483648.0 cvi", Argument::Integer(i32::MIN)),
        ("16777217 cvr", Argument::Float(f32::to_bits(16_777_216.0))),
        ("16777217 round", Argument::Integer(16_777_217)),
        ("3.5 round", Argument::Float(f32::to_bits(4.0))),
        ("-0.5 round", Argument::Float(f32::to_bits(0.0))),
        ("3.0 ceiling", Argument::Float(f32::to_bits(3.0))),
        ("3 floor", Argument::Integer(3)),
        ("-3.2 truncate", Argument::Float(f32::to_bits(-3.0))),
        ("true false and", Argument::Bool(false)),
        ("true false or", Argument::Bool(true)),
        ("true true xor", Argument::Bool(false)),
        ("true not", Argument::Bool(false)),
        ("0 not", Argument::Integer(-1)),
        ("16777217 1 and", Argument::Integer(1)),
        ("16777216 1 or", Argument::Integer(16_777_217)),
        ("16777217 1 xor", Argument::Integer(16_777_216)),
        ("1 1 eq not", Argument::Bool(false)),
        ("true 1 eq", Argument::Bool(false)),
        ("false 0 ne", Argument::Bool(true)),
        ("16777217 16777216 eq", Argument::Bool(false)),
        ("16777217 16777216.0 gt", Argument::Bool(true)),
        ("-16777217 -16777216.0 lt", Argument::Bool(true)),
        ("2147483647 2147483648.0 lt", Argument::Bool(true)),
        ("3 3.0 eq", Argument::Bool(true)),
        ("0 0 exp", Argument::Float(f32::to_bits(1.0))),
        ("-1 2147483647 exp", Argument::Float(f32::to_bits(-1.0))),
    ] {
        assert_eq!(execute(program), Some(vec![expected]), "{program}");
    }
}

#[test]
fn shifts_use_all_integer_bits_and_zero_fill_without_wrapping_the_shift() {
    for (program, expected) in [
        ("-1 -1 bitshift", i32::MAX),
        ("-1 -31 bitshift", 1),
        ("1 31 bitshift", i32::MIN),
        ("1 32 bitshift", 0),
        ("-1 -32 bitshift", 0),
        ("1 64 bitshift", 0),
        ("-1 -2147483648 bitshift", 0),
    ] {
        assert_eq!(
            execute(program),
            Some(vec![Argument::Integer(expected)]),
            "{program}"
        );
    }
}

#[test]
fn invalid_operands_and_arithmetic_abort_even_when_later_discarded() {
    for program in [
        "true 1 add",
        "1.0 1 and",
        "true 1 or",
        "false 0 xor",
        "1.0 not",
        "3.0 2 idiv",
        "5 3.0 mod",
        "1 1.0 bitshift",
        "1 { 0 } if",
        "0 { 0 } { 1 } ifelse",
        "true false lt",
        "2147483648.0 cvi",
        "-2147483904.0 cvi",
        "1 0 div pop 1",
        "1 0 idiv pop 1",
        "-2147483648 -1 idiv",
        "1 0 mod pop 1",
        "0 0 atan pop 1",
        "-1 sqrt pop 1",
        "0 ln pop 1",
        "0 log pop 1",
        "-1 0.5 exp pop 1",
        "0 -1 exp pop 1",
        "1 1.0 copy",
        "1 -1 copy",
        "1 0.0 index",
        "1 1.0 1 roll",
        "1 1 1.0 roll",
        "true cvi",
        "false cvr",
        "340282346638528859811704183484516925440 2 mul pop 1",
    ] {
        assert_eq!(execute(program), None, "{program}");
    }
    assert!(execute(&"0 ".repeat(65)).is_none());
    assert!(execute(&format!("{} 33 copy", "0 ".repeat(33))).is_none());
    assert_eq!(
        execute("1 2 3 3 -2147483648 roll"),
        Some(vec![
            Argument::Integer(3),
            Argument::Integer(1),
            Argument::Integer(2),
        ])
    );
}

#[test]
fn function_boundaries_require_finite_inputs_and_numeric_output_counts() {
    for program in ["{ pop true }", "{ pop 0 1 }", "{ pop }"] {
        let function = Type4 {
            program: parse_procedure(program.as_bytes()).unwrap(),
            clamper: Clamper {
                domain: vec![interval(0.0, 1.0)],
                range: Some(vec![interval(0.0, 1.0)]),
            },
        };
        assert!(eval_calculator(&function, &[0.5]).is_none(), "{program}");
    }
    let identity = Type4 {
        program: parse_procedure(b"{ }").unwrap(),
        clamper: Clamper {
            domain: vec![interval(0.0, 1.0)],
            range: Some(vec![interval(0.0, 1.0)]),
        },
    };
    for input in [
        vec![f32::NAN],
        vec![f32::INFINITY],
        vec![],
        vec![0.0, 1.0],
    ] {
        assert!(eval_calculator(&identity, &input).is_none());
    }
    assert_eq!(eval_calculator(&identity, &[2.0]), Some(vec![1.0]));
}

#[test]
fn sampled_definition_preserves_exact_widths_maps_and_order_without_parser_storage() {
    for bits in [1, 2, 4, 8, 12, 16, 24, 32] {
        let maximum = ((1_u64 << bits) - 1) as u32;
        let expected_samples = [0, maximum / 3, maximum];
        let mut data = vec![0; (usize::from(bits) * 3).div_ceil(8)];
        let mut writer = BitWriter::new(&mut data, bits).unwrap();
        for sample in expected_samples {
            writer.write(sample).unwrap();
        }
        let function = stream_function(
            &format!(
                "/FunctionType 0 /Domain [0 2] /Range [0 1] /Size [3] /BitsPerSample {bits} /Order 3 /Encode [0 2] /Decode [-0.25 1.25]"
            ),
            &data,
        );
        // All parser bytes, reader contexts and streams in the helper have
        // already gone away; the exported slices belong to the function.
        let FunctionDefinition::Sampled {
            sizes,
            samples,
            sample_maximum,
            order,
            domain,
            range,
            encode,
            decode,
        } = function.definition().unwrap()
        else {
            panic!("sampled")
        };
        assert_eq!(*sizes, [3]);
        assert_eq!(*samples, expected_samples);
        assert_eq!(sample_maximum, maximum);
        assert_eq!(order, 3);
        assert_eq!(pairs(domain), [(0.0, 2.0)]);
        assert_eq!(pairs(range), [(0.0, 1.0)]);
        assert_eq!(pairs(encode), [(0.0, 2.0)]);
        assert_eq!(pairs(decode), [(-0.25, 1.25)]);
        assert_eq!(
            eval(&function, &[1.0]).unwrap()[0],
            (-0.25 + 1.5 * f64::from(maximum / 3) / f64::from(maximum)).clamp(0.0, 1.0) as f32
        );
    }
}

#[test]
fn exponential_definition_preserves_integer_parity_lost_by_binary64() {
    let function = parse_object(
        b"<< /FunctionType 2 /Domain [-1 -1] /C0 [0] /C1 [1] /N 9007199254740993 >>",
    )
    .unwrap();
    let FunctionDefinition::Exponential {
        domain,
        range,
        c0,
        c1,
        exponent,
        odd_integer_exponent,
    } = function.definition().unwrap()
    else {
        panic!("exponential")
    };
    assert_eq!(domain, interval(-1.0, -1.0));
    assert!(range.is_none());
    assert_eq!(reals(c0), [0.0]);
    assert_eq!(reals(c1), [1.0]);
    assert_eq!(f64::from_bits(exponent), 9_007_199_254_740_992.0);
    assert!(odd_integer_exponent);
    assert_eq!(eval(&function, &[-1.0]).unwrap()[0], -1.0);
}

#[test]
fn stitching_definition_preserves_the_final_singleton_and_child_clamps() {
    let function = parse_object(b"<< /FunctionType 3 /Domain [0 1] /Range [0.1 0.9] /Functions [<< /FunctionType 2 /Domain [0 1] /C0 [0.2] /C1 [0.2] /N 1 >> << /FunctionType 2 /Domain [0 1] /C0 [0.8] /C1 [0.8] /N 1 >>] /Bounds [1] /Encode [1 0 0 1] >>").unwrap();
    let transfer = transfer(function).unwrap();
    let FunctionDefinition::Stitching {
        domain,
        range,
        functions,
        bounds,
        encode,
    } = transfer.function.as_ref().unwrap().definition().unwrap()
    else {
        panic!("stitching")
    };
    assert_eq!(domain, interval(0.0, 1.0));
    assert_eq!(pairs(range.unwrap()), [(0.1, 0.9)]);
    assert_eq!(reals(bounds), [1.0]);
    assert_eq!(pairs(encode), [(1.0, 0.0), (0.0, 1.0)]);
    assert_eq!(functions.len(), 2);
    assert_eq!(eval(&functions[0], &[0.0]).unwrap()[0], 0.2);
    assert_eq!(eval(&functions[1], &[1.0]).unwrap()[0], 0.8);
    assert_eq!(apply(&transfer, 1.0_f32.next_down()), Some(0.2));
    assert_eq!(apply(&transfer, 1.0), Some(0.8));
    assert!(TransferFunction::identity().function.is_none());
}

#[test]
fn calculator_definition_retains_typed_integer_instructions_and_clamps() {
    let function = stream_function(
        "/FunctionType 4 /Domain [0 1] /Range [0 20000000]",
        b"{ pop 16777217 1 sub }",
    );
    let FunctionDefinition::Calculator(program) = function.definition().unwrap() else {
        panic!("calculator")
    };
    assert_eq!(program.input_domain, [interval(0.0, 1.0)]);
    assert_eq!(program.output_range, Some(vec![interval(0.0, 20_000_000.0)]));
    assert_eq!(
        program.instructions,
        [
            CalculatorInstruction::Pop,
            CalculatorInstruction::Integer(16_777_217),
            CalculatorInstruction::Integer(1),
            CalculatorInstruction::Sub
        ]
    );
    assert_eq!(eval(&function, &[0.5]).unwrap()[0], 16_777_216.0);
}

const INVERT: &str = "<< /FunctionType 2 /Domain [0 1] /C0 [1] /C1 [0] /N 1 >>";

#[test]
fn null_is_absent_and_non_null_tr2_wins() {
    let document = no_objects();
    for (source, key, value) in [
        ("<< /TR /Identity /TR2 null >>", "TR", b"Identity".as_slice()),
        ("<< /TR /Bogus /TR2 /Default >>", "TR2", b"Default"),
        ("<< /TR null /TR2 /Identity >>", "TR2", b"Identity"),
    ] {
        let dict = dict(&syntax::Dict::from_bytes(source.as_bytes()).unwrap());
        let (selected, Object::Name(name)) = selected_transfer_function(&document, &dict).unwrap()
        else {
            panic!("name")
        };
        assert_eq!(selected, key);
        assert_eq!(name, value);
    }
    let dict = dict(&syntax::Dict::from_bytes(b"<< /TR null /TR2 null >>").unwrap());
    assert!(selected_transfer_function(&document, &dict).is_none());
}

#[test]
fn real_inputs_preserve_adjacent_stitching_sides() {
    let source = "<< /FunctionType 3 /Domain [0 1] /Range [0 1] /Functions [<< /FunctionType 2 /Domain [0 1] /C0 [0] /C1 [0] /N 1 >> << /FunctionType 2 /Domain [0 1] /C0 [1] /C1 [1] /N 1 >>] /Bounds [0.5] /Encode [0 1 0 1] >>";
    let function = parse_transfer(source).unwrap();
    for (input, expected) in [
        (0.5_f32.next_down(), 0.0),
        (0.5, 1.0),
        (0.5_f32.next_up(), 1.0),
    ] {
        assert_eq!(apply(&function, input), Some(expected));
    }
    let square = parse_transfer("<< /FunctionType 2 /Domain [0 1] /N 2 >>").unwrap();
    assert_eq!(apply(&square, 0.25), Some(0.0625));
    assert_eq!(apply(&square, f32::NAN), None);
}

#[test]
fn byte_table_uses_actual_byte_inputs_and_validates_outputs() {
    let function = parse_transfer(INVERT).unwrap();
    let mut bytes: Vec<u8> = (0..=255).collect();
    function.apply_to(&mut bytes);
    assert_eq!(bytes, (0..=255).rev().collect::<Vec<u8>>());
    for source in [
        "<< /FunctionType 2 /Domain [0 1] /C0 [0 0] /C1 [1 1] /N 1 >>",
        "<< /FunctionType 2 /Domain [0 1] /C0 [2] /C1 [2] /N 1 >>",
    ] {
        assert!(parse_transfer(source).is_none());
    }
}

#[test]
fn soft_mask_transfers_clamp_and_strides_skip_alpha() {
    let double = parse("<< /FunctionType 2 /Domain [0 1] /C0 [0] /C1 [2] /N 1 >>").unwrap();
    let function =
        TransferFunction::new_soft_mask(double, &host(), &quantization()).unwrap();
    assert_eq!(apply(&function, 0.25), Some(0.5));
    assert_eq!(apply(&function, 0.75), Some(1.0));
    assert_eq!(apply(&function, 7.0), Some(1.0));
    let invert = parse_transfer(INVERT).unwrap();
    let mut bytes = vec![0, 10, 20, 30, 40];
    invert.apply_to_stride(&mut bytes, 2);
    assert_eq!(bytes, [255, 10, 235, 30, 215]);
    TransferFunction::identity().apply_to(&mut bytes);
    assert_eq!(bytes, [255, 10, 235, 30, 215]);
    assert_eq!(apply(&TransferFunction::identity(), -3.0), Some(0.0));
}

#[test]
fn functions_are_found_behind_references() {
    let child = IndirectHolder::new(9, ID);
    let source = stitching("0 1", "9 0 R", "", "0 1");
    let function =
        Function::new(&child.document, &read_object(source.as_bytes()), &judge, &bound).unwrap();
    assert_eq!(eval(&function, &[0.25]), Some(vec![0.25]));
    assert_eq!(function.arity(), Some((1, 1)));
    assert!(parse(&source).is_none());
}

struct IndirectHolder {
    document: Document,
}

impl IndirectHolder {
    fn new(obj_number: i32, source: &str) -> Self {
        let mut document = no_objects();
        document.objects.push(IndirectObject {
            id: ObjectIdentifier { obj_number, gen_number: 0 },
            object: read_object(source.as_bytes()),
        });
        Self { document }
    }
}

#[test]
fn calculators_without_a_range_have_no_arity() {
    let function = stream_function("/FunctionType 4 /Domain [0 1]", b"{ dup }");
    assert_eq!(function.arity(), None);
    assert_eq!(eval(&function, &[0.5]), Some(vec![0.5, 0.5]));
    assert!(parse(ID).unwrap().calculator_function().is_none());
}

#[test]
fn tokens_are_numbers_escaped_names_and_comments() {
    let program = parse_procedure(b"{ % a comment\n 1 .5 +2 -.25 #64up pop }").unwrap();
    let numbers: Vec<f32> = program
        .iter()
        .filter_map(|op| match op {
            PostScriptOp::Number(number) => Some(float(number.single)),
            _ => None,
        })
        .collect();
    assert_eq!(numbers, [1.0, 0.5, 2.0, -0.25]);
    assert_eq!(program[4], PostScriptOp::Operator(CalculatorInstruction::Dup));
    assert_eq!(program[5], PostScriptOp::Operator(CalculatorInstruction::Pop));
    for source in ["{ 1", "1 }", "{ unknown }", "{ if }", "{ 1x }"] {
        assert!(parse_procedure(source.as_bytes()).is_none(), "{source}");
    }
}

#[test]
fn jumps_of_flattened_programs_lead_forwards() {
    let function = stream_function(
        "/FunctionType 4 /Domain [0 1] /Range [0 9]",
        b"{ dup 0.5 gt { 2 mul dup 1 gt { 1 add } if } { 3 mul } ifelse }",
    );
    let program = function.calculator_function().unwrap();
    for (place, instruction) in program.instructions.iter().enumerate() {
        if let CalculatorInstruction::Jump(target) | CalculatorInstruction::JumpIfFalse(target) =
            instruction
        {
            assert!(*target as usize > place);
            assert!(*target as usize <= program.instructions.len());
        }
    }
    assert_eq!(eval(&function, &[0.75]), Some(vec![2.5]));
    assert_eq!(eval(&function, &[0.25]), Some(vec![0.75]));
}

#[test]
fn numbers_with_many_digits_and_escaped_operators_are_read() {
    let program =
        parse_procedure(b"{ 0.00000000000000000001 1.00000000000000000000 #61dd }").unwrap();
    assert_eq!(program.len(), 3);
    let doubles: Vec<f64> = program
        .iter()
        .filter_map(|op| match op {
            PostScriptOp::Number(number) => {
                assert_eq!(number.integer, None);
                Some(f64::from_bits(number.double))
            }
            _ => None,
        })
        .collect();
    assert!((doubles[0] - 1e-20).abs() < 1e-30 && (doubles[1] - 1.0).abs() < 1e-10);
    assert_eq!(program[2], PostScriptOp::Operator(CalculatorInstruction::Add));
    // An escape needs two digits.
    assert!(parse_procedure(b"{ 1 2 add#6 }").is_none());
}

#[test]
fn bytes_are_transferred_like_the_numbers_that_they_stand_for() {
    let function =
        parse_transfer("<< /FunctionType 2 /Domain [0 1] /C0 [.9] /C1 [.1] /N 2 >>").unwrap();
    for byte in 0..=255_u8 {
        let mut bytes = vec![byte];
        function.apply_to(&mut bytes);
        let number = apply(&function, f32::from(byte) / 255.0).unwrap();
        assert_eq!(bytes[0], (number * 255.0 + 0.5) as u8, "{byte}");
    }
}

#[test]
fn an_object_is_the_same_function_each_time() {
    let source = b"<< /FunctionType 3 /Domain [0 1] /Bounds [0.5] /Encode [0 1 1 0] /Functions [
<< /FunctionType 2 /Domain [0 1] /C0 [0.25] /C1 [0.75] /N 2 >>
<< /FunctionType 2 /Domain [0 1] /C0 [1] /C1 [0] /N 1 >>
] >>";
    let read = || Function::new(&no_objects(), &read_object(source), &judge, &bound).unwrap();
    assert_eq!(format!("{:?}", read()), format!("{:?}", read()));
    let program = b"{ dup 0.1234567890123456789 gt { 1 exch sub } if }";
    let parse = || format!("{:?}", parse_procedure(program).unwrap());
    assert_eq!(parse(), parse());
    assert!(parse().contains("Number"));
}
