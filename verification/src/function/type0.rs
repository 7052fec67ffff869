//! Type 0 functions (sampled functions).

use crate::function::numeric::{
    all_in_order, are_in_order, array_objects, array_pairs, objects, pairs, Interval,
    MAX_COMPONENTS,
};
use crate::function::single::{from_small, rank, rank_of, small_bits};
use crate::list::copied;
use crate::object::{Dict, Document, Number, Object, Stream};
use crate::sample_reader::{read_sample, sample_at};
use vstd::prelude::*;

verus! {

// Bound owned sample storage and worst-case scalar interpolation contributions before decoding or
// allocation.
/// The greatest number of samples.
pub const MAX_SAMPLES: usize = 16_777_216;

/// The greatest number of samples that an output depends on.
pub const MAX_CONTRIBUTIONS: usize = 65_536;

/// What the precision of an output depends on.
#[derive(Debug, Clone, Copy, PartialEq, Eq, Structural)]
pub struct SampledCheck {
    /// The sizes of all dimensions, and the samples that an output depends on.
    pub terms: u64,
    /// The number of dimensions with cubic interpolation.
    pub cubic_axes: u64,
    /// The map from samples to outputs.
    pub decode: Interval,
}

/// A type 0 function (sampled function).
#[derive(Debug)]
pub struct Type0 {
    /// The number of samples along each input dimension.
    pub sizes: Vec<usize>,
    /// The distance of neighboring samples along each input dimension.
    pub strides: Vec<usize>,
    /// The samples. Outputs are adjacent; the first input dimension varies fastest.
    pub table: Vec<u32>,
    pub domain: Vec<Interval>,
    pub range: Vec<Interval>,
    /// The bits of a sample.
    pub bits: u8,
    pub cubic: bool,
    /// Input-to-table-coordinate maps.
    pub encode: Vec<Interval>,
    /// Sample-to-output maps, before the range clamps.
    pub decode: Vec<Interval>,
}

/// A sampled function with sequences.
#[verifier::ext_equal]
pub struct Type0Model {
    pub sizes: Seq<usize>,
    pub strides: Seq<usize>,
    pub table: Seq<u32>,
    pub domain: Seq<Interval>,
    pub range: Seq<Interval>,
    pub bits: u8,
    pub cubic: bool,
    pub encode: Seq<Interval>,
    pub decode: Seq<Interval>,
}

impl View for Type0 {
    type V = Type0Model;

    open spec fn view(&self) -> Type0Model {
        Type0Model {
            sizes: self.sizes@,
            strides: self.strides@,
            table: self.table@,
            domain: self.domain@,
            range: self.range@,
            bits: self.bits,
            cubic: self.cubic,
            encode: self.encode@,
            decode: self.decode@,
        }
    }
}

/// An integer that a key leads to.
pub open spec fn integer_of(doc: Document, dict: Dict, key: Seq<char>) -> Option<i64> {
    match doc.value(dict, key) {
        Some(Object::Number(number)) => number.integer,
        _ => None,
    }
}

/// An integer that a key leads to.
pub fn integer(doc: &Document, dict: &Dict, key: &str) -> (value: Option<i64>)
    ensures
        value == integer_of(*doc, *dict, key@),
{
    match doc.lookup(dict, key) {
        Some(Object::Number(number)) => number.integer,
        _ => None,
    }
}

/// A sample may have this number of bits.
pub open spec fn is_sample_width(bits: int) -> bool {
    bits == 1 || bits == 2 || bits == 4 || bits == 8 || bits == 12 || bits == 16 || bits == 24
        || bits == 32
}

/// The declared bits of a sample.
pub open spec fn width_of(doc: Document, dict: Dict) -> Option<u8> {
    match integer_of(doc, dict, "BitsPerSample"@) {
        Some(bits) if is_sample_width(bits as int) => Some(bits as u8),
        _ => None,
    }
}

/// Whether the declared interpolation is cubic.
pub open spec fn cubic_of(doc: Document, dict: Dict) -> Option<bool> {
    if !dict.has("Order"@) {
        Some(false)
    } else {
        match integer_of(doc, dict, "Order"@) {
            Some(1) => Some(false),
            Some(3) => Some(true),
            _ => None,
        }
    }
}

/// An object is an integer above zero.
pub open spec fn is_size(object: Object) -> bool {
    object matches Object::Number(number) && number.integer matches Some(size) && size > 0
}

/// The declared sizes, none of which is beyond the greatest number of samples.
pub open spec fn sizes_of(doc: Document, dict: Dict) -> Option<Seq<usize>> {
    match array_objects(doc, dict, "Size"@, MAX_COMPONENTS as int) {
        None => None,
        Some(objects) => if objects.len() == 0 || exists|i: int|
            0 <= i < objects.len() && !(is_size(#[trigger] objects[i])
                && objects[i]->Number_0.integer->0 <= MAX_SAMPLES) {
            None
        } else {
            Some(Seq::new(objects.len(), |i: int| objects[i]->Number_0.integer->0 as usize))
        },
    }
}

/// The samples of the first `count` dimensions.
pub open spec fn entries(outputs: int, sizes: Seq<usize>, count: nat) -> int
    decreases count,
{
    if count == 0 {
        outputs
    } else {
        entries(outputs, sizes, (count - 1) as nat) * sizes[count - 1]
    }
}

/// The samples along a dimension that an output depends on; cubic interpolation is for at least
/// four.
pub open spec fn neighbors(size: int, cubic: bool) -> int {
    if cubic && size >= 4 {
        4
    } else if size < 2 {
        size
    } else {
        2
    }
}

/// The samples of the first `count` dimensions that the outputs depend on.
pub open spec fn contributions(outputs: int, sizes: Seq<usize>, cubic: bool, count: nat) -> int
    decreases count,
{
    if count == 0 {
        outputs
    } else {
        contributions(outputs, sizes, cubic, (count - 1) as nat) * neighbors(
            sizes[count - 1] as int,
            cubic,
        )
    }
}

/// The sum of the first `count` sizes.
pub open spec fn total(sizes: Seq<usize>, count: nat) -> int
    decreases count,
{
    if count == 0 {
        0
    } else {
        total(sizes, (count - 1) as nat) + sizes[count - 1]
    }
}

/// The number of the first `count` dimensions with cubic interpolation.
pub open spec fn cubic_count(sizes: Seq<usize>, cubic: bool, count: nat) -> int
    decreases count,
{
    if count == 0 {
        0
    } else {
        cubic_count(sizes, cubic, (count - 1) as nat) + if cubic && sizes[count - 1] >= 4 {
            1int
        } else {
            0int
        }
    }
}

/// A dimension has one sample, or an extent.
pub open spec fn has_extent(size: usize, domain: Interval) -> bool {
    size == 1 || rank(domain.low) != rank(domain.high)
}

/// The places of the samples in the table.
pub open spec fn default_encode(sizes: Seq<usize>) -> Seq<Interval> {
    Seq::new(sizes.len(), |i: int| Interval { low: 0, high: small_bits(sizes[i] - 1) })
}

/// The pairs of an entry that may be absent.
pub open spec fn optional_pairs(
    doc: Document,
    dict: Dict,
    key: Seq<char>,
    default: Seq<Interval>,
) -> Option<Seq<Interval>> {
    if dict.has(key) {
        array_pairs(doc, dict, key, MAX_COMPONENTS as int)
    } else {
        Some(default)
    }
}

/// The precision of an output is enough.
pub open spec fn is_precise(check: SampledCheck, precise: spec_fn(SampledCheck) -> bool) -> bool {
    rank(check.decode.low) == rank(check.decode.high) || precise(check)
}

/// The dimensions of a sampled function are within bounds.
pub open spec fn within_bounds(sizes: Seq<usize>, domain: Seq<Interval>, outputs: int, cubic: bool) -> bool {
    &&& sizes.len() == domain.len()
    &&& forall|i: int| 0 <= i < sizes.len() ==> has_extent(#[trigger] sizes[i], domain[i])
    &&& entries(outputs, sizes, sizes.len()) <= MAX_SAMPLES
    &&& contributions(outputs, sizes, cubic, sizes.len()) <= MAX_CONTRIBUTIONS
}

/// What the precision of the outputs depends on.
pub open spec fn check_of(
    sizes: Seq<usize>,
    outputs: int,
    cubic: bool,
    decode: Interval,
) -> SampledCheck {
    SampledCheck {
        terms: (total(sizes, sizes.len()) + contributions(
            outputs,
            sizes,
            cubic,
            sizes.len(),
        )) as u64,
        cubic_axes: cubic_count(sizes, cubic, sizes.len()) as u64,
        decode,
    }
}

/// The sampled function of a stream whose shape is valid.
pub open spec fn sampled_table(
    stream: Stream,
    width: u8,
    cubic: bool,
    domain: Seq<Interval>,
    range: Seq<Interval>,
    sizes: Seq<usize>,
    encode: Seq<Interval>,
    decode: Seq<Interval>,
    precise: spec_fn(SampledCheck) -> bool,
) -> Option<Type0Model> {
    let outputs = range.len() as int;
    let count = entries(outputs, sizes, sizes.len());
    if encode.len() != domain.len() || decode.len() != range.len() || exists|i: int|
        0 <= i < decode.len() && !is_precise(
            check_of(sizes, outputs, cubic, #[trigger] decode[i]),
            precise,
        ) {
        None
    } else {
        match stream.data {
            None => None,
            Some(data) => if count * width > 8 * data@.len() {
                None
            } else {
                Some(
                    Type0Model {
                        sizes,
                        strides: Seq::new(
                            sizes.len(),
                            |i: int| entries(outputs, sizes, i as nat) as usize,
                        ),
                        table: Seq::new(
                            count as nat,
                            |i: int| sample_at(data@, i * width, width as int),
                        ),
                        domain,
                        range,
                        bits: width,
                        cubic,
                        encode,
                        decode,
                    },
                )
            },
        }
    }
}

/// The sampled function of a stream.
pub open spec fn sampled_function(
    doc: Document,
    stream: Stream,
    precise: spec_fn(SampledCheck) -> bool,
) -> Option<Type0Model> {
    let dict = stream.dict;
    let limit = MAX_COMPONENTS as int;
    match (
        width_of(doc, dict),
        cubic_of(doc, dict),
        array_pairs(doc, dict, "Domain"@, limit),
        array_pairs(doc, dict, "Range"@, limit),
        sizes_of(doc, dict),
    ) {
        (Some(width), Some(cubic), Some(domain), Some(range), Some(sizes)) => {
            if !all_in_order(domain) || !all_in_order(range) || !within_bounds(
                sizes,
                domain,
                range.len() as int,
                cubic,
            ) {
                None
            } else {
                match (
                    optional_pairs(doc, dict, "Encode"@, default_encode(sizes)),
                    optional_pairs(doc, dict, "Decode"@, range),
                ) {
                    (Some(encode), Some(decode)) => sampled_table(
                        stream,
                        width,
                        cubic,
                        domain,
                        range,
                        sizes,
                        encode,
                        decode,
                        precise,
                    ),
                    _ => None,
                }
            }
        },
        _ => None,
    }
}

/// A function judges the precision of outputs.
pub open spec fn judges<F: Fn(SampledCheck) -> bool>(
    judge: F,
    precise: spec_fn(SampledCheck) -> bool,
) -> bool {
    forall|check: SampledCheck, ok: bool| #[trigger]
        call_ensures(judge, (check,), ok) ==> ok == precise(check)
}

/// A function judges the precision of all outputs.
pub open spec fn judges_all<F: Fn(SampledCheck) -> bool>(judge: F) -> bool {
    forall|check: SampledCheck| call_requires(judge, (check,))
}

fn read_width(doc: &Document, dict: &Dict) -> (width: Option<u8>)
    ensures
        width == width_of(*doc, *dict),
        width matches Some(bits) ==> is_sample_width(bits as int),
{
    match integer(doc, dict, "BitsPerSample") {
        Some(bits) => if bits == 1 || bits == 2 || bits == 4 || bits == 8 || bits == 12 || bits
            == 16 || bits == 24 || bits == 32 {
            Some(bits as u8)
        } else {
            None
        },
        None => None,
    }
}

fn read_cubic(doc: &Document, dict: &Dict) -> (cubic: Option<bool>)
    ensures
        cubic == cubic_of(*doc, *dict),
{
    if !dict.contains_key("Order") {
        return Some(false);
    }
    match integer(doc, dict, "Order") {
        Some(order) => if order == 1 {
            Some(false)
        } else if order == 3 {
            Some(true)
        } else {
            None
        },
        None => None,
    }
}

fn read_sizes(doc: &Document, dict: &Dict) -> (result: Option<Vec<usize>>)
    ensures
        match sizes_of(*doc, *dict) {
            None => result is None,
            Some(expected) => {
                &&& result matches Some(sizes)
                &&& sizes@ == expected
                &&& 0 < expected.len() <= MAX_COMPONENTS
                &&& forall|i: int|
                    0 <= i < expected.len() ==> 1 <= #[trigger] expected[i] <= MAX_SAMPLES
            },
        },
{
    let objects = match objects(doc, dict, "Size", MAX_COMPONENTS) {
        None => {
            return None;
        },
        Some(objects) => objects,
    };
    let ghost expected = array_objects(*doc, *dict, "Size"@, MAX_COMPONENTS as int)->0;
    if objects.len() == 0 {
        return None;
    }
    let mut sizes: Vec<usize> = Vec::new();
    let mut i: usize = 0;
    while i < objects.len()
        invariant
            i <= objects@.len(),
            array_objects(*doc, *dict, "Size"@, MAX_COMPONENTS as int) == Some(expected),
            objects@.len() == expected.len(),
            expected.len() > 0,
            forall|k: int| 0 <= k < objects@.len() ==> *#[trigger] objects@[k] == expected[k],
            sizes@.len() == i,
            forall|k: int|
                0 <= k < i ==> {
                    &&& is_size(#[trigger] expected[k])
                    &&& expected[k]->Number_0.integer->0 <= MAX_SAMPLES
                    &&& sizes@[k] == expected[k]->Number_0.integer->0
                },
        decreases objects@.len() - i,
    {
        assert(*objects@[i as int] == expected[i as int]);
        let size: i64 = match objects[i] {
            Object::Number(number) => match number.integer {
                Some(size) => size,
                None => {
                    assert(!is_size(expected[i as int]));
                    return None;
                },
            },
            _ => {
                assert(!is_size(expected[i as int]));
                return None;
            },
        };
        if size <= 0 || size > MAX_SAMPLES as i64 {
            assert(!(is_size(expected[i as int]) && expected[i as int]->Number_0.integer->0
                <= MAX_SAMPLES));
            return None;
        }
        sizes.push(size as usize);
        i = i + 1;
    }
    assert(sizes@ =~= Seq::new(
        expected.len(),
        |k: int| expected[k]->Number_0.integer->0 as usize,
    ));
    Some(sizes)
}

/// The products of sizes do not shrink.
proof fn lemma_products_grow(
    outputs: int,
    sizes: Seq<usize>,
    cubic: bool,
    count: nat,
    more: nat,
)
    requires
        outputs >= 1,
        count <= more <= sizes.len(),
        forall|i: int| 0 <= i < sizes.len() ==> 1 <= #[trigger] sizes[i],
    ensures
        1 <= entries(outputs, sizes, count) <= entries(outputs, sizes, more),
        1 <= contributions(outputs, sizes, cubic, count) <= contributions(
            outputs,
            sizes,
            cubic,
            more,
        ),
    decreases more,
{
    if more == 0 {
    } else if count < more {
        lemma_products_grow(outputs, sizes, cubic, count, (more - 1) as nat);
        let e = entries(outputs, sizes, (more - 1) as nat);
        let c = contributions(outputs, sizes, cubic, (more - 1) as nat);
        let s = sizes[more - 1] as int;
        let n = neighbors(s, cubic);
        assert(e <= e * s) by (nonlinear_arith)
            requires
                e >= 1,
                s >= 1,
        ;
        assert(c <= c * n) by (nonlinear_arith)
            requires
                c >= 1,
                n >= 1,
        ;
    } else {
        lemma_products_grow(outputs, sizes, cubic, (count - 1) as nat, (count - 1) as nat);
        let e = entries(outputs, sizes, (more - 1) as nat);
        let c = contributions(outputs, sizes, cubic, (more - 1) as nat);
        let s = sizes[more - 1] as int;
        let n = neighbors(s, cubic);
        assert(1 <= e * s) by (nonlinear_arith)
            requires
                e >= 1,
                s >= 1,
        ;
        assert(1 <= c * n) by (nonlinear_arith)
            requires
                c >= 1,
                n >= 1,
        ;
    }
}

/// The dimensions of a table.
struct Dimensions {
    strides: Vec<usize>,
    entries: u64,
    contributions: u64,
    total: u64,
    cubic_axes: u64,
}

/// Multiply the sizes, if the table stays within bounds.
fn multiply(sizes: &Vec<usize>, outputs: usize, cubic: bool) -> (result: Option<Dimensions>)
    requires
        1 <= outputs <= MAX_COMPONENTS,
        0 < sizes@.len() <= MAX_COMPONENTS,
        forall|i: int| 0 <= i < sizes@.len() ==> 1 <= #[trigger] sizes@[i] <= MAX_SAMPLES,
    ensures
        ({
            let n = sizes@.len();
            let fits = entries(outputs as int, sizes@, n) <= MAX_SAMPLES && contributions(
                outputs as int,
                sizes@,
                cubic,
                n,
            ) <= MAX_CONTRIBUTIONS;
            match result {
                None => !fits,
                Some(d) => {
                    &&& fits
                    &&& d.strides@ == Seq::new(
                        n,
                        |i: int| entries(outputs as int, sizes@, i as nat) as usize,
                    )
                    &&& d.entries == entries(outputs as int, sizes@, n)
                    &&& d.contributions == contributions(outputs as int, sizes@, cubic, n)
                    &&& d.total == total(sizes@, n)
                    &&& d.total <= 0x4000_0000
                    &&& d.cubic_axes == cubic_count(sizes@, cubic, n)
                },
            }
        }),
{
    let mut strides: Vec<usize> = Vec::new();
    let mut product: u64 = outputs as u64;
    let mut dependencies: u64 = outputs as u64;
    let mut sum: u64 = 0;
    let mut cubic_axes: u64 = 0;
    let mut i: usize = 0;
    while i < sizes.len()
        invariant
            i <= sizes@.len() <= MAX_COMPONENTS,
            1 <= outputs <= MAX_COMPONENTS,
            forall|k: int| 0 <= k < sizes@.len() ==> 1 <= #[trigger] sizes@[k] <= MAX_SAMPLES,
            strides@.len() == i,
            forall|k: int|
                0 <= k < i ==> #[trigger] strides@[k] == entries(
                    outputs as int,
                    sizes@,
                    k as nat,
                ) as usize,
            product == entries(outputs as int, sizes@, i as nat),
            1 <= product <= MAX_SAMPLES,
            dependencies == contributions(outputs as int, sizes@, cubic, i as nat),
            1 <= dependencies <= MAX_CONTRIBUTIONS,
            sum == total(sizes@, i as nat),
            sum <= i * MAX_SAMPLES,
            cubic_axes == cubic_count(sizes@, cubic, i as nat),
            cubic_axes <= i,
        decreases sizes@.len() - i,
    {
        let size: u64 = sizes[i] as u64;
        strides.push(product as usize);
        let around: u64 = if cubic && size >= 4 {
            4
        } else if size < 2 {
            size
        } else {
            2
        };
        proof {
            lemma_products_grow(
                outputs as int,
                sizes@,
                cubic,
                (i + 1) as nat,
                sizes@.len(),
            );
            assert(product * size <= MAX_SAMPLES * MAX_SAMPLES) by (nonlinear_arith)
                requires
                    product <= MAX_SAMPLES,
                    size <= MAX_SAMPLES,
            ;
            assert(dependencies * around <= 65_536 * 4) by (nonlinear_arith)
                requires
                    dependencies <= 65_536,
                    around <= 4,
            ;
        }
        product = product * size;
        dependencies = dependencies * around;
        if product > MAX_SAMPLES as u64 || dependencies > MAX_CONTRIBUTIONS as u64 {
            return None;
        }
        sum = sum + size;
        if cubic && size >= 4 {
            cubic_axes = cubic_axes + 1;
        }
        i = i + 1;
    }
    assert(strides@ =~= Seq::new(
        sizes@.len(),
        |k: int| entries(outputs as int, sizes@, k as nat) as usize,
    ));
    Some(
        Dimensions {
            strides,
            entries: product,
            contributions: dependencies,
            total: sum,
            cubic_axes,
        },
    )
}

/// Whether every dimension with more than one sample has an extent.
fn have_extent(sizes: &Vec<usize>, domain: &Vec<Interval>) -> (result: bool)
    requires
        sizes@.len() == domain@.len(),
    ensures
        result == forall|i: int|
            0 <= i < sizes@.len() ==> has_extent(#[trigger] sizes@[i], domain@[i]),
{
    let mut i: usize = 0;
    while i < sizes.len()
        invariant
            i <= sizes@.len() == domain@.len(),
            forall|k: int| 0 <= k < i ==> has_extent(#[trigger] sizes@[k], domain@[k]),
        decreases sizes@.len() - i,
    {
        if sizes[i] != 1 && rank_of(domain[i].low) == rank_of(domain[i].high) {
            assert(!has_extent(sizes@[i as int], domain@[i as int]));
            return false;
        }
        i = i + 1;
    }
    true
}

fn build_encode(sizes: &Vec<usize>) -> (encode: Vec<Interval>)
    requires
        forall|i: int| 0 <= i < sizes@.len() ==> 1 <= #[trigger] sizes@[i] <= MAX_SAMPLES,
    ensures
        encode@ == default_encode(sizes@),
{
    let mut encode: Vec<Interval> = Vec::new();
    let mut i: usize = 0;
    while i < sizes.len()
        invariant
            i <= sizes@.len(),
            forall|k: int| 0 <= k < sizes@.len() ==> 1 <= #[trigger] sizes@[k] <= MAX_SAMPLES,
            encode@.len() == i,
            forall|k: int| 0 <= k < i ==> #[trigger] encode@[k] == default_encode(sizes@)[k],
        decreases sizes@.len() - i,
    {
        encode.push(Interval { low: 0, high: from_small((sizes[i] - 1) as u32) });
        i = i + 1;
    }
    assert(encode@ =~= default_encode(sizes@));
    encode
}

/// Whether the precision of all outputs is enough.
fn are_precise<F: Fn(SampledCheck) -> bool>(
    decode: &Vec<Interval>,
    terms: u64,
    cubic_axes: u64,
    judge: &F,
) -> (result: bool)
    requires
        judges_all(*judge),
    ensures
        forall|precise: spec_fn(SampledCheck) -> bool| #[trigger]
            judges(*judge, precise) ==> result == forall|i: int|
                0 <= i < decode@.len() ==> is_precise(
                    SampledCheck { terms, cubic_axes, decode: #[trigger] decode@[i] },
                    precise,
                ),
{
    let mut i: usize = 0;
    while i < decode.len()
        invariant
            i <= decode@.len(),
            judges_all(*judge),
            forall|precise: spec_fn(SampledCheck) -> bool| #[trigger]
                judges(*judge, precise) ==> forall|k: int|
                    0 <= k < i ==> is_precise(
                        SampledCheck { terms, cubic_axes, decode: #[trigger] decode@[k] },
                        precise,
                    ),
        decreases decode@.len() - i,
    {
        let interval = decode[i];
        let check = SampledCheck { terms, cubic_axes, decode: interval };
        if rank_of(interval.low) != rank_of(interval.high) {
            let ok = judge(check);
            if !ok {
                assert forall|precise: spec_fn(SampledCheck) -> bool| #[trigger]
                    judges(*judge, precise) implies !is_precise(check, precise) by {}
                assert(decode@[i as int] == interval);
                return false;
            }
        }
        i = i + 1;
    }
    true
}

/// Read the samples of a table.
fn read_table(data: &[u8], count: usize, width: u8) -> (table: Vec<u32>)
    requires
        is_sample_width(width as int),
        count <= MAX_SAMPLES,
        count * width <= 8 * data@.len(),
    ensures
        table@ == Seq::new(
            count as nat,
            |i: int| sample_at(data@, i * width, width as int),
        ),
{
    let mut table: Vec<u32> = Vec::new();
    let mut i: usize = 0;
    while i < count
        invariant
            i <= count <= MAX_SAMPLES,
            is_sample_width(width as int),
            count * width <= 8 * data@.len(),
            table@.len() == i,
            forall|k: int|
                0 <= k < i ==> #[trigger] table@[k] == sample_at(data@, k * width, width as int),
        decreases count - i,
    {
        proof {
            assert((i + 1) * width <= count * width) by (nonlinear_arith)
                requires
                    i + 1 <= count,
            ;
            assert((i + 1) * width == i * width + width) by (nonlinear_arith);
            assert(i * width <= 16_777_216 * 32) by (nonlinear_arith)
                requires
                    0 <= i <= 16_777_216,
                    0 <= width <= 32,
            ;
            if width == 8 {
                assert((i * 8) % 8 == 0);
            }
        }
        match read_sample(data, i * width as usize, width) {
            Some(sample) => {
                table.push(sample);
            },
            None => {},
        }
        i = i + 1;
    }
    assert(table@ =~= Seq::new(count as nat, |k: int| sample_at(data@, k * width, width as int)));
    table
}

impl Type0 {
    /// Read a sampled function.
    ///
    /// `judge` says whether the precision of an output is enough.
    pub fn new<F: Fn(SampledCheck) -> bool>(doc: &Document, stream: &Stream, judge: &F) -> (result:
        Option<Self>)
        requires
            judges_all(*judge),
        ensures
            forall|precise: spec_fn(SampledCheck) -> bool| #[trigger]
                judges(*judge, precise) ==> match sampled_function(*doc, *stream, precise) {
                    None => result is None,
                    Some(expected) => result matches Some(function) && function@ == expected,
                },
    {
        let dict = &stream.dict;
        let (bits, cubic, domain, range, sizes) = match (
            read_width(doc, dict),
            read_cubic(doc, dict),
            pairs(doc, dict, "Domain", MAX_COMPONENTS),
            pairs(doc, dict, "Range", MAX_COMPONENTS),
            read_sizes(doc, dict),
        ) {
            (Some(bits), Some(cubic), Some(domain), Some(range), Some(sizes)) => (
                bits,
                cubic,
                domain,
                range,
                sizes,
            ),
            _ => {
                return None;
            },
        };
        if !are_in_order(&domain) || !are_in_order(&range) {
            return None;
        }
        if sizes.len() != domain.len() || !have_extent(&sizes, &domain) {
            return None;
        }
        assert(1 <= range@.len() <= MAX_COMPONENTS) by {
            lemma_pair_count(*doc, stream.dict, "Range"@);
        }
        let dimensions = match multiply(&sizes, range.len(), cubic) {
            None => {
                return None;
            },
            Some(dimensions) => dimensions,
        };
        assert(within_bounds(sizes@, domain@, range@.len() as int, cubic));
        let encode = if dict.contains_key("Encode") {
            match pairs(doc, dict, "Encode", MAX_COMPONENTS) {
                None => {
                    return None;
                },
                Some(encode) => encode,
            }
        } else {
            build_encode(&sizes)
        };
        let decode = if dict.contains_key("Decode") {
            match pairs(doc, dict, "Decode", MAX_COMPONENTS) {
                None => {
                    return None;
                },
                Some(decode) => decode,
            }
        } else {
            copied(range.as_slice())
        };
        if encode.len() != domain.len() || decode.len() != range.len() {
            return None;
        }
        let terms: u64 = dimensions.total + dimensions.contributions;
        if !are_precise(&decode, terms, dimensions.cubic_axes, judge) {
            proof {
                assert forall|precise: spec_fn(SampledCheck) -> bool| #[trigger]
                    judges(*judge, precise) implies sampled_function(
                    *doc,
                    *stream,
                    precise,
                ) is None by {
                    let i = choose|i: int|
                        0 <= i < decode@.len() && !is_precise(
                            SampledCheck {
                                terms,
                                cubic_axes: dimensions.cubic_axes,
                                decode: #[trigger] decode@[i],
                            },
                            precise,
                        );
                    assert(!is_precise(
                        check_of(sizes@, range@.len() as int, cubic, decode@[i]),
                        precise,
                    ));
                }
            }
            return None;
        }
        proof {
            assert forall|precise: spec_fn(SampledCheck) -> bool| #[trigger]
                judges(*judge, precise) implies forall|i: int|
                0 <= i < decode@.len() ==> is_precise(
                    check_of(sizes@, range@.len() as int, cubic, #[trigger] decode@[i]),
                    precise,
                ) by {
                assert forall|i: int| 0 <= i < decode@.len() implies is_precise(
                    check_of(sizes@, range@.len() as int, cubic, #[trigger] decode@[i]),
                    precise,
                ) by {
                    assert(is_precise(
                        SampledCheck {
                            terms,
                            cubic_axes: dimensions.cubic_axes,
                            decode: decode@[i],
                        },
                        precise,
                    ));
                }
            }
        }
        let count: usize = dimensions.entries as usize;
        match &stream.data {
            None => None,
            Some(data) => {
                let data = data.as_slice();
                let needed: u64 = dimensions.entries * bits as u64;
                if (needed + 7) / 8 > data.len() as u64 {
                    return None;
                }
                let table = read_table(data, count, bits);
                Some(
                    Type0 {
                        sizes,
                        strides: dimensions.strides,
                        table,
                        domain,
                        range,
                        bits,
                        cubic,
                        encode,
                        decode,
                    },
                )
            },
        }
    }
}

/// An array of intervals holds at least one and not too many.
proof fn lemma_pair_count(doc: Document, dict: Dict, key: Seq<char>)
    ensures
        array_pairs(doc, dict, key, MAX_COMPONENTS as int) matches Some(pairs) ==> 1 <= pairs.len()
            <= MAX_COMPONENTS,
{
}

} // verus!
