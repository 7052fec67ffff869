//! Bounded native component reads.

use crate::bits::{bit_at, bit_range, lemma_bits_value_bound};
use crate::function::numeric::Interval;
use crate::function::single::{finite, is_finite};
use crate::sample_reader::{read_sample, sample_at};
use vstd::arithmetic::power2::{lemma2_to64, pow2};
use vstd::prelude::*;
use vstd::slice::slice_subrange;

verus! {

/// Why an image has no output.
#[derive(Clone, Copy, Debug, PartialEq, Eq, Structural)]
pub enum FloatImageError {
    /// The host has asked to stop.
    Cancelled,
    /// The image is of a kind that is not supported.
    Unsupported,
    /// The output is larger than allowed.
    Limit {
        /// The bytes of the output.
        requested: u64,
    },
    /// The samples cannot be decoded.
    Decode,
    /// There is no memory for the output.
    Allocation,
}

/// Decoded samples and their layout.
#[derive(Debug)]
pub struct SampleContext {
    pub width: u32,
    pub height: u32,
    /// The components of a pixel.
    pub components: usize,
    pub bits_per_component: u8,
    /// What the samples of each component are mapped to.
    pub decode: Vec<Interval>,
    pub data: Vec<u8>,
}

/// A number of bits can be that of a component.
pub open spec fn is_depth(bits: u8, jpx: bool) -> bool {
    if jpx {
        1 <= bits <= 16
    } else {
        bits == 1 || bits == 2 || bits == 4 || bits == 8 || bits == 16
    }
}

/// Both ends of all intervals are finite.
pub open spec fn all_ends_finite(decode: Seq<Interval>) -> bool {
    forall|i: int|
        0 <= i < decode.len() ==> finite((#[trigger] decode[i]).low) && finite(decode[i].high)
}

impl SampleContext {
    /// The bits of a row.
    pub open spec fn row_bits(&self) -> int {
        self.width * self.components * self.bits_per_component
    }

    /// The bytes of a row. Rows start at a byte.
    pub open spec fn row_bytes(&self) -> int {
        (self.row_bits() + 7) / 8
    }

    /// The bytes of all rows.
    pub open spec fn required(&self) -> int {
        self.row_bytes() * self.height
    }

    /// The bit at which a sample starts.
    pub open spec fn position(&self, row: int, column: int, component: int) -> int {
        8 * (self.row_bytes() * row) + (column * self.components + component)
            * self.bits_per_component
    }

    /// The samples of a pixel.
    pub open spec fn pixel(&self, row: int, column: int) -> Seq<u32> {
        Seq::new(
            self.components as nat,
            |c: int|
                sample_at(
                    self.data@,
                    self.position(row, column, c),
                    self.bits_per_component as int,
                ),
        )
    }

    /// Why the samples cannot be read, if they cannot.
    pub open spec fn error(&self, jpx: bool) -> Option<FloatImageError> {
        if self.width == 0 || self.height == 0 || self.components == 0 {
            Some(FloatImageError::Decode)
        } else if !is_depth(self.bits_per_component, jpx) || self.decode@.len() != self.components
            || !all_ends_finite(self.decode@) {
            Some(FloatImageError::Unsupported)
        } else if self.row_bits() > u64::MAX || self.required() > u64::MAX {
            Some(FloatImageError::Limit { requested: u64::MAX })
        } else if self.required() > self.data@.len() {
            Some(FloatImageError::Decode)
        } else {
            None
        }
    }

    /// The samples of all pixels are there.
    pub open spec fn is_complete(&self) -> bool {
        &&& self.width > 0 && self.height > 0 && self.components > 0
        &&& 1 <= self.bits_per_component <= 16
        &&& self.row_bits() <= u64::MAX
        &&& self.required() <= self.data@.len()
    }
}

proof fn lemma_product_bound(a: int, b: int, x: int, y: int)
    requires
        0 <= a <= x,
        0 <= b <= y,
    ensures
        0 <= a * b <= x * y,
{
    assert(0 <= a * b <= x * y) by (nonlinear_arith)
        requires
            0 <= a <= x,
            0 <= b <= y,
    ;
}

/// A sample of a pixel lies within its row, and the row within the data.
pub proof fn lemma_position_within(context: SampleContext, row: int, column: int, component: int)
    requires
        context.is_complete(),
        0 <= row < context.height,
        0 <= column < context.width,
        0 <= component < context.components,
    ensures
        0 <= (column * context.components + component) * context.bits_per_component,
        (column * context.components + component) * context.bits_per_component
            + context.bits_per_component <= context.row_bits(),
        0 <= context.row_bytes() * row,
        context.row_bytes() * row + context.row_bytes() <= context.required(),
        0 <= context.position(row, column, component),
        context.position(row, column, component) + context.bits_per_component <= 8
            * context.data@.len(),
{
    let width = context.width as int;
    let components = context.components as int;
    let bits = context.bits_per_component as int;
    let height = context.height as int;
    let bytes = context.row_bytes();
    let samples = width * components;
    let at = column * components + component;
    assert(column * components + component + 1 <= width * components && 0 <= column * components)
        by (nonlinear_arith)
        requires
            0 <= column < width,
            0 <= component < components,
    ;
    assert(0 <= at * bits && at * bits + bits <= samples * bits) by (nonlinear_arith)
        requires
            0 <= at,
            at + 1 <= samples,
            bits >= 0,
    ;
    assert(samples * bits == context.row_bits());
    assert(bytes >= 0);
    assert(0 <= bytes * row && bytes * row + bytes <= bytes * height) by (nonlinear_arith)
        requires
            0 <= row < height,
            bytes >= 0,
    ;
}

/// A sample of a number of bits is below the power of two of that number.
pub proof fn lemma_sample_bound(data: Seq<u8>, position: int, width: int)
    requires
        1 <= width <= 31,
    ensures
        sample_at(data, position, width) < pow2(width as nat),
{
    lemma_bits_value_bound(bit_range(data, position, position + width));
    vstd::arithmetic::power2::lemma_pow2_strictly_increases(width as nat, 32);
    lemma2_to64();
}

/// A sample can be read from the byte in which it starts.
proof fn lemma_sample_shift(data: Seq<u8>, byte: int, offset: int, width: int)
    requires
        0 <= byte,
        0 <= offset < 8,
        0 <= width,
        8 * byte + offset + width <= 8 * data.len(),
    ensures
        sample_at(data.skip(byte), offset, width) == sample_at(data, 8 * byte + offset, width),
{
    let tail = data.skip(byte);
    let a = bit_range(tail, offset, offset + width);
    let b = bit_range(data, 8 * byte + offset, 8 * byte + offset + width);
    assert forall|k: int| 0 <= k < width implies #[trigger] a[k] == b[k] by {
        let inner = offset + k;
        assert((8 * byte + inner) / 8 == byte + inner / 8);
        assert((8 * byte + inner) % 8 == inner % 8);
        assert(tail[inner / 8] == data[byte + inner / 8]);
        assert(a[k] == bit_at(tail, inner));
        assert(b[k] == bit_at(data, 8 * byte + inner));
    }
    assert(a =~= b);
}

/// Read the samples of pixels in turn.
#[derive(Debug)]
pub struct Samples<'a> {
    pub context: &'a SampleContext,
    pub row: u32,
    pub column: u32,
}

/// Whether both ends of all intervals are finite.
pub fn are_ends_finite(decode: &Vec<Interval>) -> (result: bool)
    ensures
        result == all_ends_finite(decode@),
{
    let mut i: usize = 0;
    while i < decode.len()
        invariant
            i <= decode@.len(),
            forall|k: int|
                0 <= k < i ==> finite((#[trigger] decode@[k]).low) && finite(decode@[k].high),
        decreases decode@.len() - i,
    {
        if !is_finite(decode[i].low) || !is_finite(decode[i].high) {
            assert(!(finite(decode@[i as int].low) && finite(decode@[i as int].high)));
            return false;
        }
        i = i + 1;
    }
    true
}

/// Whether a number of bits can be that of a component.
pub fn can_be_depth(bits: u8, jpx: bool) -> (result: bool)
    ensures
        result == is_depth(bits, jpx),
{
    if jpx {
        1 <= bits && bits <= 16
    } else {
        bits == 1 || bits == 2 || bits == 4 || bits == 8 || bits == 16
    }
}

/// The bytes of all rows, unless there are more than can be counted.
pub fn required_bytes(width: u32, height: u32, components: usize, bits: u8) -> (bytes: Option<u64>)
    ensures
        ({
            let row_bits = width * components * bits;
            let required = (row_bits + 7) / 8 * height;
            bytes == if row_bits > u64::MAX || required > u64::MAX {
                None
            } else {
                Some(required as u64)
            }
        }),
{
    proof {
        lemma_product_bound(width as int, components as int, 0xFFFF_FFFF, 0xFFFF_FFFF_FFFF_FFFF);
        lemma_product_bound(
            width * components,
            bits as int,
            0xFFFF_FFFFint * 0xFFFF_FFFF_FFFF_FFFFint,
            0xFF,
        );
    }
    let row_bits: u128 = width as u128 * components as u128 * bits as u128;
    if row_bits > u64::MAX as u128 {
        return None;
    }
    let row_bytes: u128 = (row_bits + 7) / 8;
    proof {
        lemma_product_bound(
            row_bytes as int,
            height as int,
            0x2000_0000_0000_0000,
            0xFFFF_FFFF,
        );
    }
    let required: u128 = row_bytes * height as u128;
    if required > u64::MAX as u128 {
        None
    } else {
        Some(required as u64)
    }
}

impl<'a> Samples<'a> {
    /// The next pixel is one of the image, or there is none left.
    pub open spec fn wf(&self) -> bool {
        &&& self.context.is_complete()
        &&& self.row <= self.context.height
        &&& self.column < self.context.width
    }

    /// The number of pixels that were read.
    pub open spec fn index(&self) -> int {
        self.row * self.context.width + self.column
    }

    /// The samples of an image, from the first pixel on.
    pub fn new(context: &'a SampleContext, jpx: bool) -> (result: Result<Self, FloatImageError>)
        ensures
            match context.error(jpx) {
                Some(error) => result == Err::<Self, FloatImageError>(error),
                None => {
                    &&& result matches Ok(samples)
                    &&& samples.wf()
                    &&& samples.context == context
                    &&& samples.row == 0
                    &&& samples.column == 0
                },
            },
    {
        if context.width == 0 || context.height == 0 || context.components == 0 {
            return Err(FloatImageError::Decode);
        }
        if !can_be_depth(context.bits_per_component, jpx) || context.decode.len()
            != context.components || !are_ends_finite(&context.decode) {
            return Err(FloatImageError::Unsupported);
        }
        let required: u64 = match required_bytes(
            context.width,
            context.height,
            context.components,
            context.bits_per_component,
        ) {
            Some(required) => required,
            None => {
                return Err(FloatImageError::Limit { requested: u64::MAX });
            },
        };
        if required > context.data.len() as u64 {
            return Err(FloatImageError::Decode);
        }
        Ok(Samples { context, row: 0, column: 0 })
    }

    /// Read the samples of the next pixel.
    pub fn read(&mut self) -> (result: Result<Vec<u32>, FloatImageError>)
        requires
            old(self).wf(),
        ensures
            final(self).wf(),
            final(self).context == old(self).context,
            if old(self).row == old(self).context.height {
                &&& result == Err::<Vec<u32>, FloatImageError>(FloatImageError::Decode)
                &&& *final(self) == *old(self)
            } else {
                &&& result matches Ok(samples)
                &&& samples@ == old(self).context.pixel(
                    old(self).row as int,
                    old(self).column as int,
                )
                &&& final(self).index() == old(self).index() + 1
                &&& final(self).row == (if old(self).column + 1 == old(self).context.width {
                    old(self).row + 1
                } else {
                    old(self).row as int
                })
                &&& final(self).column == (if old(self).column + 1 == old(self).context.width {
                    0
                } else {
                    old(self).column + 1
                })
            },
    {
        let context = self.context;
        if self.row == context.height {
            return Err(FloatImageError::Decode);
        }
        let ghost row = self.row as int;
        let ghost column = self.column as int;
        let bits: u8 = context.bits_per_component;
        let total: usize = context.data.len();
        let mut samples: Vec<u32> = Vec::new();
        let mut c: usize = 0;
        proof {
            lemma_position_within(*context, row, column, 0);
            lemma_position_within(
                *context,
                context.height - 1,
                context.width - 1,
                context.components - 1,
            );
            lemma_product_bound(
                context.width as int,
                context.components as int,
                0xFFFF_FFFF,
                0xFFFF_FFFF_FFFF_FFFF,
            );
            lemma_product_bound(
                context.width * context.components,
                bits as int,
                0xFFFF_FFFFint * 0xFFFF_FFFF_FFFF_FFFFint,
                0xFF,
            );
        }
        let row_bits: u128 = context.width as u128 * context.components as u128 * bits as u128;
        let row_bytes: u128 = (row_bits + 7) / 8;
        assert(row_bytes == context.row_bytes());
        assert(row_bytes * row <= total);
        let start: u128 = row_bytes * self.row as u128;
        while c < context.components
            invariant
                c <= context.components,
                context.is_complete(),
                total == context.data@.len(),
                0 <= row < context.height,
                0 <= column < context.width,
                column == self.column,
                bits == context.bits_per_component,
                start == context.row_bytes() * row,
                samples@.len() == c,
                forall|k: int|
                    0 <= k < c ==> #[trigger] samples@[k] == context.pixel(row, column)[k],
            decreases context.components - c,
        {
            let ghost at = (column * context.components + c) * bits;
            proof {
                lemma_position_within(*context, row, column, c as int);
                lemma_product_bound(
                    column,
                    context.components as int,
                    0xFFFF_FFFF,
                    0xFFFF_FFFF_FFFF_FFFF,
                );
                lemma_product_bound(
                    column * context.components + c,
                    bits as int,
                    0x1_0000_0000int * 0x1_0000_0000_0000_0000int,
                    0x10,
                );
            }
            let inner: u128 = (self.column as u128 * context.components as u128 + c as u128)
                * bits as u128;
            assert(inner == at);
            let ghost position = context.position(row, column, c as int);
            assert(position == 8 * start + inner);
            assert(start + inner / 8 <= total);
            let byte: usize = (start + inner / 8) as usize;
            let offset: usize = (inner % 8) as usize;
            assert(position == 8 * byte + offset);
            assert(bits == 8 ==> offset == 0) by {
                if bits == 8 {
                    let n = column * context.components + c;
                    assert(at == 8 * n);
                }
            }
            let tail = slice_subrange(context.data.as_slice(), byte, total);
            assert(tail@ =~= context.data@.skip(byte as int));
            match read_sample(tail, offset, bits) {
                Some(sample) => {
                    proof {
                        lemma_sample_shift(
                            context.data@,
                            byte as int,
                            offset as int,
                            bits as int,
                        );
                    }
                    samples.push(sample);
                },
                None => {
                    assert(false);
                },
            }
            c = c + 1;
        }
        assert(samples@ =~= context.pixel(row, column));
        proof {
            let width = context.width as int;
            assert((row + 1) * width == row * width + width) by (nonlinear_arith);
        }
        if self.column + 1 == context.width {
            self.column = 0;
            self.row = self.row + 1;
        } else {
            self.column = self.column + 1;
        }
        Ok(samples)
    }
}

} // verus!
