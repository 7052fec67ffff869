//! What holds of bitmaps, regions and the decoding of pixels.

use crate::bits::word_at;
use crate::jbig2::arithmetic_decoder::{
    byte_in, coded_byte, decide, init_dec, qe_row, renorm, ArithmeticDecoderContext, Registers,
};
use crate::jbig2::bitmap::{combined, lemma_pixel_index, pixel_at, pixel_index, Bitmap};
use crate::jbig2::error::{DecodeError, OverflowError, RegionError};
use crate::jbig2::generic_extended::{
    context_label, copy_row, decode_pixel, decode_row, decode_rows, weight_of,
    AdaptiveTemplatePixel, Template, Work,
};
use crate::jbig2::generic_refinement::{
    adaptive_at, causal, neighborhood, refinement_header_at, signed_byte, template0_label,
    template1_label, uniform, Decoded, Neighborhood, RefinementContextGatherer,
};
use crate::jbig2::region::{
    operator_of, page_flags_of, page_info_of, region_info_at, CombinationOperator,
};
use vstd::prelude::*;

verus! {

/// Operators on pixels: a white region changes nothing with `or` and whitens with `and`; with
/// `xor` twice a region undoes itself; `xnor` is the opposite of `xor`; a replacement does not
/// depend on what was there.
pub proof fn lemma_combined(page: bool, other: bool, region: bool)
    ensures
        combined(CombinationOperator::Or, page, false) == page,
        combined(CombinationOperator::Or, page, true),
        combined(CombinationOperator::And, page, true) == page,
        !combined(CombinationOperator::And, page, false),
        combined(CombinationOperator::And, page, region) == !combined(
            CombinationOperator::Or,
            !page,
            !region,
        ),
        combined(
            CombinationOperator::Xor,
            combined(CombinationOperator::Xor, page, region),
            region,
        ) == page,
        combined(CombinationOperator::Xor, page, false) == page,
        combined(CombinationOperator::Xnor, page, region) == !combined(
            CombinationOperator::Xor,
            page,
            region,
        ),
        combined(CombinationOperator::Replace, page, region) == region,
        combined(CombinationOperator::Replace, page, region) == combined(
            CombinationOperator::Replace,
            other,
            region,
        ),
{
}

/// The place of a pixel counts the pixels before it: those of the rows above, and those to its
/// left. Outside of a bitmap all pixels are white.
pub proof fn lemma_pixels(data: Seq<bool>, width: int, height: int, x: int, y: int)
    requires
        data.len() == width * height,
    ensures
        pixel_index(width, 0, 0) == 0,
        pixel_index(width, x + 1, y) == pixel_index(width, x, y) + 1,
        pixel_index(width, 0, y + 1) == pixel_index(width, width, y),
        x < 0 || y < 0 || x >= width || y >= height ==> !pixel_at(data, width, height, x, y),
        0 <= x < width && 0 <= y < height ==> pixel_at(data, width, height, x, y) == data[y * width
            + x],
{
    assert((y + 1) * width == y * width + width) by (nonlinear_arith);
    assert(0 * width == 0) by (nonlinear_arith);
}

/// The number of a combination operator.
pub open spec fn operator_number(operator: CombinationOperator) -> int {
    match operator {
        CombinationOperator::Or => 0,
        CombinationOperator::And => 1,
        CombinationOperator::Xor => 2,
        CombinationOperator::Xnor => 3,
        CombinationOperator::Replace => 4,
    }
}

/// Operators are numbered from zero to four.
pub proof fn lemma_operator_numbers(value: u8)
    ensures
        operator_of(value) is Some <==> value <= 4,
        operator_of(value) matches Some(operator) ==> operator_number(operator) == value,
{
}

/// The digit of a byte at a power of two.
pub open spec fn bit(byte: u8, power: int) -> bool {
    (byte as int / power) % 2 == 1
}

proof fn lemma_bits(byte: u8)
    ensures
        byte & 7u8 == byte % 8,
        (byte & 0x01u8 != 0) == bit(byte, 1),
        (byte & 0x02u8 != 0) == bit(byte, 2),
        (byte & 0x04u8 != 0) == bit(byte, 4),
        (byte & 0x08u8 != 0) == bit(byte, 8),
        (byte & 0x20u8 != 0) == bit(byte, 0x20),
        (byte & 0x40u8 != 0) == bit(byte, 0x40),
        (byte & 0x80u8 != 0) == bit(byte, 0x80),
        (byte >> 3) & 3u8 == (byte / 8) % 4,
{
    assert(byte & 7u8 == byte % 8) by (bit_vector);
    assert((byte & 0x01u8 != 0) == ((byte / 0x01u8) % 2u8 == 1u8)) by (bit_vector);
    assert((byte & 0x02u8 != 0) == ((byte / 0x02u8) % 2u8 == 1u8)) by (bit_vector);
    assert((byte & 0x04u8 != 0) == ((byte / 0x04u8) % 2u8 == 1u8)) by (bit_vector);
    assert((byte & 0x08u8 != 0) == ((byte / 0x08u8) % 2u8 == 1u8)) by (bit_vector);
    assert((byte & 0x20u8 != 0) == ((byte / 0x20u8) % 2u8 == 1u8)) by (bit_vector);
    assert((byte & 0x40u8 != 0) == ((byte / 0x40u8) % 2u8 == 1u8)) by (bit_vector);
    assert((byte & 0x80u8 != 0) == ((byte / 0x80u8) % 2u8 == 1u8)) by (bit_vector);
    assert((byte >> 3) & 3u8 == (byte / 8u8) % 4u8) by (bit_vector);
}

/// The field of a region: its size, its place, and a byte whose three lowest bits are its operator
/// and whose fourth is the color extension.
pub proof fn lemma_region_info(data: Seq<u8>, at: int)
    requires
        0 <= at,
    ensures
        at + 17 > data.len() ==> region_info_at(data, at) is Err,
        at + 17 <= data.len() ==> {
            &&& region_info_at(data, at) is Ok <==> data[at + 16] as int % 8 <= 4
            &&& data[at + 16] as int % 8 > 4 ==> region_info_at(data, at) == Err::<
                crate::jbig2::region::RegionSegmentInfo,
                DecodeError,
            >(DecodeError::Region(RegionError::InvalidCombinationOperator))
        },
        region_info_at(data, at) matches Ok(info) ==> {
            &&& info.width == word_at(data, at)
            &&& info.height == word_at(data, at + 4)
            &&& info.x_location == word_at(data, at + 8)
            &&& info.y_location == word_at(data, at + 12)
            &&& operator_number(info.combination_operator) == data[at + 16] as int % 8
            &&& info.colour_extension <==> bit(data[at + 16], 8)
        },
{
    if at + 17 <= data.len() {
        lemma_bits(data[at + 16]);
    }
}

/// The flags of a page are the bits of a byte, from the lowest on; two of them are its operator.
pub proof fn lemma_page_flags(byte: u8)
    ensures
        page_flags_of(byte).is_lossless <==> bit(byte, 1),
        page_flags_of(byte).might_contain_refinements <==> bit(byte, 2),
        page_flags_of(byte).default_pixel <==> bit(byte, 4),
        operator_number(page_flags_of(byte).default_combination_operator) == (byte as int / 8) % 4,
        page_flags_of(byte).requires_auxiliary_buffers <==> bit(byte, 32),
        page_flags_of(byte).combination_operator_overridden <==> bit(byte, 64),
        page_flags_of(byte).might_contain_coloured <==> bit(byte, 128),
{
    lemma_bits(byte);
}

/// The information of a page: its size, two words that do not count, its flags and its striping.
pub proof fn lemma_page_info(data: Seq<u8>)
    ensures
        page_info_of(data) is Ok <==> data.len() >= 19,
        page_info_of(data) matches Ok(info) ==> {
            &&& info.width == word_at(data, 0)
            &&& info.height == word_at(data, 4)
            &&& info.flags == page_flags_of(data[16])
            &&& info.is_striped <==> bit(data[17], 128)
        },
{
}

/// A signed byte denotes the same number up to multiples of 256, and lies around zero.
pub proof fn lemma_signed_byte(byte: u8)
    ensures
        -128 <= signed_byte(byte) <= 127,
        (signed_byte(byte) - byte) % 256 == 0,
{
}

/// A pixel is decoded before another if it stands before it in reading order.
pub proof fn lemma_causal(pixel: AdaptiveTemplatePixel, width: int, x: int, y: int)
    requires
        0 <= x < width,
        0 <= y,
        0 <= x + pixel.x < width,
        0 <= y + pixel.y,
    ensures
        causal(pixel) <==> pixel_index(width, x + pixel.x, y + pixel.y) < pixel_index(width, x, y),
{
    let dy = pixel.y as int;
    let dx = pixel.x as int;
    assert((y + dy) * width == y * width + dy * width) by (nonlinear_arith);
    if dy < 0 {
        assert(dy * width <= -width) by (nonlinear_arith)
            requires
                dy <= -1,
                width >= 0,
        ;
    } else if dy > 0 {
        assert(dy * width >= width) by (nonlinear_arith)
            requires
                dy >= 1,
                width >= 0,
        ;
    }
}

/// The header of a refinement: the region, a byte with the template and the prediction, and the
/// adaptive pixels of the first template, of which the one in the region has to be decoded before.
pub proof fn lemma_refinement_header(data: Seq<u8>, at: int)
    requires
        0 <= at,
    ensures
        refinement_header_at(data, at) matches Ok(header) ==> {
            &&& region_info_at(data, at) == Ok::<
                crate::jbig2::region::RegionSegmentInfo,
                DecodeError,
            >(header.region_info)
            &&& at + 18 <= data.len()
            &&& data[at + 17] <= 3
            &&& header.template is Template1 <==> bit(data[at + 17], 1)
            &&& header.typical_prediction <==> bit(data[at + 17], 2)
            &&& header.template is Template0 ==> {
                &&& at + 22 <= data.len()
                &&& header.target_pixel.x == signed_byte(data[at + 18])
                &&& header.target_pixel.y == signed_byte(data[at + 19])
                &&& header.reference_pixel.x == signed_byte(data[at + 20])
                &&& header.reference_pixel.y == signed_byte(data[at + 21])
                &&& causal(header.target_pixel)
            }
            &&& header.template is Template1 ==> header.target_pixel.x == -1
                && header.target_pixel.y == -1 && header.reference_pixel.x == -1
                && header.reference_pixel.y == -1
        },
        region_info_at(data, at) is Ok && at + 22 <= data.len() && data[at + 17] <= 3 ==> (
        refinement_header_at(data, at) is Err <==> !bit(data[at + 17], 1) && !causal(
            adaptive_at(data, at + 18),
        )),
        region_info_at(data, at) is Ok && at + 18 <= data.len() && data[at + 17] > 3
            ==> refinement_header_at(data, at) is Err,
{
}

/// The neighborhood of a pixel is the three pixels of the rows above, at and below it.
pub proof fn lemma_neighborhood(bitmap: Bitmap, x: int, y: int)
    ensures
        ({
            let n = neighborhood(bitmap, x, y);
            let right = neighborhood(bitmap, x + 1, y);
            let below = neighborhood(bitmap, x, y + 1);
            &&& n.center == bitmap.pixel(x, y)
            &&& right.left == n.center && right.center == n.right
            &&& right.top_left == n.top && right.top == n.top_right
            &&& right.bottom_left == n.bottom && right.bottom == n.bottom_right
            &&& below.top == n.center && below.center == n.bottom
            &&& below.top_left == n.left && below.left == n.bottom_left
            &&& below.top_right == n.right && below.right == n.bottom_right
        }),
{
}

/// Nine pixels are uniform if and only if all eight around the middle one have its value.
pub proof fn lemma_uniform(bitmap: Bitmap, x: int, y: int)
    ensures
        ({
            let n = neighborhood(bitmap, x, y);
            uniform(bitmap, x, y) <==> n.top_left == n.center && n.top == n.center && n.top_right
                == n.center && n.left == n.center && n.right == n.center && n.bottom_left
                == n.center && n.bottom == n.center && n.bottom_right == n.center
        }),
{
    let n = neighborhood(bitmap, x, y);
    if uniform(bitmap, x, y) {
        assert(bitmap.pixel(x + (-1), y + (-1)) == n.center);
        assert(bitmap.pixel(x + 0, y + (-1)) == n.center);
        assert(bitmap.pixel(x + 1, y + (-1)) == n.center);
        assert(bitmap.pixel(x + (-1), y + 0) == n.center);
        assert(bitmap.pixel(x + 1, y + 0) == n.center);
        assert(bitmap.pixel(x + (-1), y + 1) == n.center);
        assert(bitmap.pixel(x + 0, y + 1) == n.center);
        assert(bitmap.pixel(x + 1, y + 1) == n.center);
    }
    if n.top_left == n.center && n.top == n.center && n.top_right == n.center && n.left == n.center
        && n.right == n.center && n.bottom_left == n.center && n.bottom == n.center
        && n.bottom_right == n.center {
        assert forall|dx: int, dy: int| -1 <= dx <= 1 && -1 <= dy <= 1 implies #[trigger] bitmap.pixel(
            x + dx,
            y + dy,
        ) == bitmap.pixel(x, y) by {
            if dx == -1 {
                if dy == -1 {
                } else if dy == 0 {
                } else {
                }
            } else if dx == 0 {
                if dy == -1 {
                } else if dy == 0 {
                } else {
                }
            } else {
                if dy == -1 {
                } else if dy == 0 {
                } else {
                }
            }
        }
    }
}

/// The binary digit of a pixel.
#[verifier::opaque]
pub open spec fn digit(black: bool) -> int {
    if black {
        1
    } else {
        0
    }
}

/// A black pixel has its whole weight, and a white one has none.
pub proof fn lemma_weight(black: bool, weight: int)
    ensures
        weight_of(black, weight) == weight * digit(black),
{
    reveal(weight_of);
    reveal(digit);
    assert(weight * 0 == 0) by (nonlinear_arith);
}

/// The digit of a pixel is one if it is black, and else zero.
pub proof fn lemma_digit(black: bool)
    ensures
        digit(true) == 1,
        digit(false) == 0,
        0 <= digit(black) <= 1,
{
    reveal(digit);
}

/// A label of the first template has its pixels as binary digits in reading order: those of the
/// region first, then those of the reference from its top to its bottom.
pub proof fn lemma_first_label(region: Decoded, adaptive: bool, n: Neighborhood)
    ensures
        template0_label(region, adaptive, n) == 4096 * digit(region.corner)
            + 2048 * digit(region.above)
            + 1024 * digit(region.above_right)
            + 512 * digit(region.left)
            + 256 * digit(adaptive)
            + 128 * digit(n.top)
            + 64 * digit(n.top_right)
            + 32 * digit(n.left)
            + 16 * digit(n.center)
            + 8 * digit(n.right)
            + 4 * digit(n.bottom_left)
            + 2 * digit(n.bottom)
            + 1 * digit(n.bottom_right),
{
    lemma_weight(region.corner, 0x1000);
    lemma_weight(region.above, 0x800);
    lemma_weight(region.above_right, 0x400);
    lemma_weight(region.left, 0x200);
    lemma_weight(adaptive, 0x100);
    lemma_weight(n.top, 0x80);
    lemma_weight(n.top_right, 0x40);
    lemma_weight(n.left, 0x20);
    lemma_weight(n.center, 0x10);
    lemma_weight(n.right, 0x8);
    lemma_weight(n.bottom_left, 0x4);
    lemma_weight(n.bottom, 0x2);
    lemma_weight(n.bottom_right, 0x1);
}

/// A label of the second template has its pixels as binary digits in the same order, without the
/// corners that it does not use.
pub proof fn lemma_second_label(region: Decoded, n: Neighborhood)
    ensures
        template1_label(region, n) == 512 * digit(region.corner)
            + 256 * digit(region.above)
            + 128 * digit(region.above_right)
            + 64 * digit(region.left)
            + 32 * digit(n.top)
            + 16 * digit(n.left)
            + 8 * digit(n.center)
            + 4 * digit(n.right)
            + 2 * digit(n.bottom)
            + 1 * digit(n.bottom_right),
        0 <= template1_label(region, n) < 0x400,
{
    lemma_weight(region.corner, 0x200);
    lemma_weight(region.above, 0x100);
    lemma_weight(region.above_right, 0x80);
    lemma_weight(region.left, 0x40);
    lemma_weight(n.top, 0x20);
    lemma_weight(n.left, 0x10);
    lemma_weight(n.center, 0x8);
    lemma_weight(n.right, 0x4);
    lemma_weight(n.bottom, 0x2);
    lemma_weight(n.bottom_right, 0x1);
    assert(0 <= template1_label(region, n) < 0x400) by {
        lemma_digit(region.corner);
        lemma_digit(region.above);
        lemma_digit(region.above_right);
        lemma_digit(region.left);
        lemma_digit(n.top);
        lemma_digit(n.left);
        lemma_digit(n.center);
        lemma_digit(n.right);
        lemma_digit(n.bottom);
        lemma_digit(n.bottom_right);
    }
}

/// The number that pixels of a row denote as binary digits, the leftmost first.
pub open spec fn row_number(t: Template, pixels: Seq<bool>, x: int, y: int, count: nat) -> int
    decreases count,
{
    if count == 0 {
        0
    } else {
        2 * row_number(t, pixels, x, y, (count - 1) as nat) + digit(
            pixel_at(pixels, t.width, t.height, x + count - 1, y),
        )
    }
}

/// Adaptive pixels stand at a place.
pub open spec fn stands_at(pixel: AdaptiveTemplatePixel, x: int, y: int) -> bool {
    pixel.x == x && pixel.y == y
}

proof fn lemma_row_two_above(t: Template, pixels: Seq<bool>, x: int, y: int)
    ensures
        row_number(t, pixels, x - 2, y - 2, 5) == 16 * digit(pixel_at(pixels, t.width, t.height, x - 2, y - 2))
            + 8 * digit(pixel_at(pixels, t.width, t.height, x - 1, y - 2))
            + 4 * digit(pixel_at(pixels, t.width, t.height, x, y - 2))
            + 2 * digit(pixel_at(pixels, t.width, t.height, x + 1, y - 2))
            + digit(pixel_at(pixels, t.width, t.height, x + 2, y - 2)),
{
    assert(row_number(t, pixels, x - 2, y - 2, 0) == 0);
    assert(row_number(t, pixels, x - 2, y - 2, 1) == 2 * row_number(t, pixels, x - 2, y - 2, 0) + digit(
        pixel_at(pixels, t.width, t.height, x - 2, y - 2),
    ));
    assert(row_number(t, pixels, x - 2, y - 2, 2) == 2 * row_number(t, pixels, x - 2, y - 2, 1) + digit(
        pixel_at(pixels, t.width, t.height, x - 1, y - 2),
    ));
    assert(row_number(t, pixels, x - 2, y - 2, 3) == 2 * row_number(t, pixels, x - 2, y - 2, 2) + digit(
        pixel_at(pixels, t.width, t.height, x, y - 2),
    ));
    assert(row_number(t, pixels, x - 2, y - 2, 4) == 2 * row_number(t, pixels, x - 2, y - 2, 3) + digit(
        pixel_at(pixels, t.width, t.height, x + 1, y - 2),
    ));
    assert(row_number(t, pixels, x - 2, y - 2, 5) == 2 * row_number(t, pixels, x - 2, y - 2, 4) + digit(
        pixel_at(pixels, t.width, t.height, x + 2, y - 2),
    ));
}

proof fn lemma_row_above(t: Template, pixels: Seq<bool>, x: int, y: int)
    ensures
        row_number(t, pixels, x - 3, y - 1, 7) == 64 * digit(pixel_at(pixels, t.width, t.height, x - 3, y - 1))
            + 32 * digit(pixel_at(pixels, t.width, t.height, x - 2, y - 1))
            + 16 * digit(pixel_at(pixels, t.width, t.height, x - 1, y - 1))
            + 8 * digit(pixel_at(pixels, t.width, t.height, x, y - 1))
            + 4 * digit(pixel_at(pixels, t.width, t.height, x + 1, y - 1))
            + 2 * digit(pixel_at(pixels, t.width, t.height, x + 2, y - 1))
            + digit(pixel_at(pixels, t.width, t.height, x + 3, y - 1)),
{
    assert(row_number(t, pixels, x - 3, y - 1, 0) == 0);
    assert(row_number(t, pixels, x - 3, y - 1, 1) == 2 * row_number(t, pixels, x - 3, y - 1, 0) + digit(
        pixel_at(pixels, t.width, t.height, x - 3, y - 1),
    ));
    assert(row_number(t, pixels, x - 3, y - 1, 2) == 2 * row_number(t, pixels, x - 3, y - 1, 1) + digit(
        pixel_at(pixels, t.width, t.height, x - 2, y - 1),
    ));
    assert(row_number(t, pixels, x - 3, y - 1, 3) == 2 * row_number(t, pixels, x - 3, y - 1, 2) + digit(
        pixel_at(pixels, t.width, t.height, x - 1, y - 1),
    ));
    assert(row_number(t, pixels, x - 3, y - 1, 4) == 2 * row_number(t, pixels, x - 3, y - 1, 3) + digit(
        pixel_at(pixels, t.width, t.height, x, y - 1),
    ));
    assert(row_number(t, pixels, x - 3, y - 1, 5) == 2 * row_number(t, pixels, x - 3, y - 1, 4) + digit(
        pixel_at(pixels, t.width, t.height, x + 1, y - 1),
    ));
    assert(row_number(t, pixels, x - 3, y - 1, 6) == 2 * row_number(t, pixels, x - 3, y - 1, 5) + digit(
        pixel_at(pixels, t.width, t.height, x + 2, y - 1),
    ));
    assert(row_number(t, pixels, x - 3, y - 1, 7) == 2 * row_number(t, pixels, x - 3, y - 1, 6) + digit(
        pixel_at(pixels, t.width, t.height, x + 3, y - 1),
    ));
}

proof fn lemma_row_left(t: Template, pixels: Seq<bool>, x: int, y: int)
    ensures
        row_number(t, pixels, x - 4, y, 4) == 8 * digit(pixel_at(pixels, t.width, t.height, x - 4, y))
            + 4 * digit(pixel_at(pixels, t.width, t.height, x - 3, y))
            + 2 * digit(pixel_at(pixels, t.width, t.height, x - 2, y))
            + digit(pixel_at(pixels, t.width, t.height, x - 1, y)),
{
    assert(row_number(t, pixels, x - 4, y, 0) == 0);
    assert(row_number(t, pixels, x - 4, y, 1) == 2 * row_number(t, pixels, x - 4, y, 0) + digit(
        pixel_at(pixels, t.width, t.height, x - 4, y),
    ));
    assert(row_number(t, pixels, x - 4, y, 2) == 2 * row_number(t, pixels, x - 4, y, 1) + digit(
        pixel_at(pixels, t.width, t.height, x - 3, y),
    ));
    assert(row_number(t, pixels, x - 4, y, 3) == 2 * row_number(t, pixels, x - 4, y, 2) + digit(
        pixel_at(pixels, t.width, t.height, x - 2, y),
    ));
    assert(row_number(t, pixels, x - 4, y, 4) == 2 * row_number(t, pixels, x - 4, y, 3) + digit(
        pixel_at(pixels, t.width, t.height, x - 1, y),
    ));
}

/// With the adaptive pixels at their nominal places a label has the pixels as binary digits in
/// reading order: five two rows above, seven in the row above, and the four to the left.
#[verifier::rlimit(50)]
pub proof fn lemma_nominal_label(t: Template, pixels: Seq<bool>, x: int, y: int)
    requires
        t.adaptive.len() == 12,
        stands_at(t.adaptive[0], -2, 0),
        stands_at(t.adaptive[1], 0, -2),
        stands_at(t.adaptive[2], -2, -1),
        stands_at(t.adaptive[3], -1, -2),
        stands_at(t.adaptive[4], 1, -2),
        stands_at(t.adaptive[5], 2, -1),
        stands_at(t.adaptive[6], -3, 0),
        stands_at(t.adaptive[7], -4, 0),
        stands_at(t.adaptive[8], 2, -2),
        stands_at(t.adaptive[9], 3, -1),
        stands_at(t.adaptive[10], -2, -2),
        stands_at(t.adaptive[11], -3, -1),
    ensures
        context_label(t, pixels, x, y) == 2048 * row_number(t, pixels, x - 2, y - 2, 5) + 16
            * row_number(t, pixels, x - 3, y - 1, 7) + row_number(t, pixels, x - 4, y, 4),
{
    lemma_row_two_above(t, pixels, x, y);
    lemma_row_above(t, pixels, x, y);
    lemma_row_left(t, pixels, x, y);
    lemma_weight(pixel_at(pixels, t.width, t.height, x - 1, y), 0x1);
    lemma_weight(pixel_at(pixels, t.width, t.height, x - 1, y - 1), 0x100);
    lemma_weight(pixel_at(pixels, t.width, t.height, x, y - 1), 0x80);
    lemma_weight(pixel_at(pixels, t.width, t.height, x + 1, y - 1), 0x40);
    lemma_weight(pixel_at(pixels, t.width, t.height, x - 2, y), 0x2);
    lemma_weight(pixel_at(pixels, t.width, t.height, x, y - 2), 0x2000);
    lemma_weight(pixel_at(pixels, t.width, t.height, x - 2, y - 1), 0x200);
    lemma_weight(pixel_at(pixels, t.width, t.height, x - 1, y - 2), 0x4000);
    lemma_weight(pixel_at(pixels, t.width, t.height, x + 1, y - 2), 0x1000);
    lemma_weight(pixel_at(pixels, t.width, t.height, x + 2, y - 1), 0x20);
    lemma_weight(pixel_at(pixels, t.width, t.height, x - 3, y), 0x4);
    lemma_weight(pixel_at(pixels, t.width, t.height, x - 4, y), 0x8);
    lemma_weight(pixel_at(pixels, t.width, t.height, x + 2, y - 2), 0x800);
    lemma_weight(pixel_at(pixels, t.width, t.height, x + 3, y - 1), 0x10);
    lemma_weight(pixel_at(pixels, t.width, t.height, x - 2, y - 2), 0x8000);
    lemma_weight(pixel_at(pixels, t.width, t.height, x - 3, y - 1), 0x400);
}

/// Decoding a pixel changes that pixel only, which becomes black if its bit is set, and the state
/// of its own label only.
pub proof fn lemma_pixel_decoded(data: Seq<u8>, t: Template, w: Work, x: int, y: int)
    requires
        0 <= x < t.width,
        0 <= y < t.height,
        w.pixels.len() == t.width * t.height,
        0 <= context_label(t, w.pixels, x, y) < w.contexts.len(),
    ensures
        ({
            let label = context_label(t, w.pixels, x, y);
            let decision = decide(data, w.registers, w.contexts[label]);
            let after = decode_pixel(data, t, w, x, y);
            &&& after.registers == decision.registers
            &&& after.contexts.len() == w.contexts.len()
            &&& after.contexts[label] == decision.context
            &&& forall|i: int|
                0 <= i < w.contexts.len() && i != label ==> #[trigger] after.contexts[i]
                    == w.contexts[i]
            &&& after.pixels.len() == w.pixels.len()
            &&& pixel_at(after.pixels, t.width, t.height, x, y) == (decision.bit || pixel_at(
                w.pixels,
                t.width,
                t.height,
                x,
                y,
            ))
            &&& forall|u: int, v: int|
                (u != x || v != y) ==> #[trigger] pixel_at(after.pixels, t.width, t.height, u, v)
                    == pixel_at(w.pixels, t.width, t.height, u, v)
        }),
{
    lemma_pixel_index(t.width, t.height, x, y);
    let after = decode_pixel(data, t, w, x, y);
    assert forall|u: int, v: int| (u != x || v != y) implies #[trigger] pixel_at(
        after.pixels,
        t.width,
        t.height,
        u,
        v,
    ) == pixel_at(w.pixels, t.width, t.height, u, v) by {
        if 0 <= u < t.width && 0 <= v < t.height {
            lemma_pixel_index(t.width, t.height, u, v);
            if pixel_index(t.width, u, v) == pixel_index(t.width, x, y) {
                crate::jbig2::bitmap::lemma_pixel_index_distinct(t.width, x, y, u, v);
            }
        }
    }
}

/// A row is decoded from its left end to its right end.
pub proof fn lemma_row_decoded(data: Seq<u8>, t: Template, w: Work, x: int, y: int)
    ensures
        x >= t.width ==> decode_row(data, t, w, x, y) == w,
        x < t.width ==> decode_row(data, t, w, x, y) == decode_row(
            data,
            t,
            decode_pixel(data, t, w, x, y),
            x + 1,
            y,
        ),
{
}

/// A copied row has the pixels of the row above it, and no other row changes. The first row has
/// none above it.
pub proof fn lemma_row_copied(width: int, height: int, pixels: Seq<bool>, row: int, x: int, y: int)
    requires
        0 <= x < width,
        0 <= y < height,
        0 <= row < height,
        pixels.len() == width * height,
    ensures
        copy_row(width, pixels, row).len() == pixels.len(),
        pixel_at(copy_row(width, pixels, row), width, height, x, y) == pixel_at(
            pixels,
            width,
            height,
            x,
            if y == row && row > 0 {
                y - 1
            } else {
                y
            },
        ),
{
    lemma_pixel_index(width, height, x, y);
    let i = pixel_index(width, x, y);
    assert((row + 1) * width == row * width + width) by (nonlinear_arith);
    assert((y - 1) * width == y * width - width) by (nonlinear_arith);
    if y < row {
        assert(y * width + width <= row * width) by (nonlinear_arith)
            requires
                y + 1 <= row,
                width >= 0,
        ;
    } else if y > row {
        assert(y * width >= row * width + width) by (nonlinear_arith)
            requires
                y >= row + 1,
                width >= 0,
        ;
    }
}

/// Without prediction every row is decoded from its pixels; with it the bit of a row says whether
/// the row is like the one above exactly if the last one was not.
pub proof fn lemma_rows_decoded(data: Seq<u8>, t: Template, w: Work, typical: bool, y: int)
    requires
        y < t.height,
    ensures
        decode_rows(data, t, false, w, false, y) == decode_rows(
            data,
            t,
            false,
            decode_row(data, t, w, 0, y),
            false,
            y + 1,
        ),
        ({
            let decision = decide(data, w.registers, w.contexts[0x9B25]);
            let read = Work {
                registers: decision.registers,
                contexts: w.contexts.update(0x9B25, decision.context),
                ..w
            };
            let copied = Work { pixels: copy_row(t.width, read.pixels, y), ..read };
            &&& decision.bit != typical ==> decode_rows(data, t, true, w, typical, y)
                == decode_rows(data, t, true, copied, true, y + 1)
            &&& decision.bit == typical ==> decode_rows(data, t, true, w, typical, y)
                == decode_rows(data, t, true, decode_row(data, t, read, 0, y), false, y + 1)
        }),
        decode_rows(data, t, true, w, typical, t.height) == w,
{
}

/// The rows of the probability estimation: a more probable symbol lowers the estimate or keeps it,
/// a less probable one raises it or keeps it. The sense of the symbols is exchanged only where
/// both are nearly as probable.
pub proof fn lemma_estimates(index: u8)
    requires
        index <= 46,
    ensures
        ({
            let row = qe_row(index);
            &&& 1 <= row.qe <= 0x5601
            &&& row.nmps <= 46
            &&& row.nlps <= 46
            &&& qe_row(row.nmps).qe <= row.qe
            &&& index > 0 ==> qe_row(row.nlps).qe >= row.qe
            &&& row.switch <==> index == 0 || index == 6 || index == 14
            &&& row.switch ==> row.qe == 0x5601
            &&& row.nmps == if index == 5 {
                38
            } else if index == 13 {
                29
            } else if index >= 45 {
                index as int
            } else {
                index + 1
            }
            &&& 21 <= index <= 45 ==> row.nlps == index - 2
            &&& 15 <= index <= 20 ==> row.nlps == index - 1
            &&& 14 <= index < 45 ==> qe_row((index + 1) as u8).qe < row.qe
        }),
        qe_row(0).qe == qe_row(14).qe && qe_row(1).qe == qe_row(19).qe && qe_row(2).qe == qe_row(
            25,
        ).qe && qe_row(3).qe == qe_row(30).qe && qe_row(4).qe == qe_row(33).qe && qe_row(5).qe
            == qe_row(36).qe,
        qe_row(6).qe == qe_row(14).qe && qe_row(7).qe == qe_row(15).qe && qe_row(8).qe == qe_row(
            17,
        ).qe && qe_row(9).qe == qe_row(18).qe && qe_row(10).qe == qe_row(20).qe && qe_row(11).qe
            == qe_row(22).qe && qe_row(12).qe == qe_row(24).qe && qe_row(13).qe == qe_row(26).qe,
{
}

/// Registers of a renormalized decoder have a full interval. It is a power of two times what it
/// was.
pub proof fn lemma_renormalized(data: Seq<u8>, r: Registers)
    requires
        0 < r.a <= 0xFFFF,
    ensures
        0x8000 <= renorm(data, r).a <= 0xFFFF,
        r.a >= 0x8000 ==> renorm(data, r) == r,
    decreases 0x1_0000 - r.a,
{
    if r.a < 0x8000 {
        let filled = if r.ct == 0 {
            byte_in(data, r)
        } else {
            r
        };
        lemma_renormalized(
            data,
            Registers {
                c: filled.c << 1,
                a: (2 * r.a) as u32,
                bp: filled.bp,
                ct: (filled.ct - 1) as nat,
            },
        );
    }
}

/// The more probable symbol has the greater part of the interval: a bit is the more probable one
/// exactly if the code lies in that part. The interval is full afterwards.
pub proof fn lemma_decided(data: Seq<u8>, r: Registers, context: ArithmeticDecoderContext)
    requires
        0x8000 <= r.a <= 0xFFFF,
        context.index <= 46,
    ensures
        ({
            let qe = qe_row(context.index).qe;
            let upper = (r.c >> 16) >= qe;
            let upper_greater = r.a - qe >= qe;
            let decision = decide(data, r, context);
            &&& decision.bit == context.mps <==> (upper == upper_greater)
            &&& decision.bit != context.mps ==> decision.context.index == qe_row(
                context.index,
            ).nlps && (decision.context.mps != context.mps <==> qe_row(context.index).switch)
            &&& decision.bit == context.mps ==> decision.context.mps == context.mps && (
            decision.context.index == qe_row(context.index).nmps || decision.context.index
                == context.index)
            &&& decision.context == context ==> decision.bit == context.mps || qe_row(
                context.index,
            ).nlps == context.index
            &&& 0x8000 <= decision.registers.a <= 0xFFFF
            &&& upper && r.a - qe >= 0x8000 ==> decision.context == context
                && decision.registers.bp == r.bp && decision.registers.ct == r.ct
                && decision.registers.a == r.a - qe
        }),
{
    lemma_estimates(context.index);
    let qe = qe_row(context.index).qe;
    lemma_renormalized(data, Registers { a: qe, ..r });
    let lowered = Registers { c: r.c.wrapping_sub(qe << 16), a: (r.a - qe) as u32, ..r };
    lemma_renormalized(data, lowered);
}

/// Coded data goes on with set bits. A byte behind a byte of set bits that is a marker is never
/// taken, and one that is none gives seven bits.
pub proof fn lemma_byte_taken(data: Seq<u8>, r: Registers)
    ensures
        forall|at: nat| at >= data.len() ==> #[trigger] coded_byte(data, at) == 0xFF,
        forall|at: nat|
            at < data.len() ==> #[trigger] coded_byte(data, at) == data[at as int],
        coded_byte(data, r.bp) == 0xFF && coded_byte(data, r.bp + 1) > 0x8F ==> byte_in(
            data,
            r,
        ).bp == r.bp && byte_in(data, r).ct == 8,
        coded_byte(data, r.bp) == 0xFF && coded_byte(data, r.bp + 1) <= 0x8F ==> byte_in(
            data,
            r,
        ).bp == r.bp + 1 && byte_in(data, r).ct == 7,
        coded_byte(data, r.bp) != 0xFF ==> byte_in(data, r).bp == r.bp + 1 && byte_in(
            data,
            r,
        ).ct == 8,
        byte_in(data, r).a == r.a,
        init_dec(data).a == 0x8000,
        init_dec(data).ct <= 1,
{
}

/// A pixel of a region refines the one of the reference that lies under it. The labels of the
/// first template use the adaptive pixels, those of the second the corner of the region.
pub proof fn lemma_refined(
    g: RefinementContextGatherer,
    region: Bitmap,
    reference: Bitmap,
    x: int,
)
    ensures
        g.reference_x(x) + g.reference_dx == x,
        g.reference_y() + g.reference_dy == g.y,
        ({
            let y = g.y as int;
            let rx = x - g.reference_dx;
            let ry = y - g.reference_dy;
            let around = neighborhood(reference, rx, ry);
            let above = region.pixel(x, y - 1);
            let above_right = region.pixel(x + 1, y - 1);
            let left = region.pixel(x - 1, y);
            &&& g.template0(region, reference, x) == template0_label(
                Decoded {
                    corner: region.pixel(x + g.target_pixel.x, y + g.target_pixel.y),
                    above,
                    above_right,
                    left,
                },
                reference.pixel(rx + g.reference_pixel.x, ry + g.reference_pixel.y),
                around,
            )
            &&& g.template1(region, reference, x) == template1_label(
                Decoded { corner: region.pixel(x - 1, y - 1), above, above_right, left },
                around,
            )
            &&& g.ready(region, reference, x) <==> g.left == left && g.around == around
        }),
{
}

/// A bitmap that was created has the given size and place, and one value everywhere. It is refused
/// only if a side is too long.
pub proof fn lemma_created(
    width: u32,
    height: u32,
    x_location: u32,
    y_location: u32,
    default_pixel: bool,
    result: Result<Bitmap, DecodeError>,
    i: int,
)
    requires
        Bitmap::created(width, height, x_location, y_location, default_pixel, result),
    ensures
        result is Ok <==> width <= 65535 && height <= 65535,
        result matches Err(error) ==> error == DecodeError::Overflow(
            OverflowError::BitmapDimension,
        ),
        result matches Ok(bitmap) ==> {
            &&& bitmap.width == width && bitmap.height == height
            &&& bitmap.x_location == x_location && bitmap.y_location == y_location
            &&& bitmap.data@.len() == width * height
            &&& 0 <= i < width * height ==> bitmap.data@[i] == default_pixel
        },
{
}

} // verus!
