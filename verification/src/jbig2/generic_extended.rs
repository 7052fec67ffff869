//! Generic template 0 with twelve adaptive pixels (T.88 Amendment 2).

use crate::jbig2::arithmetic_decoder::{
    decide, ArithmeticDecoder, ArithmeticDecoderContext, Registers,
};
use crate::jbig2::bitmap::{pixel_at, pixel_index, Bitmap};
use vstd::prelude::*;

verus! {

/// A pixel of an adaptive template, relative to the pixel that is decoded. (6.2.5.4)
#[derive(Debug, Clone, Copy, PartialEq, Eq, Structural)]
pub struct AdaptiveTemplatePixel {
    pub x: i8,
    pub y: i8,
}

/// The context label of the typical prediction bit (Figure 8).
pub const TYPICAL_CONTEXT: usize = 0x9B25;

/// The number of context labels.
pub const CONTEXT_COUNT: usize = 0x1_0000;

/// What decoding has produced so far.
pub struct Work {
    pub registers: Registers,
    pub contexts: Seq<ArithmeticDecoderContext>,
    pub pixels: Seq<bool>,
}

/// A region of adaptive template pixels.
pub struct Template {
    pub width: int,
    pub height: int,
    pub adaptive: Seq<AdaptiveTemplatePixel>,
}

/// The weight that the pixel at (x, y) adds to a context label.
pub open spec fn sample(t: Template, pixels: Seq<bool>, x: int, y: int, weight: int) -> int {
    weight_of(pixel_at(pixels, t.width, t.height, x, y), weight)
}

/// The weight of a black pixel.
#[verifier::opaque]
pub open spec fn weight_of(black: bool, weight: int) -> int {
    if black {
        weight
    } else {
        0
    }
}

/// The weight of an adaptive pixel.
pub open spec fn adaptive(
    t: Template,
    pixels: Seq<bool>,
    x: int,
    y: int,
    i: int,
    weight: int,
) -> int {
    sample(t, pixels, x + t.adaptive[i].x, y + t.adaptive[i].y, weight)
}

/// The context label of the pixel at (x, y).
///
/// The bits stand in reading order at the nominal positions of Amendment 2 Figure 3(b). Four
/// pixels are fixed: (-1, 0), (-1, -1), (0, -1) and (1, -1).
pub open spec fn context_label(t: Template, pixels: Seq<bool>, x: int, y: int) -> int {
    sample(t, pixels, x - 1, y, 0x1) + sample(t, pixels, x - 1, y - 1, 0x100) + sample(
        t,
        pixels,
        x,
        y - 1,
        0x80,
    ) + sample(t, pixels, x + 1, y - 1, 0x40) + adaptive(t, pixels, x, y, 0, 0x2) + adaptive(
        t,
        pixels,
        x,
        y,
        1,
        0x2000,
    ) + adaptive(t, pixels, x, y, 2, 0x200) + adaptive(t, pixels, x, y, 3, 0x4000) + adaptive(
        t,
        pixels,
        x,
        y,
        4,
        0x1000,
    ) + adaptive(t, pixels, x, y, 5, 0x20) + adaptive(t, pixels, x, y, 6, 0x4) + adaptive(
        t,
        pixels,
        x,
        y,
        7,
        0x8,
    ) + adaptive(t, pixels, x, y, 8, 0x800) + adaptive(t, pixels, x, y, 9, 0x10) + adaptive(
        t,
        pixels,
        x,
        y,
        10,
        0x8000,
    ) + adaptive(t, pixels, x, y, 11, 0x400)
}

/// The pixel at (x, y) is decoded and, if it is black, drawn.
pub open spec fn decode_pixel(data: Seq<u8>, t: Template, w: Work, x: int, y: int) -> Work {
    let label = context_label(t, w.pixels, x, y);
    let decision = decide(data, w.registers, w.contexts[label]);
    Work {
        registers: decision.registers,
        contexts: w.contexts.update(label, decision.context),
        pixels: if decision.bit {
            w.pixels.update(pixel_index(t.width, x, y), true)
        } else {
            w.pixels
        },
    }
}

/// The pixels of a row from `x` on are decoded.
pub open spec fn decode_row(data: Seq<u8>, t: Template, w: Work, x: int, y: int) -> Work
    decreases t.width - x,
{
    if x >= t.width {
        w
    } else {
        decode_row(data, t, decode_pixel(data, t, w, x, y), x + 1, y)
    }
}

/// A row becomes a copy of the row above it; the first row stays as it is.
pub open spec fn copy_row(width: int, pixels: Seq<bool>, y: int) -> Seq<bool> {
    if y == 0 {
        pixels
    } else {
        Seq::new(
            pixels.len(),
            |i: int|
                if y * width <= i < (y + 1) * width {
                    pixels[i - width]
                } else {
                    pixels[i]
                },
        )
    }
}

/// The rows from `y` on are decoded.
pub open spec fn decode_rows(
    data: Seq<u8>,
    t: Template,
    typical_prediction: bool,
    w: Work,
    typical: bool,
    y: int,
) -> Work
    decreases t.height - y,
{
    if y >= t.height {
        w
    } else {
        let decision = decide(data, w.registers, w.contexts[TYPICAL_CONTEXT as int]);
        let toggled = if typical_prediction {
            Work {
                registers: decision.registers,
                contexts: w.contexts.update(TYPICAL_CONTEXT as int, decision.context),
                ..w
            }
        } else {
            w
        };
        let same = typical != (typical_prediction && decision.bit);
        let drawn = if same {
            Work { pixels: copy_row(t.width, toggled.pixels, y), ..toggled }
        } else {
            decode_row(data, t, toggled, 0, y)
        };
        decode_rows(data, t, typical_prediction, drawn, same, y + 1)
    }
}

/// The weight of a pixel relative to (x, y).
fn weigh(bitmap: &Bitmap, x: u32, y: u32, dx: i8, dy: i8, weight: usize) -> (value: usize)
    requires
        bitmap.wf(),
        x < bitmap.width,
        y < bitmap.height,
    ensures
        value == weight_of(bitmap.pixel(x + dx, y + dy), weight as int),
        value == 0 || value == weight,
{
    reveal(weight_of);
    let u: i32 = x as i32 + dx as i32;
    let v: i32 = y as i32 + dy as i32;
    if u < 0 || v < 0 {
        return 0;
    }
    if bitmap.is_black(u as u32, v as u32) {
        weight
    } else {
        0
    }
}

/// The context label of the pixel at (x, y).
fn gather(bitmap: &Bitmap, x: u32, y: u32, pixels: &[AdaptiveTemplatePixel; 12]) -> (label: usize)
    requires
        bitmap.wf(),
        x < bitmap.width,
        y < bitmap.height,
    ensures
        label == context_label(
            Template {
                width: bitmap.width as int,
                height: bitmap.height as int,
                adaptive: pixels@,
            },
            bitmap.data@,
            x as int,
            y as int,
        ),
        label < CONTEXT_COUNT,
{
    let fixed: usize = weigh(bitmap, x, y, -1, 0, 0x1) + weigh(bitmap, x, y, -1, -1, 0x100) + weigh(
        bitmap,
        x,
        y,
        0,
        -1,
        0x80,
    ) + weigh(bitmap, x, y, 1, -1, 0x40);
    let low: usize = weigh(bitmap, x, y, pixels[0].x, pixels[0].y, 0x2) + weigh(
        bitmap,
        x,
        y,
        pixels[1].x,
        pixels[1].y,
        0x2000,
    ) + weigh(bitmap, x, y, pixels[2].x, pixels[2].y, 0x200) + weigh(
        bitmap,
        x,
        y,
        pixels[3].x,
        pixels[3].y,
        0x4000,
    ) + weigh(bitmap, x, y, pixels[4].x, pixels[4].y, 0x1000) + weigh(
        bitmap,
        x,
        y,
        pixels[5].x,
        pixels[5].y,
        0x20,
    );
    let high: usize = weigh(bitmap, x, y, pixels[6].x, pixels[6].y, 0x4) + weigh(
        bitmap,
        x,
        y,
        pixels[7].x,
        pixels[7].y,
        0x8,
    ) + weigh(bitmap, x, y, pixels[8].x, pixels[8].y, 0x800) + weigh(
        bitmap,
        x,
        y,
        pixels[9].x,
        pixels[9].y,
        0x10,
    ) + weigh(bitmap, x, y, pixels[10].x, pixels[10].y, 0x8000) + weigh(
        bitmap,
        x,
        y,
        pixels[11].x,
        pixels[11].y,
        0x400,
    );
    fixed + low + high
}

/// Copy the row above into a row.
fn repeat_row(bitmap: &mut Bitmap, y: u32)
    requires
        old(bitmap).wf(),
        y < old(bitmap).height,
    ensures
        final(bitmap).wf(),
        final(bitmap).width == old(bitmap).width,
        final(bitmap).height == old(bitmap).height,
        final(bitmap).x_location == old(bitmap).x_location,
        final(bitmap).y_location == old(bitmap).y_location,
        final(bitmap).data@ == copy_row(old(bitmap).width as int, old(bitmap).data@, y as int),
{
    if y == 0 {
        return;
    }
    let width: usize = bitmap.width as usize;
    let ghost start = y * width;
    proof {
        let h = bitmap.height as int;
        assert(start == y * width);
        assert((y + 1) * width == start + width) by (nonlinear_arith)
            requires
                start == y * width,
        ;
        assert(start + width <= h * width) by (nonlinear_arith)
            requires
                start == y * width,
                y + 1 <= h,
        ;
        assert(h * width == width * h) by (nonlinear_arith);
        assert(start >= width) by (nonlinear_arith)
            requires
                start == y * width,
                y >= 1,
        ;
        assert(start <= 65534 * 65535) by (nonlinear_arith)
            requires
                start == y * width,
                0 <= y <= 65534,
                0 <= width <= 65535,
        ;
    }
    let from: usize = y as usize * width;
    let mut x: usize = 0;
    while x < width
        invariant
            x <= width,
            width == bitmap.width,
            from == start,
            start >= width,
            start + width <= bitmap.data@.len(),
            bitmap.width == old(bitmap).width,
            bitmap.height == old(bitmap).height,
            bitmap.x_location == old(bitmap).x_location,
            bitmap.y_location == old(bitmap).y_location,
            bitmap.data@.len() == old(bitmap).data@.len(),
            old(bitmap).wf(),
            width <= 65535,
            start <= 65535 * 65535 - 65535,
            forall|i: int|
                0 <= i < bitmap.data@.len() ==> #[trigger] bitmap.data@[i] == (if start <= i < start
                    + x {
                    old(bitmap).data@[i - width]
                } else {
                    old(bitmap).data@[i]
                }),
        decreases width - x,
    {
        let above: bool = bitmap.data[from + x - width];
        bitmap.data[from + x] = above;
        x = x + 1;
    }
    proof {
        assert((y + 1) * width == start + width) by (nonlinear_arith)
            requires
                start == y * width,
        ;
        assert(bitmap.data@ =~= copy_row(old(bitmap).width as int, old(bitmap).data@, y as int));
    }
}

/// Decode a row of pixels.
fn draw_row(
    bitmap: &mut Bitmap,
    decoder: &mut ArithmeticDecoder<'_>,
    contexts: &mut Vec<ArithmeticDecoderContext>,
    pixels: &[AdaptiveTemplatePixel; 12],
    y: u32,
)
    requires
        old(bitmap).wf(),
        y < old(bitmap).height,
        old(contexts)@.len() == CONTEXT_COUNT,
    ensures
        final(bitmap).wf(),
        final(bitmap).width == old(bitmap).width,
        final(bitmap).height == old(bitmap).height,
        final(bitmap).x_location == old(bitmap).x_location,
        final(bitmap).y_location == old(bitmap).y_location,
        final(contexts)@.len() == CONTEXT_COUNT,
        final(decoder).data() == old(decoder).data(),
        (Work {
            registers: final(decoder).registers(),
            contexts: final(contexts)@,
            pixels: final(bitmap).data@,
        }) == decode_row(
            old(decoder).data(),
            Template {
                width: old(bitmap).width as int,
                height: old(bitmap).height as int,
                adaptive: pixels@,
            },
            Work {
                registers: old(decoder).registers(),
                contexts: old(contexts)@,
                pixels: old(bitmap).data@,
            },
            0,
            y as int,
        ),
{
    let ghost t = Template {
        width: bitmap.width as int,
        height: bitmap.height as int,
        adaptive: pixels@,
    };
    let ghost start = Work {
        registers: decoder.registers(),
        contexts: contexts@,
        pixels: bitmap.data@,
    };
    let mut x: u32 = 0;
    while x < bitmap.width
        invariant
            x <= bitmap.width,
            y < bitmap.height,
            bitmap.wf(),
            t == (Template {
                width: bitmap.width as int,
                height: bitmap.height as int,
                adaptive: pixels@,
            }),
            bitmap.width == old(bitmap).width,
            bitmap.height == old(bitmap).height,
            bitmap.x_location == old(bitmap).x_location,
            bitmap.y_location == old(bitmap).y_location,
            contexts@.len() == CONTEXT_COUNT,
            decoder.data() == old(decoder).data(),
            decode_row(decoder.data(), t, start, 0, y as int) == decode_row(
                decoder.data(),
                t,
                Work {
                    registers: decoder.registers(),
                    contexts: contexts@,
                    pixels: bitmap.data@,
                },
                x as int,
                y as int,
            ),
        decreases bitmap.width - x,
    {
        let label: usize = gather(bitmap, x, y, pixels);
        let mut context = contexts[label];
        let pixel: u32 = decoder.read_bit(&mut context);
        contexts.set(label, context);
        if pixel != 0 {
            bitmap.set_pixel(x, y, 1);
        }
        x = x + 1;
    }
}

/// Decode a region with the extended template.
pub fn decode(
    bitmap: &mut Bitmap,
    decoder: &mut ArithmeticDecoder<'_>,
    contexts: &mut Vec<ArithmeticDecoderContext>,
    typical_prediction: bool,
    pixels: &[AdaptiveTemplatePixel; 12],
)
    requires
        old(bitmap).wf(),
        old(contexts)@.len() == CONTEXT_COUNT,
    ensures
        final(bitmap).wf(),
        final(bitmap).width == old(bitmap).width,
        final(bitmap).height == old(bitmap).height,
        final(bitmap).x_location == old(bitmap).x_location,
        final(bitmap).y_location == old(bitmap).y_location,
        final(contexts)@.len() == CONTEXT_COUNT,
        final(decoder).data() == old(decoder).data(),
        (Work {
            registers: final(decoder).registers(),
            contexts: final(contexts)@,
            pixels: final(bitmap).data@,
        }) == decode_rows(
            old(decoder).data(),
            Template {
                width: old(bitmap).width as int,
                height: old(bitmap).height as int,
                adaptive: pixels@,
            },
            typical_prediction,
            Work {
                registers: old(decoder).registers(),
                contexts: old(contexts)@,
                pixels: old(bitmap).data@,
            },
            false,
            0,
        ),
{
    let ghost t = Template {
        width: bitmap.width as int,
        height: bitmap.height as int,
        adaptive: pixels@,
    };
    let ghost start = Work {
        registers: decoder.registers(),
        contexts: contexts@,
        pixels: bitmap.data@,
    };
    let mut typical = false;
    let mut y: u32 = 0;
    while y < bitmap.height
        invariant
            y <= bitmap.height,
            bitmap.wf(),
            t == (Template {
                width: bitmap.width as int,
                height: bitmap.height as int,
                adaptive: pixels@,
            }),
            bitmap.width == old(bitmap).width,
            bitmap.height == old(bitmap).height,
            bitmap.x_location == old(bitmap).x_location,
            bitmap.y_location == old(bitmap).y_location,
            contexts@.len() == CONTEXT_COUNT,
            decoder.data() == old(decoder).data(),
            decode_rows(decoder.data(), t, typical_prediction, start, false, 0) == decode_rows(
                decoder.data(),
                t,
                typical_prediction,
                Work {
                    registers: decoder.registers(),
                    contexts: contexts@,
                    pixels: bitmap.data@,
                },
                typical,
                y as int,
            ),
        decreases bitmap.height - y,
    {
        if typical_prediction {
            let mut context = contexts[TYPICAL_CONTEXT];
            let bit: u32 = decoder.read_bit(&mut context);
            contexts.set(TYPICAL_CONTEXT, context);
            typical = typical != (bit != 0);
        }
        if typical {
            repeat_row(bitmap, y);
        } else {
            draw_row(bitmap, decoder, contexts, pixels, y);
        }
        y = y + 1;
    }
}

/// A pixel above the current row, or to its left, takes part in a context label; a label that
/// only uses such pixels does not depend on what is still to be decoded.
pub proof fn lemma_context_label_causal(t: Template, a: Seq<bool>, b: Seq<bool>, x: int, y: int)
    requires
        t.adaptive.len() == 12,
        forall|i: int|
            #![trigger t.adaptive[i]]
            0 <= i < 12 ==> t.adaptive[i].y < 0 || (t.adaptive[i].y == 0 && t.adaptive[i].x < 0),
        forall|u: int, v: int|
            (v < y || (v == y && u < x)) ==> #[trigger] pixel_at(a, t.width, t.height, u, v)
                == pixel_at(b, t.width, t.height, u, v),
    ensures
        context_label(t, a, x, y) == context_label(t, b, x, y),
{
    assert forall|i: int, weight: int| 0 <= i < 12 implies #[trigger] adaptive(
        t,
        a,
        x,
        y,
        i,
        weight,
    ) == adaptive(t, b, x, y, i, weight) by {
        let p = t.adaptive[i];
    }
}

} // verus!
