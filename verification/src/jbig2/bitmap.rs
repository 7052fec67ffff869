//! Bitmap representation for JBIG2 decoding.

use crate::jbig2::error::{DecodeError, OverflowError, Result};
use crate::jbig2::region::CombinationOperator;
use vstd::prelude::*;

verus! {

/// The largest width and height of a bitmap.
pub const MAX_DIMENSION: u32 = 65535;

/// A decoded bitmap with position information.
#[derive(Debug, Clone)]
pub struct Bitmap {
    /// Width in pixels.
    pub width: u32,
    /// Height in pixels.
    pub height: u32,
    /// One entry per pixel, row by row.
    pub data: Vec<bool>,
    /// The horizontal offset in pixels relative to the page bitmap. (7.4.1.3)
    pub x_location: u32,
    /// The vertical offset in pixels relative to the page bitmap. (7.4.1.4)
    pub y_location: u32,
}

/// The place of a pixel in a bitmap of the given width.
pub open spec fn pixel_index(width: int, x: int, y: int) -> int {
    y * width + x
}

/// A pixel of a bitmap; all pixels outside of it are white.
pub open spec fn pixel_at(data: Seq<bool>, width: int, height: int, x: int, y: int) -> bool {
    0 <= x < width && 0 <= y < height && data[pixel_index(width, x, y)]
}

/// What an operator makes of a page pixel and a region pixel.
pub open spec fn combined(operator: CombinationOperator, page: bool, region: bool) -> bool {
    match operator {
        CombinationOperator::Or => page || region,
        CombinationOperator::And => page && region,
        CombinationOperator::Xor => page != region,
        CombinationOperator::Xnor => page == region,
        CombinationOperator::Replace => region,
    }
}

pub proof fn lemma_pixel_index(width: int, height: int, x: int, y: int)
    requires
        0 <= x < width,
        0 <= y < height,
    ensures
        0 <= pixel_index(width, x, y) < width * height,
        pixel_index(width, x, y) / width == y,
        pixel_index(width, x, y) % width == x,
{
    assert(0 <= y * width + x < width * height) by (nonlinear_arith)
        requires
            0 <= x < width,
            0 <= y < height,
    ;
    vstd::arithmetic::div_mod::lemma_fundamental_div_mod_converse(y * width + x, width, y, x);
}

/// Different pixels have different places.
pub proof fn lemma_pixel_index_distinct(width: int, x: int, y: int, u: int, v: int)
    requires
        0 <= x < width,
        0 <= u < width,
        0 <= y,
        0 <= v,
        pixel_index(width, x, y) == pixel_index(width, u, v),
    ensures
        x == u,
        y == v,
{
    lemma_pixel_index(width, y + 1, x, y);
    lemma_pixel_index(width, v + 1, u, v);
}

impl Bitmap {
    /// The size is within bounds and every pixel has its entry.
    pub open spec fn wf(&self) -> bool {
        &&& self.width <= MAX_DIMENSION
        &&& self.height <= MAX_DIMENSION
        &&& self.data@.len() == self.width * self.height
    }

    /// The pixel at a position; all pixels outside of the bitmap are white.
    pub open spec fn pixel(&self, x: int, y: int) -> bool {
        pixel_at(self.data@, self.width as int, self.height as int, x, y)
    }

    /// Create a new bitmap of white pixels at the origin.
    pub fn new(width: u32, height: u32) -> (result: Result<Self>)
        ensures
            Bitmap::created(width, height, 0, 0, false, result),
    {
        Self::new_with(width, height, 0, 0, false)
    }

    /// What creating a bitmap gives.
    pub open spec fn created(
        width: u32,
        height: u32,
        x_location: u32,
        y_location: u32,
        default_pixel: bool,
        result: Result<Self>,
    ) -> bool {
        if width > MAX_DIMENSION || height > MAX_DIMENSION {
            result == Err::<Self, DecodeError>(
                DecodeError::Overflow(OverflowError::BitmapDimension),
            )
        } else {
            &&& result matches Ok(bitmap)
            &&& bitmap.wf()
            &&& bitmap.width == width && bitmap.height == height
            &&& bitmap.x_location == x_location && bitmap.y_location == y_location
            &&& forall|i: int| 0 <= i < bitmap.data@.len() ==> bitmap.data@[i] == default_pixel
        }
    }

    /// Create a new bitmap with full configuration.
    pub fn new_with(
        width: u32,
        height: u32,
        x_location: u32,
        y_location: u32,
        default_pixel: bool,
    ) -> (result: Result<Self>)
        ensures
            Bitmap::created(width, height, x_location, y_location, default_pixel, result),
    {
        if width > MAX_DIMENSION || height > MAX_DIMENSION {
            return Err(DecodeError::Overflow(OverflowError::BitmapDimension));
        }
        assert(width * height <= 65535 * 65535) by (nonlinear_arith)
            requires
                width <= 65535,
                height <= 65535,
        ;
        let count: u32 = width * height;
        let mut data: Vec<bool> = Vec::new();
        let mut i: u32 = 0;
        while i < count
            invariant
                i <= count,
                data@.len() == i,
                forall|k: int| 0 <= k < i ==> data@[k] == default_pixel,
            decreases count - i,
        {
            data.push(default_pixel);
            i = i + 1;
        }
        Ok(Bitmap { width, height, data, x_location, y_location })
    }

    /// Whether the pixel at a position is black.
    pub fn is_black(&self, x: u32, y: u32) -> (black: bool)
        requires
            self.wf(),
        ensures
            black == self.pixel(x as int, y as int),
    {
        if x >= self.width || y >= self.height {
            return false;
        }
        proof {
            lemma_pixel_index(self.width as int, self.height as int, x as int, y as int);
            assert(y * self.width <= 65535 * 65535) by (nonlinear_arith)
                requires
                    y <= 65535,
                    self.width <= 65535,
            ;
        }
        self.data[y as usize * self.width as usize + x as usize]
    }

    /// Get a pixel value at (x, y).
    pub fn get_pixel(&self, x: u32, y: u32) -> (value: u8)
        requires
            self.wf(),
        ensures
            value == if self.pixel(x as int, y as int) { 1u8 } else { 0u8 },
    {
        if self.is_black(x, y) {
            1
        } else {
            0
        }
    }

    /// Blacken the pixel at (x, y) if the value is not zero.
    pub fn set_pixel(&mut self, x: u32, y: u32, value: u8)
        requires
            old(self).wf(),
        ensures
            final(self).wf(),
            final(self).width == old(self).width,
            final(self).height == old(self).height,
            final(self).x_location == old(self).x_location,
            final(self).y_location == old(self).y_location,
            final(self).data@ == if value != 0 && x < old(self).width && y < old(self).height {
                old(self).data@.update(
                    pixel_index(old(self).width as int, x as int, y as int),
                    true,
                )
            } else {
                old(self).data@
            },
    {
        if value == 0 || x >= self.width || y >= self.height {
            return;
        }
        proof {
            lemma_pixel_index(self.width as int, self.height as int, x as int, y as int);
            assert(y * self.width <= 65535 * 65535) by (nonlinear_arith)
                requires
                    y <= 65535,
                    self.width <= 65535,
            ;
        }
        let index: usize = y as usize * self.width as usize + x as usize;
        self.data[index] = true;
    }

    /// A copy of the part of the bitmap at (x, y); what lies outside of the bitmap is white.
    pub fn crop(&self, x: u32, y: u32, width: u32, height: u32) -> (result: Result<Self>)
        requires
            self.wf(),
        ensures
            if width > MAX_DIMENSION || height > MAX_DIMENSION {
                result == Err::<Self, DecodeError>(
                    DecodeError::Overflow(OverflowError::BitmapDimension),
                )
            } else {
                &&& result matches Ok(part)
                &&& part.wf()
                &&& part.width == width && part.height == height
                &&& part.x_location == x && part.y_location == y
                &&& forall|u: int, v: int|
                    0 <= u < width && 0 <= v < height ==> #[trigger] part.pixel(u, v)
                        == self.pixel(x + u, y + v)
            },
    {
        let mut part = match Self::new_with(width, height, x, y, false) {
            Err(error) => {
                return Err(error);
            },
            Ok(part) => part,
        };
        assert forall|i: int, j: int| 0 <= i < width && 0 <= j < height implies !#[trigger] part.pixel(
            i,
            j,
        ) by {
            lemma_pixel_index(width as int, height as int, i, j);
        }
        let mut v: u32 = 0;
        while v < height
            invariant
                v <= height,
                self.wf(),
                part.wf(),
                part.width == width,
                part.height == height,
                part.x_location == x,
                part.y_location == y,
                forall|i: int, j: int|
                    0 <= i < width && 0 <= j < height ==> #[trigger] part.pixel(i, j) == (j < v
                        && self.pixel(x + i, y + j)),
            decreases height - v,
        {
            let mut u: u32 = 0;
            while u < width
                invariant
                    u <= width,
                    v < height,
                    self.wf(),
                    part.wf(),
                    part.width == width,
                    part.height == height,
                    part.x_location == x,
                    part.y_location == y,
                    forall|i: int, j: int|
                        0 <= i < width && 0 <= j < height ==> #[trigger] part.pixel(i, j) == ((j
                            < v || (j == v && i < u)) && self.pixel(x + i, y + j)),
                decreases width - u,
            {
                let black = if u > u32::MAX - x || v > u32::MAX - y {
                    false
                } else {
                    self.is_black(x + u, y + v)
                };
                let ghost before = part;
                part.set_pixel(
                    u,
                    v,
                    if black {
                        1
                    } else {
                        0
                    },
                );
                proof {
                    assert forall|i: int, j: int| 0 <= i < width && 0 <= j < height implies
                        #[trigger] part.pixel(i, j) == (before.pixel(i, j) || (black && i == u && j
                        == v)) by {
                        lemma_pixel_index(width as int, height as int, i, j);
                        if pixel_index(width as int, i, j) == pixel_index(
                            width as int,
                            u as int,
                            v as int,
                        ) {
                            lemma_pixel_index_distinct(width as int, i, j, u as int, v as int);
                        }
                        lemma_pixel_index(width as int, height as int, u as int, v as int);
                    }
                }
                u = u + 1;
            }
            v = v + 1;
        }
        Ok(part)
    }

    /// Combine a region into this bitmap at the region's location.
    ///
    /// Pixels outside of this bitmap are ignored.
    pub fn combine_region(&mut self, region: &Bitmap, operator: CombinationOperator)
        requires
            old(self).wf(),
            region.wf(),
        ensures
            final(self).wf(),
            final(self).width == old(self).width,
            final(self).height == old(self).height,
            final(self).x_location == old(self).x_location,
            final(self).y_location == old(self).y_location,
            forall|x: int, y: int|
                0 <= x < old(self).width && 0 <= y < old(self).height ==> {
                    let u = x - region.x_location;
                    let v = y - region.y_location;
                    #[trigger] final(self).pixel(x, y) == if 0 <= u < region.width && 0 <= v
                        < region.height {
                        combined(operator, old(self).pixel(x, y), region.pixel(u, v))
                    } else {
                        old(self).pixel(x, y)
                    }
                },
    {
        let ghost before = *self;
        let mut y: u32 = 0;
        while y < self.height
            invariant
                y <= self.height,
                before == *old(self),
                before.wf(),
                region.wf(),
                self.wf(),
                self.width == before.width,
                self.height == before.height,
                self.x_location == before.x_location,
                self.y_location == before.y_location,
                forall|i: int, j: int|
                    0 <= i < self.width && 0 <= j < self.height ==> #[trigger] self.pixel(i, j)
                        == (if j < y {
                        Bitmap::combined_pixel(before, *region, operator, i, j)
                    } else {
                        before.pixel(i, j)
                    }),
            decreases self.height - y,
        {
            let mut x: u32 = 0;
            while x < self.width
                invariant
                    x <= self.width,
                    y < self.height,
                    before == *old(self),
                    before.wf(),
                    region.wf(),
                    self.wf(),
                    self.width == before.width,
                    self.height == before.height,
                    self.x_location == before.x_location,
                    self.y_location == before.y_location,
                    forall|i: int, j: int|
                        0 <= i < self.width && 0 <= j < self.height ==> #[trigger] self.pixel(i, j)
                            == (if j < y || (j == y && i < x) {
                            Bitmap::combined_pixel(before, *region, operator, i, j)
                        } else {
                            before.pixel(i, j)
                        }),
                decreases self.width - x,
            {
                let ghost last = *self;
                if x >= region.x_location && y >= region.y_location && x - region.x_location
                    < region.width && y - region.y_location < region.height {
                    let page = self.is_black(x, y);
                    let black = region.is_black(x - region.x_location, y - region.y_location);
                    let value = match operator {
                        CombinationOperator::Or => page || black,
                        CombinationOperator::And => page && black,
                        CombinationOperator::Xor => page != black,
                        CombinationOperator::Xnor => page == black,
                        CombinationOperator::Replace => black,
                    };
                    proof {
                        lemma_pixel_index(self.width as int, self.height as int, x as int, y as int);
                        assert(y * self.width <= 65535 * 65535) by (nonlinear_arith)
                            requires
                                y <= 65535,
                                self.width <= 65535,
                        ;
                    }
                    let index: usize = y as usize * self.width as usize + x as usize;
                    self.data[index] = value;
                    assert(value == Bitmap::combined_pixel(
                        before,
                        *region,
                        operator,
                        x as int,
                        y as int,
                    ));
                }
                proof {
                    assert forall|i: int, j: int|
                        0 <= i < self.width && 0 <= j < self.height && !(i == x && j
                            == y) implies #[trigger] self.pixel(i, j) == last.pixel(i, j) by {
                        lemma_pixel_index(self.width as int, self.height as int, i, j);
                        if pixel_index(self.width as int, i, j) == pixel_index(
                            self.width as int,
                            x as int,
                            y as int,
                        ) {
                            lemma_pixel_index_distinct(self.width as int, i, j, x as int, y as int);
                        }
                    }
                    assert(self.pixel(x as int, y as int) == Bitmap::combined_pixel(
                        before,
                        *region,
                        operator,
                        x as int,
                        y as int,
                    ));
                }
                x = x + 1;
            }
            y = y + 1;
        }
    }

    spec fn combined_pixel(
        page: Bitmap,
        region: Bitmap,
        operator: CombinationOperator,
        x: int,
        y: int,
    ) -> bool {
        let u = x - region.x_location;
        let v = y - region.y_location;
        if 0 <= u < region.width && 0 <= v < region.height {
            combined(operator, page.pixel(x, y), region.pixel(u, v))
        } else {
            page.pixel(x, y)
        }
    }
}

} // verus!
