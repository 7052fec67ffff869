//! Generic refinement regions (6.3, 7.4.7).

use crate::bits::Reader;
use crate::jbig2::bitmap::Bitmap;
use crate::jbig2::error::{
    eof_error, reserved_bits_error, DecodeError, FormatError, ParseError, Result, TemplateError,
};
use crate::jbig2::generic_extended::{weight_of, AdaptiveTemplatePixel};
use crate::jbig2::region::{parse_region_segment_info, region_info_at, RegionSegmentInfo};
use vstd::prelude::*;

verus! {

/// The template of a refinement region (6.3.5.3).
#[derive(Debug, Clone, Copy, PartialEq, Eq, Structural)]
pub enum RefinementTemplate {
    /// Thirteen pixels, two of which are adaptive (Figure 12).
    Template0,
    /// Ten pixels (Figure 13).
    Template1,
}

/// The header of a generic refinement region segment.
#[derive(Debug, Clone, Copy, PartialEq, Eq, Structural)]
pub struct RefinementRegionHeader {
    pub region_info: RegionSegmentInfo,
    /// "Bit 0: GRTEMPLATE." (7.4.7.2)
    pub template: RefinementTemplate,
    /// "Bit 1: TPGRON."
    pub typical_prediction: bool,
    /// The adaptive pixel in the region; its nominal position for template 1.
    pub target_pixel: AdaptiveTemplatePixel,
    /// The adaptive pixel in the reference; its nominal position for template 1.
    pub reference_pixel: AdaptiveTemplatePixel,
}

/// A byte as a signed number.
pub open spec fn signed_byte(byte: u8) -> int {
    if byte < 128 {
        byte as int
    } else {
        byte - 256
    }
}

/// An adaptive pixel that starts at a byte.
pub open spec fn adaptive_at(data: Seq<u8>, at: int) -> AdaptiveTemplatePixel {
    AdaptiveTemplatePixel {
        x: signed_byte(data[at]) as i8,
        y: signed_byte(data[at + 1]) as i8,
    }
}

/// A pixel is decoded before the pixel it is relative to.
pub open spec fn causal(pixel: AdaptiveTemplatePixel) -> bool {
    pixel.y < 0 || (pixel.y == 0 && pixel.x < 0)
}

/// The nominal position of both adaptive pixels.
pub open spec fn nominal() -> AdaptiveTemplatePixel {
    AdaptiveTemplatePixel { x: -1i8, y: -1i8 }
}

/// The segment header that starts at a byte.
pub open spec fn refinement_header_at(data: Seq<u8>, at: int) -> Result<RefinementRegionHeader> {
    match region_info_at(data, at) {
        Err(error) => Err(error),
        Ok(region_info) => {
            if at + 18 > data.len() {
                Err(eof_error())
            } else if data[at + 17] >= 4 {
                Err(reserved_bits_error())
            } else if data[at + 17] % 2 == 1 {
                Ok(
                    RefinementRegionHeader {
                        region_info,
                        template: RefinementTemplate::Template1,
                        typical_prediction: data[at + 17] >= 2,
                        target_pixel: nominal(),
                        reference_pixel: nominal(),
                    },
                )
            } else if at + 22 > data.len() {
                Err(eof_error())
            } else if !causal(adaptive_at(data, at + 18)) {
                Err(DecodeError::Template(TemplateError::InvalidAtPixel))
            } else {
                Ok(
                    RefinementRegionHeader {
                        region_info,
                        template: RefinementTemplate::Template0,
                        typical_prediction: data[at + 17] >= 2,
                        target_pixel: adaptive_at(data, at + 18),
                        reference_pixel: adaptive_at(data, at + 20),
                    },
                )
            }
        },
    }
}

fn to_signed(byte: u8) -> (value: i8)
    ensures
        value == signed_byte(byte),
{
    if byte < 128 {
        byte as i8
    } else {
        (byte as i16 - 256) as i8
    }
}

/// Parse the header of a generic refinement region segment (7.4.7.1).
///
/// The adaptive pixel of the region has to precede the pixel that is decoded; the one of the
/// reference is free.
pub fn parse(reader: &mut Reader<'_>) -> (result: Result<RefinementRegionHeader>)
    requires
        old(reader).aligned(),
    ensures
        final(reader).data() == old(reader).data(),
        result == refinement_header_at(old(reader).data(), old(reader).pos() / 8),
        result matches Ok(header) ==> final(reader).pos() == old(reader).pos() + 8 * (
        if header.template == RefinementTemplate::Template0 {
            22int
        } else {
            18int
        }),
{
    let region_info = match parse_region_segment_info(reader) {
        Err(error) => {
            return Err(error);
        },
        Ok(region_info) => region_info,
    };
    proof {
        use_type_invariant(&*reader);
        reader.lemma_pos();
    }
    let flags: u8 = match reader.read_byte() {
        None => {
            return Err(DecodeError::Parse(ParseError::UnexpectedEof));
        },
        Some(flags) => flags,
    };
    if flags >= 4 {
        return Err(DecodeError::Format(FormatError::ReservedBits));
    }
    let typical_prediction = flags >= 2;
    if flags % 2 == 1 {
        return Ok(
            RefinementRegionHeader {
                region_info,
                template: RefinementTemplate::Template1,
                typical_prediction,
                target_pixel: AdaptiveTemplatePixel { x: -1, y: -1 },
                reference_pixel: AdaptiveTemplatePixel { x: -1, y: -1 },
            },
        );
    }
    if reader.bytes_left() < 4 {
        return Err(DecodeError::Parse(ParseError::UnexpectedEof));
    }
    match (reader.read_byte(), reader.read_byte(), reader.read_byte(), reader.read_byte()) {
        (Some(target_x), Some(target_y), Some(reference_x), Some(reference_y)) => {
            let target_pixel = AdaptiveTemplatePixel {
                x: to_signed(target_x),
                y: to_signed(target_y),
            };
            if !(target_pixel.y < 0 || (target_pixel.y == 0 && target_pixel.x < 0)) {
                return Err(DecodeError::Template(TemplateError::InvalidAtPixel));
            }
            Ok(
                RefinementRegionHeader {
                    region_info,
                    template: RefinementTemplate::Template0,
                    typical_prediction,
                    target_pixel,
                    reference_pixel: AdaptiveTemplatePixel {
                        x: to_signed(reference_x),
                        y: to_signed(reference_y),
                    },
                },
            )
        },
        _ => Err(DecodeError::Parse(ParseError::UnexpectedEof)),
    }
}

/// The reference pixels around a position, row by row.
#[derive(Debug, Clone, Copy, PartialEq, Eq, Structural)]
pub struct Neighborhood {
    pub top_left: bool,
    pub top: bool,
    pub top_right: bool,
    pub left: bool,
    pub center: bool,
    pub right: bool,
    pub bottom_left: bool,
    pub bottom: bool,
    pub bottom_right: bool,
}

/// The pixels around a position of a bitmap.
pub open spec fn neighborhood(bitmap: Bitmap, x: int, y: int) -> Neighborhood {
    Neighborhood {
        top_left: bitmap.pixel(x - 1, y - 1),
        top: bitmap.pixel(x, y - 1),
        top_right: bitmap.pixel(x + 1, y - 1),
        left: bitmap.pixel(x - 1, y),
        center: bitmap.pixel(x, y),
        right: bitmap.pixel(x + 1, y),
        bottom_left: bitmap.pixel(x - 1, y + 1),
        bottom: bitmap.pixel(x, y + 1),
        bottom_right: bitmap.pixel(x + 1, y + 1),
    }
}

/// Whether nine pixels have one value.
pub open spec fn uniform(bitmap: Bitmap, x: int, y: int) -> bool {
    forall|dx: int, dy: int|
        -1 <= dx <= 1 && -1 <= dy <= 1 ==> #[trigger] bitmap.pixel(x + dx, y + dy) == bitmap.pixel(
            x,
            y,
        )
}

/// The pixels of the region that a label depends on.
#[derive(Debug, Clone, Copy, PartialEq, Eq, Structural)]
pub struct Decoded {
    /// The adaptive pixel; in template 1 the pixel above to the left.
    pub corner: bool,
    pub above: bool,
    pub above_right: bool,
    pub left: bool,
}

/// A template 0 label, its bits in reading order (Figure 12).
pub open spec fn template0_label(region: Decoded, adaptive: bool, around: Neighborhood) -> int {
    weight_of(region.corner, 0x1000) + weight_of(region.above, 0x800) + weight_of(
        region.above_right,
        0x400,
    ) + weight_of(region.left, 0x200) + weight_of(adaptive, 0x100) + weight_of(around.top, 0x80)
        + weight_of(around.top_right, 0x40) + weight_of(around.left, 0x20) + weight_of(
        around.center,
        0x10,
    ) + weight_of(around.right, 0x8) + weight_of(around.bottom_left, 0x4) + weight_of(
        around.bottom,
        0x2,
    ) + weight_of(around.bottom_right, 0x1)
}

/// A template 1 label, its bits in reading order (Figure 13).
pub open spec fn template1_label(region: Decoded, around: Neighborhood) -> int {
    weight_of(region.corner, 0x200) + weight_of(region.above, 0x100) + weight_of(
        region.above_right,
        0x80,
    ) + weight_of(region.left, 0x40) + weight_of(around.top, 0x20) + weight_of(around.left, 0x10)
        + weight_of(around.center, 0x8) + weight_of(around.right, 0x4) + weight_of(
        around.bottom,
        0x2,
    ) + weight_of(around.bottom_right, 0x1)
}

fn join_template0(region: Decoded, adaptive: bool, around: Neighborhood) -> (label: u16)
    ensures
        label == template0_label(region, adaptive, around),
{
    weigh(region.corner, 0x1000) + weigh(region.above, 0x800) + weigh(region.above_right, 0x400)
        + weigh(region.left, 0x200) + weigh(adaptive, 0x100) + weigh(around.top, 0x80) + weigh(
        around.top_right,
        0x40,
    ) + weigh(around.left, 0x20) + weigh(around.center, 0x10) + weigh(around.right, 0x8) + weigh(
        around.bottom_left,
        0x4,
    ) + weigh(around.bottom, 0x2) + weigh(around.bottom_right, 0x1)
}

fn join_template1(region: Decoded, around: Neighborhood) -> (label: u16)
    ensures
        label == template1_label(region, around),
{
    weigh(region.corner, 0x200) + weigh(region.above, 0x100) + weigh(region.above_right, 0x80)
        + weigh(region.left, 0x40) + weigh(around.top, 0x20) + weigh(around.left, 0x10) + weigh(
        around.center,
        0x8,
    ) + weigh(around.right, 0x4) + weigh(around.bottom, 0x2) + weigh(around.bottom_right, 0x1)
}

/// Gathers the context labels of a refinement region while it is decoded in reading order.
#[derive(Debug, Clone, Copy)]
pub struct RefinementContextGatherer {
    pub template: RefinementTemplate,
    pub target_pixel: AdaptiveTemplatePixel,
    pub reference_pixel: AdaptiveTemplatePixel,
    /// The offset of the reference relative to the region.
    pub reference_dx: i32,
    pub reference_dy: i32,
    /// Whether both adaptive pixels are at their nominal position.
    pub use_default_at: bool,
    /// The current row.
    pub y: u32,
    /// The pixel to the left of the current one.
    pub left: bool,
    /// The reference pixels around the current one.
    pub around: Neighborhood,
}

/// A pixel of a bitmap; all pixels outside of it are white.
fn sample(bitmap: &Bitmap, x: i64, y: i64) -> (black: bool)
    requires
        bitmap.wf(),
    ensures
        black == bitmap.pixel(x as int, y as int),
{
    if x < 0 || y < 0 || x >= bitmap.width as i64 || y >= bitmap.height as i64 {
        return false;
    }
    bitmap.is_black(x as u32, y as u32)
}

/// The weight of a black pixel.
fn weigh(black: bool, weight: u16) -> (value: u16)
    ensures
        value == weight_of(black, weight as int),
        value <= weight,
{
    reveal(weight_of);
    if black {
        weight
    } else {
        0
    }
}

impl RefinementContextGatherer {
    /// The column of the reference that a column of the region refines.
    pub open spec fn reference_x(&self, x: int) -> int {
        x - self.reference_dx
    }

    /// The row of the reference that the current row refines.
    pub open spec fn reference_y(&self) -> int {
        self.y - self.reference_dy
    }

    /// The buffers hold what surrounds a pixel of the current row.
    pub open spec fn ready(&self, region: Bitmap, reference: Bitmap, x: int) -> bool {
        &&& self.left == region.pixel(x - 1, self.y as int)
        &&& self.around == neighborhood(reference, self.reference_x(x), self.reference_y())
    }

    /// The pixels of the region that a label depends on.
    pub open spec fn decoded(
        &self,
        region: Bitmap,
        corner: AdaptiveTemplatePixel,
        x: int,
    ) -> Decoded {
        let y = self.y as int;
        Decoded {
            corner: region.pixel(x + corner.x, y + corner.y),
            above: region.pixel(x, y - 1),
            above_right: region.pixel(x + 1, y - 1),
            left: region.pixel(x - 1, y),
        }
    }

    /// The template 0 label.
    pub open spec fn template0(&self, region: Bitmap, reference: Bitmap, x: int) -> int {
        let rx = self.reference_x(x);
        let ry = self.reference_y();
        template0_label(
            self.decoded(region, self.target_pixel, x),
            reference.pixel(rx + self.reference_pixel.x, ry + self.reference_pixel.y),
            neighborhood(reference, rx, ry),
        )
    }

    /// The template 1 label.
    pub open spec fn template1(&self, region: Bitmap, reference: Bitmap, x: int) -> int {
        template1_label(
            self.decoded(region, nominal(), x),
            neighborhood(reference, self.reference_x(x), self.reference_y()),
        )
    }

    /// Create a gatherer for a region.
    pub fn new(
        template: RefinementTemplate,
        at_pixels: &[AdaptiveTemplatePixel; 2],
        reference_dx: i32,
        reference_dy: i32,
    ) -> (gatherer: Self)
        ensures
            gatherer.template == template,
            gatherer.target_pixel == at_pixels@[0],
            gatherer.reference_pixel == at_pixels@[1],
            gatherer.reference_dx == reference_dx,
            gatherer.reference_dy == reference_dy,
            gatherer.use_default_at == (at_pixels@[0] == nominal() && at_pixels@[1] == nominal()),
            gatherer.y == 0,
    {
        let default = AdaptiveTemplatePixel { x: -1, y: -1 };
        RefinementContextGatherer {
            template,
            target_pixel: at_pixels[0],
            reference_pixel: at_pixels[1],
            reference_dx,
            reference_dy,
            use_default_at: at_pixels[0] == default && at_pixels[1] == default,
            y: 0,
            left: false,
            around: Neighborhood {
                top_left: false,
                top: false,
                top_right: false,
                left: false,
                center: false,
                right: false,
                bottom_left: false,
                bottom: false,
                bottom_right: false,
            },
        }
    }

    /// Nothing but the row and the buffers differ.
    pub open spec fn same_layout(&self, other: &Self) -> bool {
        &&& self.template == other.template
        &&& self.target_pixel == other.target_pixel
        &&& self.reference_pixel == other.reference_pixel
        &&& self.reference_dx == other.reference_dx
        &&& self.reference_dy == other.reference_dy
        &&& self.use_default_at == other.use_default_at
    }

    /// Go to the start of a row.
    pub fn start_row(&mut self, region: &Bitmap, reference: &Bitmap, y: u32)
        requires
            reference.wf(),
        ensures
            final(self).same_layout(old(self)),
            final(self).y == y,
            final(self).ready(*region, *reference, 0),
    {
        self.y = y;
        self.left = false;
        self.around = self.load(reference, 0);
    }

    fn load(&self, reference: &Bitmap, x: u32) -> (around: Neighborhood)
        requires
            reference.wf(),
        ensures
            around == neighborhood(*reference, self.reference_x(x as int), self.reference_y()),
    {
        let rx: i64 = x as i64 - self.reference_dx as i64;
        let ry: i64 = self.y as i64 - self.reference_dy as i64;
        Neighborhood {
            top_left: sample(reference, rx - 1, ry - 1),
            top: sample(reference, rx, ry - 1),
            top_right: sample(reference, rx + 1, ry - 1),
            left: sample(reference, rx - 1, ry),
            center: sample(reference, rx, ry),
            right: sample(reference, rx + 1, ry),
            bottom_left: sample(reference, rx - 1, ry + 1),
            bottom: sample(reference, rx, ry + 1),
            bottom_right: sample(reference, rx + 1, ry + 1),
        }
    }

    /// Fill the buffers with what surrounds a pixel of the current row.
    pub fn maybe_reload_buffers(&mut self, region: &Bitmap, reference: &Bitmap, x: u32)
        requires
            reference.wf(),
            old(self).left == region.pixel(x - 1, old(self).y as int),
        ensures
            final(self).same_layout(old(self)),
            final(self).y == old(self).y,
            final(self).ready(*region, *reference, x as int),
    {
        self.around = self.load(reference, x);
    }

    fn take_decoded(&self, region: &Bitmap, corner: AdaptiveTemplatePixel, x: u32) -> (decoded:
        Decoded)
        requires
            region.wf(),
            self.left == region.pixel(x - 1, self.y as int),
        ensures
            decoded == self.decoded(*region, corner, x as int),
    {
        let x: i64 = x as i64;
        let y: i64 = self.y as i64;
        Decoded {
            corner: sample(region, x + corner.x as i64, y + corner.y as i64),
            above: sample(region, x, y - 1),
            above_right: sample(region, x + 1, y - 1),
            left: self.left,
        }
    }

    /// The context label for template 0 with both adaptive pixels at their nominal position.
    pub fn gather_template0_default(&self, region: &Bitmap, reference: &Bitmap, x: u32) -> (label:
        u16)
        requires
            region.wf(),
            reference.wf(),
            self.target_pixel == nominal(),
            self.reference_pixel == nominal(),
            self.ready(*region, *reference, x as int),
        ensures
            label == self.template0(*region, *reference, x as int),
    {
        join_template0(
            self.take_decoded(region, self.target_pixel, x),
            self.around.top_left,
            self.around,
        )
    }

    /// The context label for template 0 with adaptive pixels anywhere.
    pub fn gather_template0_custom(&self, region: &Bitmap, reference: &Bitmap, x: u32) -> (label:
        u16)
        requires
            region.wf(),
            reference.wf(),
            self.ready(*region, *reference, x as int),
        ensures
            label == self.template0(*region, *reference, x as int),
    {
        let rx: i64 = x as i64 - self.reference_dx as i64;
        let ry: i64 = self.y as i64 - self.reference_dy as i64;
        let adaptive = sample(
            reference,
            rx + self.reference_pixel.x as i64,
            ry + self.reference_pixel.y as i64,
        );
        join_template0(
            self.take_decoded(region, self.target_pixel, x),
            adaptive,
            self.around,
        )
    }

    /// The context label for template 1.
    pub fn gather_template1(&self, region: &Bitmap, reference: &Bitmap, x: u32) -> (label: u16)
        requires
            region.wf(),
            reference.wf(),
            self.ready(*region, *reference, x as int),
        ensures
            label == self.template1(*region, *reference, x as int),
    {
        let corner = AdaptiveTemplatePixel { x: -1, y: -1 };
        join_template1(self.take_decoded(region, corner, x), self.around)
    }

    /// Whether the nine reference pixels around a pixel are the same (6.3.5.6).
    pub fn tpgr_all_same(&self, x: u32) -> (same: bool)
        ensures
            forall|region: Bitmap, reference: Bitmap| #[trigger]
                self.ready(region, reference, x as int) ==> same == uniform(
                    reference,
                    self.reference_x(x as int),
                    self.reference_y(),
                ),
    {
        let center = self.around.center;
        let same = self.around.top_left == center && self.around.top == center
            && self.around.top_right == center && self.around.left == center && self.around.right
            == center && self.around.bottom_left == center && self.around.bottom == center
            && self.around.bottom_right == center;
        proof {
            assert forall|region: Bitmap, reference: Bitmap| #[trigger]
                self.ready(region, reference, x as int) implies same == uniform(
                reference,
                self.reference_x(x as int),
                self.reference_y(),
            ) by {
                let rx = self.reference_x(x as int);
                let ry = self.reference_y();
                if uniform(reference, rx, ry) {
                    assert(reference.pixel(rx + (-1), ry + (-1)) == reference.pixel(rx, ry));
                    assert(reference.pixel(rx + 0, ry + (-1)) == reference.pixel(rx, ry));
                    assert(reference.pixel(rx + 1, ry + (-1)) == reference.pixel(rx, ry));
                    assert(reference.pixel(rx + (-1), ry + 0) == reference.pixel(rx, ry));
                    assert(reference.pixel(rx + 1, ry + 0) == reference.pixel(rx, ry));
                    assert(reference.pixel(rx + (-1), ry + 1) == reference.pixel(rx, ry));
                    assert(reference.pixel(rx + 0, ry + 1) == reference.pixel(rx, ry));
                    assert(reference.pixel(rx + 1, ry + 1) == reference.pixel(rx, ry));
                }
                if same {
                    assert forall|dx: int, dy: int|
                        -1 <= dx <= 1 && -1 <= dy <= 1 implies #[trigger] reference.pixel(
                        rx + dx,
                        ry + dy,
                    ) == reference.pixel(rx, ry) by {
                        assert(dx == -1 || dx == 0 || dx == 1);
                        assert(dy == -1 || dy == 0 || dy == 1);
                    }
                }
            }
        }
        same
    }

    /// The reference pixel that a pixel refines.
    pub fn ref_center_pixel(&self, x: u32) -> (value: u8)
        ensures
            forall|region: Bitmap, reference: Bitmap| #[trigger]
                self.ready(region, reference, x as int) ==> value == if reference.pixel(
                    self.reference_x(x as int),
                    self.reference_y(),
                ) {
                    1u8
                } else {
                    0u8
                },
    {
        if self.around.center {
            1
        } else {
            0
        }
    }

    /// Take in a pixel of the current row once it is decoded.
    pub fn update_current_row(&mut self, x: u32, value: u8)
        ensures
            final(self).same_layout(old(self)),
            final(self).y == old(self).y,
            final(self).left == (value != 0),
            final(self).around == old(self).around,
    {
        self.left = value != 0;
    }
}

} // verus!
