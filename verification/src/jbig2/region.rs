//! Page information and region information fields (7.4.1, 7.4.8).

use crate::bits::{word_at, Reader};
use crate::jbig2::error::{eof_error, DecodeError, ParseError, RegionError, Result};
use vstd::prelude::*;

verus! {

/// "These operators describe how the segment's bitmap is to be combined with
/// the page bitmap." (7.4.1.5)
#[derive(Debug, Clone, Copy, PartialEq, Eq, Structural)]
pub enum CombinationOperator {
    /// 0 OR
    Or,
    /// 1 AND
    And,
    /// 2 XOR
    Xor,
    /// 3 XNOR
    Xnor,
    /// 4 REPLACE
    Replace,
}

/// The operator with a number.
pub open spec fn operator_of(value: u8) -> Option<CombinationOperator> {
    match value {
        0 => Some(CombinationOperator::Or),
        1 => Some(CombinationOperator::And),
        2 => Some(CombinationOperator::Xor),
        3 => Some(CombinationOperator::Xnor),
        4 => Some(CombinationOperator::Replace),
        _ => None,
    }
}

impl CombinationOperator {
    /// The operator in the low three bits of a byte.
    pub fn from_value(value: u8) -> (result: Result<Self>)
        ensures
            match operator_of(value & 7u8) {
                Some(operator) => result == Ok::<Self, DecodeError>(operator),
                None => result == Err::<Self, DecodeError>(
                    DecodeError::Region(RegionError::InvalidCombinationOperator),
                ),
            },
    {
        match value & 7u8 {
            0 => Ok(CombinationOperator::Or),
            1 => Ok(CombinationOperator::And),
            2 => Ok(CombinationOperator::Xor),
            3 => Ok(CombinationOperator::Xnor),
            4 => Ok(CombinationOperator::Replace),
            _ => Err(DecodeError::Region(RegionError::InvalidCombinationOperator)),
        }
    }
}

/// Parsed region segment information field (7.4.1).
#[derive(Debug, Clone, Copy, PartialEq, Eq, Structural)]
pub struct RegionSegmentInfo {
    /// The width in pixels of the bitmap encoded in this segment. (7.4.1.1)
    pub width: u32,
    /// The height in pixels of the bitmap encoded in this segment. (7.4.1.2)
    pub height: u32,
    /// The horizontal offset in pixels relative to the page bitmap. (7.4.1.3)
    pub x_location: u32,
    /// The vertical offset in pixels relative to the page bitmap. (7.4.1.4)
    pub y_location: u32,
    /// "Bits 0-2: External combination operator." (7.4.1.5)
    pub combination_operator: CombinationOperator,
    /// "Bit 3: Colour extension flag (COLEXTFLAG)."
    pub colour_extension: bool,
}

/// The region segment information field that starts at a byte.
pub open spec fn region_info_at(data: Seq<u8>, at: int) -> Result<RegionSegmentInfo> {
    if at + 17 > data.len() {
        Err(eof_error())
    } else {
        let flags = data[at + 16];
        match operator_of(flags & 7u8) {
            None => Err(DecodeError::Region(RegionError::InvalidCombinationOperator)),
            Some(combination_operator) => Ok(
                RegionSegmentInfo {
                    width: word_at(data, at) as u32,
                    height: word_at(data, at + 4) as u32,
                    x_location: word_at(data, at + 8) as u32,
                    y_location: word_at(data, at + 12) as u32,
                    combination_operator,
                    colour_extension: flags & 8u8 != 0,
                },
            ),
        }
    }
}

/// Parse the region segment information field (7.4.1).
pub fn parse_region_segment_info(reader: &mut Reader<'_>) -> (result: Result<RegionSegmentInfo>)
    requires
        old(reader).aligned(),
    ensures
        final(reader).data() == old(reader).data(),
        final(reader).aligned(),
        0 <= old(reader).pos() <= final(reader).pos() <= old(reader).total(),
        result == region_info_at(old(reader).data(), old(reader).pos() / 8),
        result is Ok ==> final(reader).pos() == old(reader).pos() + 8 * 17,
{
    if reader.bytes_left() < 17 {
        return Err(DecodeError::Parse(ParseError::UnexpectedEof));
    }
    let ghost start = reader.pos();
    match (reader.read_u32(), reader.read_u32(), reader.read_u32(), reader.read_u32()) {
        (Some(width), Some(height), Some(x_location), Some(y_location)) => {
            match reader.read_byte() {
                Some(flags) => {
                    match CombinationOperator::from_value(flags) {
                        Err(error) => Err(error),
                        Ok(combination_operator) => Ok(
                            RegionSegmentInfo {
                                width,
                                height,
                                x_location,
                                y_location,
                                combination_operator,
                                colour_extension: flags & 8u8 != 0,
                            },
                        ),
                    }
                },
                None => Err(DecodeError::Parse(ParseError::UnexpectedEof)),
            }
        },
        _ => Err(DecodeError::Parse(ParseError::UnexpectedEof)),
    }
}

/// Page segment flags (7.4.8.5, Figure 56).
#[derive(Debug, Clone, Copy, PartialEq, Eq, Structural)]
pub struct PageFlags {
    /// "Bit 0: Page is eventually lossless."
    pub is_lossless: bool,
    /// "Bit 1: Page might contain refinements."
    pub might_contain_refinements: bool,
    /// "Bit 2: Page default pixel value."
    pub default_pixel: bool,
    /// "Bits 3-4: Page default combination operator."
    pub default_combination_operator: CombinationOperator,
    /// "Bit 5: Page requires auxiliary buffers."
    pub requires_auxiliary_buffers: bool,
    /// "Bit 6: Page combination operator overridden."
    pub combination_operator_overridden: bool,
    /// "Bit 7: Page might contain coloured segment."
    pub might_contain_coloured: bool,
}

/// Parsed page information segment (7.4.8).
#[derive(Debug, Clone, Copy, PartialEq, Eq, Structural)]
pub struct PageInformation {
    /// The width in pixels of the page's bitmap. (7.4.8.1)
    pub width: u32,
    /// The height in pixels of the page's bitmap. (7.4.8.2)
    pub height: u32,
    /// Page segment flags (7.4.8.5).
    pub flags: PageFlags,
    /// "Bit 15: Page is striped." (7.4.8.6)
    pub is_striped: bool,
}

/// The page segment flags in a byte.
pub open spec fn page_flags_of(flags: u8) -> PageFlags {
    PageFlags {
        is_lossless: flags & 0x01u8 != 0,
        might_contain_refinements: flags & 0x02u8 != 0,
        default_pixel: flags & 0x04u8 != 0,
        default_combination_operator: match (flags >> 3) & 3u8 {
            0 => CombinationOperator::Or,
            1 => CombinationOperator::And,
            2 => CombinationOperator::Xor,
            _ => CombinationOperator::Xnor,
        },
        requires_auxiliary_buffers: flags & 0x20u8 != 0,
        combination_operator_overridden: flags & 0x40u8 != 0,
        might_contain_coloured: flags & 0x80u8 != 0,
    }
}

fn parse_page_flags(flags: u8) -> (result: PageFlags)
    ensures
        result == page_flags_of(flags),
{
    PageFlags {
        is_lossless: flags & 0x01u8 != 0,
        might_contain_refinements: flags & 0x02u8 != 0,
        default_pixel: flags & 0x04u8 != 0,
        default_combination_operator: match (flags >> 3) & 3u8 {
            0 => CombinationOperator::Or,
            1 => CombinationOperator::And,
            2 => CombinationOperator::Xor,
            _ => CombinationOperator::Xnor,
        },
        requires_auxiliary_buffers: flags & 0x20u8 != 0,
        combination_operator_overridden: flags & 0x40u8 != 0,
        might_contain_coloured: flags & 0x80u8 != 0,
    }
}

/// The page information in a segment's data.
pub open spec fn page_info_of(data: Seq<u8>) -> Result<PageInformation> {
    if data.len() < 19 {
        Err(eof_error())
    } else {
        Ok(
            PageInformation {
                width: word_at(data, 0) as u32,
                height: word_at(data, 4) as u32,
                flags: page_flags_of(data[16]),
                is_striped: data[17] >= 0x80,
            },
        )
    }
}

/// Parse a page information segment (7.4.8).
pub fn parse_page_information(data: &[u8]) -> (result: Result<PageInformation>)
    ensures
        result == page_info_of(data@),
{
    if data.len() < 19 {
        return Err(DecodeError::Parse(ParseError::UnexpectedEof));
    }
    let mut reader = Reader::new(data);
    match (reader.read_u32(), reader.read_u32()) {
        (Some(width), Some(height)) => Ok(
            PageInformation {
                width,
                height,
                flags: parse_page_flags(data[16]),
                is_striped: data[17] >= 0x80,
            },
        ),
        _ => Err(DecodeError::Parse(ParseError::UnexpectedEof)),
    }
}

} // verus!
