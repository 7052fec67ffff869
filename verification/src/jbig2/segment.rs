//! Segment parsing for JBIG2 bitstreams (Section 7.2).

use crate::bits::{word_at, Reader};
use crate::jbig2::error::{eof_error, reserved_bits_error, DecodeError, FormatError};
use crate::jbig2::error::{ParseError, Result, SegmentError};
use vstd::prelude::*;

verus! {

/// "The segment type is a number between 0 and 63, inclusive. Not all values
/// are allowed." (7.3)
#[derive(Debug, Clone, Copy, PartialEq, Eq, Structural)]
pub enum SegmentType {
    /// Symbol dictionary - see 7.4.2. (type 0)
    SymbolDictionary,
    /// Intermediate text region - see 7.4.3. (type 4)
    IntermediateTextRegion,
    /// Immediate text region - see 7.4.3. (type 6)
    ImmediateTextRegion,
    /// Immediate lossless text region - see 7.4.3. (type 7)
    ImmediateLosslessTextRegion,
    /// Pattern dictionary - see 7.4.4. (type 16)
    PatternDictionary,
    /// Intermediate halftone region - see 7.4.5. (type 20)
    IntermediateHalftoneRegion,
    /// Immediate halftone region - see 7.4.5. (type 22)
    ImmediateHalftoneRegion,
    /// Immediate lossless halftone region - see 7.4.5. (type 23)
    ImmediateLosslessHalftoneRegion,
    /// Intermediate generic region - see 7.4.6. (type 36)
    IntermediateGenericRegion,
    /// Immediate generic region - see 7.4.6. (type 38)
    ImmediateGenericRegion,
    /// Immediate lossless generic region - see 7.4.6. (type 39)
    ImmediateLosslessGenericRegion,
    /// Intermediate generic refinement region - see 7.4.7. (type 40)
    IntermediateGenericRefinementRegion,
    /// Immediate generic refinement region - see 7.4.7. (type 42)
    ImmediateGenericRefinementRegion,
    /// Immediate lossless generic refinement region - see 7.4.7. (type 43)
    ImmediateLosslessGenericRefinementRegion,
    /// Page information - see 7.4.8. (type 48)
    PageInformation,
    /// End of page - see 7.4.9. (type 49)
    EndOfPage,
    /// End of stripe - see 7.4.10. (type 50)
    EndOfStripe,
    /// End of file - see 7.4.11. (type 51)
    EndOfFile,
    /// Profiles - see 7.4.12. (type 52)
    Profiles,
    /// Tables - see 7.4.13. (type 53)
    Tables,
    /// Colour palette - see 7.4.16. (type 54)
    ColourPalette,
    /// Extension - see 7.4.14. (type 62)
    Extension,
}

/// The segment type with a number, if the number is in use.
pub open spec fn type_of(value: u8) -> Option<SegmentType> {
    match value {
        0 => Some(SegmentType::SymbolDictionary),
        4 => Some(SegmentType::IntermediateTextRegion),
        6 => Some(SegmentType::ImmediateTextRegion),
        7 => Some(SegmentType::ImmediateLosslessTextRegion),
        16 => Some(SegmentType::PatternDictionary),
        20 => Some(SegmentType::IntermediateHalftoneRegion),
        22 => Some(SegmentType::ImmediateHalftoneRegion),
        23 => Some(SegmentType::ImmediateLosslessHalftoneRegion),
        36 => Some(SegmentType::IntermediateGenericRegion),
        38 => Some(SegmentType::ImmediateGenericRegion),
        39 => Some(SegmentType::ImmediateLosslessGenericRegion),
        40 => Some(SegmentType::IntermediateGenericRefinementRegion),
        42 => Some(SegmentType::ImmediateGenericRefinementRegion),
        43 => Some(SegmentType::ImmediateLosslessGenericRefinementRegion),
        48 => Some(SegmentType::PageInformation),
        49 => Some(SegmentType::EndOfPage),
        50 => Some(SegmentType::EndOfStripe),
        51 => Some(SegmentType::EndOfFile),
        52 => Some(SegmentType::Profiles),
        53 => Some(SegmentType::Tables),
        54 => Some(SegmentType::ColourPalette),
        62 => Some(SegmentType::Extension),
        _ => None,
    }
}

impl SegmentType {
    /// The segment type with a number. "All other segment types are reserved and must not be
    /// used." (7.3)
    pub fn from_type_value(value: u8) -> (kind: Option<Self>)
        ensures
            kind == type_of(value),
    {
        match value {
            0 => Some(SegmentType::SymbolDictionary),
            4 => Some(SegmentType::IntermediateTextRegion),
            6 => Some(SegmentType::ImmediateTextRegion),
            7 => Some(SegmentType::ImmediateLosslessTextRegion),
            16 => Some(SegmentType::PatternDictionary),
            20 => Some(SegmentType::IntermediateHalftoneRegion),
            22 => Some(SegmentType::ImmediateHalftoneRegion),
            23 => Some(SegmentType::ImmediateLosslessHalftoneRegion),
            36 => Some(SegmentType::IntermediateGenericRegion),
            38 => Some(SegmentType::ImmediateGenericRegion),
            39 => Some(SegmentType::ImmediateLosslessGenericRegion),
            40 => Some(SegmentType::IntermediateGenericRefinementRegion),
            42 => Some(SegmentType::ImmediateGenericRefinementRegion),
            43 => Some(SegmentType::ImmediateLosslessGenericRefinementRegion),
            48 => Some(SegmentType::PageInformation),
            49 => Some(SegmentType::EndOfPage),
            50 => Some(SegmentType::EndOfStripe),
            51 => Some(SegmentType::EndOfFile),
            52 => Some(SegmentType::Profiles),
            53 => Some(SegmentType::Tables),
            54 => Some(SegmentType::ColourPalette),
            62 => Some(SegmentType::Extension),
            _ => None,
        }
    }
}

/// A parsed segment header (7.2.1).
#[derive(Debug)]
pub struct SegmentHeader {
    /// The segment's number. (7.2.2)
    pub segment_number: u32,
    /// "Bits 0-5: Segment type. See 7.3." (7.2.3)
    pub segment_type: SegmentType,
    /// "Bit 7: Deferred non-retain. If this bit is 1, this segment is flagged
    /// as retained only by itself and its attached extension segments." (7.2.3)
    pub deferred_non_retain: bool,
    /// The retain bits: first the one of this segment, then those of the referred-to
    /// segments. (7.2.4)
    pub retain_bits: Vec<bool>,
    /// The numbers of the segments that this segment refers to. (7.2.5)
    pub referred_to_segments: Vec<u32>,
    /// The number of the page to which this segment belongs, or zero. (7.2.6)
    pub page_association: u32,
    /// The length of the segment's data part, in bytes. (7.2.7)
    ///
    /// `None` means the length was unknown (0xFFFFFFFF).
    pub data_length: Option<u32>,
}

/// The content of a segment header.
#[verifier::ext_equal]
pub struct HeaderModel {
    pub number: u32,
    pub kind: SegmentType,
    pub deferred: bool,
    pub retained: Seq<bool>,
    pub refs: Seq<u32>,
    pub page: u32,
    pub length: Option<u32>,
}

impl View for SegmentHeader {
    type V = HeaderModel;

    open spec fn view(&self) -> HeaderModel {
        HeaderModel {
            number: self.segment_number,
            kind: self.segment_type,
            deferred: self.deferred_non_retain,
            retained: self.retain_bits@,
            refs: self.referred_to_segments@,
            page: self.page_association,
            length: self.data_length,
        }
    }
}

impl HeaderModel {
    /// The retain bit with an index: 0 for the segment itself, `k + 1` for its reference `k`.
    pub open spec fn retains(self, bit: int) -> bool {
        0 <= bit < self.retained.len() && self.retained[bit]
    }
}

impl SegmentHeader {
    /// Whether the retain bit with an index is set.
    pub fn retains(&self, bit: usize) -> (retained: bool)
        ensures
            retained == self@.retains(bit as int),
    {
        bit < self.retain_bits.len() && self.retain_bits[bit]
    }
}

/// One retain bit: bit `index % 8` of the byte with number `index / 8`.
pub open spec fn retain_bit(data: Seq<u8>, at: int, index: int) -> bool {
    (data[at + index / 8] >> ((index % 8) as u8)) & 1u8 == 1u8
}

/// The retain bits of a segment with `count` references.
pub open spec fn retain_bits_at(data: Seq<u8>, at: int, count: int) -> Seq<bool> {
    Seq::new((count + 1) as nat, |index: int| retain_bit(data, at, index))
}

/// The number in the low `used` bits of a byte is all there is in it.
pub open spec fn padding_clear(byte: u8, used: int) -> bool {
    forall|bit: int| used <= bit < 8 ==> #[trigger] (byte >> (bit as u8)) & 1u8 == 0u8
}

/// How many bytes a reference takes up in a segment with the given number. (7.2.5)
pub open spec fn number_size(number: int) -> int {
    if number <= 256 {
        1
    } else if number <= 65536 {
        2
    } else {
        4
    }
}

/// The big-endian number in `size` bytes.
pub open spec fn number_at(data: Seq<u8>, at: int, size: int) -> int {
    if size == 1 {
        data[at] as int
    } else if size == 2 {
        data[at] * 0x100 + data[at + 1]
    } else {
        word_at(data, at)
    }
}

/// The references of a segment.
pub open spec fn refs_at(data: Seq<u8>, at: int, count: int, size: int) -> Seq<u32> {
    Seq::new(count as nat, |k: int| number_at(data, at + k * size, size) as u32)
}

/// The end of a header from its page association on, given what comes before it.
pub open spec fn header_tail(
    data: Seq<u8>,
    at: int,
    page_is_long: bool,
    head: HeaderModel,
) -> Result<(HeaderModel, int)> {
    let length_at = if page_is_long {
        at + 4
    } else {
        at + 1
    };
    if length_at + 4 > data.len() {
        Err(eof_error())
    } else {
        let page = if page_is_long {
            word_at(data, at)
        } else {
            data[at] as int
        };
        let length = word_at(data, length_at);
        Ok(
            (
                HeaderModel {
                    page: page as u32,
                    length: if length == 0xFFFF_FFFF {
                        None
                    } else {
                        Some(length as u32)
                    },
                    ..head
                },
                length_at + 4,
            ),
        )
    }
}

/// The header from its references on.
pub open spec fn header_refs(
    data: Seq<u8>,
    at: int,
    count: int,
    page_is_long: bool,
    head: HeaderModel,
) -> Result<(HeaderModel, int)> {
    let size = number_size(head.number as int);
    if at + count * size > data.len() {
        Err(eof_error())
    } else {
        let refs = refs_at(data, at, count, size);
        if exists|k: int| 0 <= k < count && (#[trigger] refs[k]) >= head.number {
            Err(DecodeError::Segment(SegmentError::InvalidReference))
        } else {
            header_tail(data, at + count * size, page_is_long, HeaderModel { refs, ..head })
        }
    }
}

/// The header from its one-byte count of at most four references on.
pub open spec fn header_short(
    data: Seq<u8>,
    at: int,
    count: int,
    page_is_long: bool,
    head: HeaderModel,
) -> Result<(HeaderModel, int)> {
    if !padding_clear(data[at] & 0x1Fu8, count + 1) {
        Err(reserved_bits_error())
    } else {
        let retained = retain_bits_at(data, at, count);
        header_refs(data, at + 1, count, page_is_long, HeaderModel { retained, ..head })
    }
}

/// The header from its four-byte count of references on.
pub open spec fn header_long(
    data: Seq<u8>,
    at: int,
    page_is_long: bool,
    head: HeaderModel,
) -> Result<(HeaderModel, int)> {
    if at + 4 > data.len() {
        Err(eof_error())
    } else {
        let count = word_at(data, at) - 0xE000_0000;
        let size = count / 8 + 1;
        if at + 4 + size > data.len() {
            Err(eof_error())
        } else if !padding_clear(data[at + 3 + size], count % 8 + 1) {
            Err(reserved_bits_error())
        } else {
            let retained = retain_bits_at(data, at + 4, count);
            header_refs(data, at + 4 + size, count, page_is_long, HeaderModel { retained, ..head })
        }
    }
}

/// The header from its count of references on. "The three most significant bits of the first
/// byte in this field determine the length of the field." (7.2.4)
pub open spec fn header_counted(
    data: Seq<u8>,
    at: int,
    page_is_long: bool,
    head: HeaderModel,
) -> Result<(HeaderModel, int)> {
    if at + 1 > data.len() {
        Err(eof_error())
    } else {
        let short_count = (data[at] >> 5) as int;
        if short_count == 5 || short_count == 6 {
            Err(DecodeError::Segment(SegmentError::InvalidReferredCount))
        } else if short_count < 5 {
            header_short(data, at, short_count, page_is_long, head)
        } else {
            header_long(data, at, page_is_long, head)
        }
    }
}

/// The segment header that starts at a byte and the position behind it, or why it is refused.
#[verifier::opaque]
pub open spec fn header_at(data: Seq<u8>, at: int) -> Result<(HeaderModel, int)> {
    if at + 5 > data.len() {
        Err(eof_error())
    } else {
        let flags = data[at + 4];
        match type_of(flags & 0x3Fu8) {
            None => Err(DecodeError::Segment(SegmentError::UnknownType)),
            Some(kind) => header_counted(
                data,
                at + 5,
                flags & 0x40u8 != 0,
                HeaderModel {
                    number: word_at(data, at) as u32,
                    kind,
                    deferred: flags & 0x80u8 != 0,
                    retained: Seq::empty(),
                    refs: Seq::empty(),
                    page: 0,
                    length: None,
                },
            ),
        }
    }
}

/// Whether only the low `used` bits of a byte are set.
fn padding_is_clear(byte: u8, used: u8) -> (clear: bool)
    ensures
        clear == padding_clear(byte, used as int),
{
    let mut bit: u8 = used;
    while bit < 8
        invariant
            used <= bit,
            bit <= 8 || bit == used,
            forall|b: int| used <= b < bit ==> #[trigger] (byte >> (b as u8)) & 1u8 == 0u8,
        decreases 8 - bit,
    {
        if (byte >> bit) & 1u8 != 0u8 {
            assert(byte >> ((bit as int) as u8) & 1u8 != 0u8);
            return false;
        }
        bit = bit + 1;
    }
    true
}

/// Read the retain bits of a segment with `count` references.
fn collect_retain_bits(bytes: &[u8], count: usize) -> (bits: Vec<bool>)
    requires
        bytes@.len() == count / 8 + 1,
        count < 0x2000_0000,
    ensures
        bits@ == retain_bits_at(bytes@, 0, count as int),
{
    let mut bits: Vec<bool> = Vec::new();
    let mut index: usize = 0;
    while index <= count
        invariant
            index <= count + 1,
            count < 0x2000_0000,
            bytes@.len() == count / 8 + 1,
            bits@ == retain_bits_at(bytes@, 0, index - 1),
        decreases count + 1 - index,
    {
        assert(index / 8 <= count / 8);
        let byte: u8 = bytes[index / 8];
        bits.push((byte >> ((index % 8) as u8)) & 1u8 == 1u8);
        index = index + 1;
        assert(bits@ =~= retain_bits_at(bytes@, 0, index - 1));
    }
    bits
}

/// Read the references of a segment.
fn read_refs(reader: &mut Reader<'_>, count: u32, number: u32) -> (result: Option<Vec<u32>>)
    requires
        old(reader).aligned(),
        count < 0x2000_0000,
    ensures
        final(reader).data() == old(reader).data(),
        final(reader).aligned(),
        0 <= old(reader).pos() <= final(reader).pos() <= old(reader).total(),
        ({
            let at = old(reader).pos() / 8;
            let size = number_size(number as int);
            &&& result is Some <==> at + count * size <= old(reader).data().len()
            &&& result matches Some(refs) ==> {
                &&& refs@ == refs_at(old(reader).data(), at, count as int, size)
                &&& final(reader).pos() == old(reader).pos() + 8 * (count * size)
            }
        }),
{
    let size: usize = if number <= 256 {
        1
    } else if number <= 65536 {
        2
    } else {
        4
    };
    let ghost data = reader.data();
    let ghost start = reader.pos();
    let ghost at = start / 8;
    assert(count * size <= 0x8000_0000) by (nonlinear_arith)
        requires
            count < 0x2000_0000,
            size <= 4,
    ;
    if reader.bytes_left() < count as usize * size {
        return None;
    }
    let mut refs: Vec<u32> = Vec::new();
    let mut k: u32 = 0;
    while k < count
        invariant
            k <= count,
            count < 0x2000_0000,
            size == number_size(number as int),
            size == 1 || size == 2 || size == 4,
            data == old(reader).data(),
            start == old(reader).pos(),
            start % 8 == 0,
            0 <= start,
            at == start / 8,
            at + count * size <= data.len(),
            reader.data() == data,
            reader.pos() == start + 8 * (k * size),
            refs@ == refs_at(data, at, k as int, size as int),
        decreases count - k,
    {
        proof {
            assert((k + 1) * size == k * size + size) by (nonlinear_arith);
            assert((k + 1) * size <= count * size) by (nonlinear_arith)
                requires
                    k + 1 <= count,
            ;
        }
        let value: u32 = if size == 1 {
            match reader.read_byte() {
                None => {
                    return None;
                },
                Some(byte) => byte as u32,
            }
        } else if size == 2 {
            match reader.read_u16() {
                None => {
                    return None;
                },
                Some(half) => half as u32,
            }
        } else {
            match reader.read_u32() {
                None => {
                    return None;
                },
                Some(word) => word,
            }
        };
        refs.push(value);
        k = k + 1;
        assert(refs@ =~= refs_at(data, at, k as int, size as int));
    }
    Some(refs)
}

/// Whether a reference does not go to a lower number.
fn refers_forward(refs: &Vec<u32>, number: u32) -> (found: bool)
    ensures
        found == exists|k: int| 0 <= k < refs@.len() && (#[trigger] refs@[k]) >= number,
{
    let mut k: usize = 0;
    while k < refs.len()
        invariant
            k <= refs@.len(),
            forall|j: int| 0 <= j < k ==> (#[trigger] refs@[j]) < number,
        decreases refs@.len() - k,
    {
        if refs[k] >= number {
            assert(refs@[k as int] >= number);
            return true;
        }
        k = k + 1;
    }
    false
}

/// What reading a header gives: the header and the position behind it, or the error.
pub open spec fn header_read(
    expected: Result<(HeaderModel, int)>,
    result: Result<SegmentHeader>,
    end: int,
) -> bool {
    match expected {
        Err(error) => result == Err::<SegmentHeader, DecodeError>(error),
        Ok((header, behind)) => {
            &&& result matches Ok(found) && found@ == header
            &&& end == behind * 8
        },
    }
}

/// Read a header from its references on.
fn read_header_refs(
    reader: &mut Reader<'_>,
    count: u32,
    page_is_long: bool,
    head: SegmentHeader,
) -> (result: Result<SegmentHeader>)
    requires
        old(reader).aligned(),
        count < 0x2000_0000,
    ensures
        final(reader).data() == old(reader).data(),
        final(reader).aligned(),
        0 <= old(reader).pos() <= final(reader).pos() <= old(reader).total(),
        header_read(
            header_refs(
                old(reader).data(),
                old(reader).pos() / 8,
                count as int,
                page_is_long,
                head@,
            ),
            result,
            final(reader).pos(),
        ),
{
    let mut header = head;
    let number: u32 = header.segment_number;
    let ghost data = reader.data();
    let ghost at = reader.pos() / 8;
    let ghost size = number_size(number as int);
    let refs: Vec<u32> = match read_refs(reader, count, number) {
        None => {
            return Err(DecodeError::Parse(ParseError::UnexpectedEof));
        },
        Some(refs) => refs,
    };
    // If a segment refers to other segments, it must refer to only segments
    // with lower segment numbers.
    if refers_forward(&refs, number) {
        return Err(DecodeError::Segment(SegmentError::InvalidReference));
    }
    header.referred_to_segments = refs;
    let page: Option<u32> = if page_is_long {
        reader.read_u32()
    } else {
        match reader.read_byte() {
            None => None,
            Some(byte) => Some(byte as u32),
        }
    };
    match page {
        None => {
            return Err(DecodeError::Parse(ParseError::UnexpectedEof));
        },
        Some(page) => {
            header.page_association = page;
        },
    }
    match reader.read_u32() {
        None => Err(DecodeError::Parse(ParseError::UnexpectedEof)),
        Some(length) => {
            header.data_length = if length == 0xFFFF_FFFF {
                None
            } else {
                Some(length)
            };
            Ok(header)
        },
    }
}

/// Read a header from its one-byte count on.
fn read_header_short(
    reader: &mut Reader<'_>,
    first: u8,
    page_is_long: bool,
    head: SegmentHeader,
) -> (result: Result<SegmentHeader>)
    requires
        old(reader).aligned(),
        old(reader).pos() >= 8,
        first == old(reader).byte(-1),
        first >> 5 < 5,
    ensures
        final(reader).data() == old(reader).data(),
        final(reader).aligned(),
        0 <= old(reader).pos() <= final(reader).pos() <= old(reader).total(),
        header_read(
            header_short(
                old(reader).data(),
                old(reader).pos() / 8 - 1,
                (first >> 5) as int,
                page_is_long,
                head@,
            ),
            result,
            final(reader).pos(),
        ),
{
    let count: u8 = first >> 5;
    let mut head = head;
    let ghost before = head@;
    proof {
        use_type_invariant(&*reader);
        reader.lemma_pos();
    }
    if !padding_is_clear(first & 0x1Fu8, count + 1) {
        return Err(DecodeError::Format(FormatError::ReservedBits));
    }
    let mut bytes: Vec<u8> = Vec::new();
    bytes.push(first);
    head.retain_bits = collect_retain_bits(&bytes, count as usize);
    proof {
        let retained = retain_bits_at(reader.data(), reader.pos() / 8 - 1, count as int);
        assert(head.retain_bits@ =~= retained);
        assert(head@ =~= HeaderModel { retained, ..before });
    }
    read_header_refs(reader, count as u32, page_is_long, head)
}

/// Read a header from its four-byte count on.
fn read_header_long(
    reader: &mut Reader<'_>,
    first: u8,
    page_is_long: bool,
    head: SegmentHeader,
) -> (result: Result<SegmentHeader>)
    requires
        old(reader).aligned(),
        old(reader).pos() >= 8,
        first == old(reader).byte(-1),
        first >= 0xE0,
    ensures
        final(reader).data() == old(reader).data(),
        final(reader).aligned(),
        0 <= old(reader).pos() <= final(reader).pos() <= old(reader).total(),
        header_read(
            header_long(old(reader).data(), old(reader).pos() / 8 - 1, page_is_long, head@),
            result,
            final(reader).pos(),
        ),
{
    let mut head = head;
    let ghost before = head@;
    let ghost data = reader.data();
    let ghost at = reader.pos() / 8 - 1;
    // "Bits 0-28: Count of referred-to segments. This specifies the number of
    // segments that this segment refers to."
    let (high, middle, low): (u8, u8, u8) = match reader.read_bytes(3) {
        None => {
            return Err(DecodeError::Parse(ParseError::UnexpectedEof));
        },
        Some(rest) => (rest[0], rest[1], rest[2]),
    };
    let count: u32 = (first - 0xE0) as u32 * 0x100_0000 + high as u32 * 0x1_0000 + middle as u32
        * 0x100 + low as u32;
    assert(count == word_at(data, at) - 0xE000_0000);
    let size: usize = (count / 8) as usize + 1;
    match reader.read_bytes(size) {
        None => {
            return Err(DecodeError::Parse(ParseError::UnexpectedEof));
        },
        Some(bytes) => {
            assert(bytes@[size - 1] == data[at + 3 + size]);
            if !padding_is_clear(bytes[size - 1], (count % 8) as u8 + 1) {
                return Err(DecodeError::Format(FormatError::ReservedBits));
            }
            head.retain_bits = collect_retain_bits(bytes, count as usize);
            proof {
                let retained = retain_bits_at(data, at + 4, count as int);
                assert(head.retain_bits@ =~= retained);
                assert(head@ =~= HeaderModel { retained, ..before });
            }
        },
    }
    read_header_refs(reader, count, page_is_long, head)
}

/// Read a header from its count of references on.
fn read_header_counted(
    reader: &mut Reader<'_>,
    page_is_long: bool,
    head: SegmentHeader,
) -> (result: Result<SegmentHeader>)
    requires
        old(reader).aligned(),
    ensures
        final(reader).data() == old(reader).data(),
        final(reader).aligned(),
        0 <= old(reader).pos() <= final(reader).pos() <= old(reader).total(),
        header_read(
            header_counted(old(reader).data(), old(reader).pos() / 8, page_is_long, head@),
            result,
            final(reader).pos(),
        ),
{
    let first: u8 = match reader.read_byte() {
        None => {
            return Err(DecodeError::Parse(ParseError::UnexpectedEof));
        },
        Some(byte) => byte,
    };
    let short_count: u8 = first >> 5;
    assert(first >> 5 <= 7 && (first >> 5 == 7 ==> first >= 0xE0u8)) by (bit_vector);
    if short_count == 5 || short_count == 6 {
        return Err(DecodeError::Segment(SegmentError::InvalidReferredCount));
    }
    if short_count < 5 {
        read_header_short(reader, first, page_is_long, head)
    } else {
        read_header_long(reader, first, page_is_long, head)
    }
}

/// Parse a segment header (7.2).
pub fn parse_segment_header(reader: &mut Reader<'_>) -> (result: Result<SegmentHeader>)
    requires
        old(reader).aligned(),
    ensures
        final(reader).data() == old(reader).data(),
        final(reader).aligned(),
        0 <= old(reader).pos() <= final(reader).pos() <= old(reader).total(),
        header_read(
            header_at(old(reader).data(), old(reader).pos() / 8),
            result,
            final(reader).pos(),
        ),
{
    reveal(header_at);
    // 7.2.2: Segment number
    let segment_number: u32 = match reader.read_u32() {
        None => {
            return Err(DecodeError::Parse(ParseError::UnexpectedEof));
        },
        Some(number) => number,
    };
    // 7.2.3: Segment header flags
    let flags: u8 = match reader.read_byte() {
        None => {
            return Err(DecodeError::Parse(ParseError::UnexpectedEof));
        },
        Some(flags) => flags,
    };
    let segment_type = match SegmentType::from_type_value(flags & 0x3Fu8) {
        None => {
            return Err(DecodeError::Segment(SegmentError::UnknownType));
        },
        Some(kind) => kind,
    };
    let page_is_long = flags & 0x40u8 != 0;
    let head = SegmentHeader {
        segment_number,
        segment_type,
        deferred_non_retain: flags & 0x80u8 != 0,
        retain_bits: Vec::new(),
        referred_to_segments: Vec::new(),
        page_association: 0,
        data_length: None,
    };
    proof {
        assert(head.retain_bits@ =~= Seq::<bool>::empty());
        assert(head.referred_to_segments@ =~= Seq::<u32>::empty());
    }
    read_header_counted(reader, page_is_long, head)
}

/// A parsed segment with its header and data.
#[derive(Debug)]
pub struct Segment<'a> {
    /// The segment header.
    pub header: SegmentHeader,
    /// The segment data.
    pub data: &'a [u8],
}

/// The content of a segment.
#[verifier::ext_equal]
pub struct SegmentModel {
    pub header: HeaderModel,
    pub data: Seq<u8>,
}

impl<'a> View for Segment<'a> {
    type V = SegmentModel;

    open spec fn view(&self) -> SegmentModel {
        SegmentModel { header: self.header@, data: self.data@ }
    }
}

/// The contents of segments.
pub open spec fn segment_models(segments: Seq<Segment<'_>>) -> Seq<SegmentModel> {
    Seq::new(segments.len(), |i: int| segments[i]@)
}

/// How many bytes of adaptive pixels follow the flags of a generic region. (7.4.6.3)
pub open spec fn adaptive_bytes(flags: u8) -> int {
    if flags & 1u8 != 0 {
        0
    } else if (flags >> 1) & 3u8 != 0 {
        2
    } else if flags & 0x10u8 != 0 {
        24
    } else {
        8
    }
}

/// The first position from `at` on with the two marker bytes and four more bytes behind them.
pub open spec fn marker_at(data: Seq<u8>, at: int, first: u8, second: u8) -> Option<int>
    decreases data.len() - at,
{
    if at + 6 > data.len() {
        None
    } else if data[at] == first && data[at + 1] == second {
        Some(at)
    } else {
        marker_at(data, at + 1, first, second)
    }
}

/// The end of an immediate generic region of unknown length.
///
/// "These four bytes can be detected without knowing the length of the data part in advance: if
/// MMR is 1, they are preceded by the two-byte sequence 0x00 0x00; if MMR is 0, they are preceded
/// by the two-byte sequence 0xFF 0xAC." (7.4.6.4)
pub open spec fn generic_region_end(data: Seq<u8>, at: int) -> Result<int> {
    if at + 18 > data.len() {
        Err(eof_error())
    } else {
        let flags = data[at + 17];
        let from = at + 18 + adaptive_bytes(flags);
        if from > data.len() {
            Err(eof_error())
        } else {
            let found = if flags & 1u8 != 0 {
                marker_at(data, from, 0x00, 0x00)
            } else {
                marker_at(data, from, 0xFF, 0xAC)
            };
            match found {
                None => Err(DecodeError::Segment(SegmentError::MissingEndMarker)),
                Some(marker) => Ok(marker + 6),
            }
        }
    }
}

/// The end of the data part that starts at a byte.
pub open spec fn data_end(data: Seq<u8>, at: int, length: Option<u32>) -> Result<int> {
    match length {
        Some(length) => if at + length > data.len() {
            Err(eof_error())
        } else {
            Ok(at + length)
        },
        None => generic_region_end(data, at),
    }
}

/// The segment that starts at a byte and the position behind it.
pub open spec fn segment_at(data: Seq<u8>, at: int) -> Result<(SegmentModel, int)> {
    match header_at(data, at) {
        Err(error) => Err(error),
        Ok((header, behind)) => match data_end(data, behind, header.length) {
            Err(error) => Err(error),
            Ok(end) => Ok((SegmentModel { header, data: data.subrange(behind, end) }, end)),
        },
    }
}

proof fn lemma_marker(data: Seq<u8>, at: int, first: u8, second: u8)
    ensures
        marker_at(data, at, first, second) matches Some(found) ==> at <= found && found + 6
            <= data.len(),
    decreases data.len() - at,
{
    if at + 6 <= data.len() && !(data[at] == first && data[at + 1] == second) {
        lemma_marker(data, at + 1, first, second);
    }
}

/// A segment takes up at least one byte.
pub proof fn lemma_segment_advances(data: Seq<u8>, at: int)
    requires
        0 <= at,
    ensures
        header_at(data, at) matches Ok((_, end)) ==> at < end <= data.len(),
        segment_at(data, at) matches Ok((_, end)) ==> at < end <= data.len(),
{
    lemma_header_advances(data, at);
    match header_at(data, at) {
        Err(_) => {},
        Ok((header, behind)) => {
            if header.length is None && behind + 18 <= data.len() {
                let flags = data[behind + 17];
                let from = behind + 18 + adaptive_bytes(flags);
                lemma_marker(data, from, 0x00, 0x00);
                lemma_marker(data, from, 0xFF, 0xAC);
            }
        },
    }
}

proof fn lemma_header_advances(data: Seq<u8>, at: int)
    requires
        0 <= at,
    ensures
        header_at(data, at) matches Ok((_, end)) ==> at < end <= data.len(),
{
    reveal(header_at);
    if at + 6 <= data.len() {
        let number = word_at(data, at);
        let size = number_size(number);
        let short_count = (data[at + 5] >> 5) as int;
        let byte = data[at + 5];
        assert(byte >> 5 <= 7 && (byte >> 5 == 7 ==> byte >= 0xE0u8)) by (bit_vector);
        assert(short_count * size >= 0) by (nonlinear_arith)
            requires
                short_count >= 0,
                size >= 1,
        ;
        if short_count == 7 && at + 9 <= data.len() {
            let count = word_at(data, at + 5) - 0xE000_0000;
            assert(count * size >= 0) by (nonlinear_arith)
                requires
                    count >= 0,
                    size >= 1,
            ;
        }
    }
}

/// The segments of a sequential stream, up to an end-of-file segment.
///
/// "If a file contains an end of file segment, it must be the last segment." (7.4.11)
pub open spec fn segments_from(data: Seq<u8>, at: int) -> Result<Seq<SegmentModel>>
    decreases data.len() - at,
    when 0 <= at
    via segments_from_decreases
{
    if at >= data.len() {
        Ok(Seq::empty())
    } else {
        match segment_at(data, at) {
            Err(error) => Err(error),
            Ok((segment, end)) => if segment.header.kind == SegmentType::EndOfFile {
                Ok(seq![segment])
            } else {
                match segments_from(data, end) {
                    Err(error) => Err(error),
                    Ok(rest) => Ok(seq![segment] + rest),
                }
            },
        }
    }
}

#[via_fn]
proof fn segments_from_decreases(data: Seq<u8>, at: int) {
    lemma_segment_advances(data, at);
}

/// Scan for a two-byte marker with four more bytes behind it.
fn find_marker(data: &[u8], from: usize, first: u8, second: u8) -> (found: Option<usize>)
    requires
        from <= data@.len(),
    ensures
        match marker_at(data@, from as int, first, second) {
            None => found is None,
            Some(marker) => found matches Some(index) && index == marker,
        },
{
    let mut at: usize = from;
    while data.len() - at >= 6
        invariant
            from <= at <= data@.len(),
            marker_at(data@, from as int, first, second) == marker_at(
                data@,
                at as int,
                first,
                second,
            ),
        decreases data@.len() - at,
    {
        if data[at] == first && data[at + 1] == second {
            return Some(at);
        }
        at = at + 1;
    }
    None
}

/// The length of an immediate generic region of unknown length that starts the data.
fn generic_region_length(data: &[u8]) -> (result: Result<usize>)
    ensures
        match generic_region_end(data@, 0) {
            Err(error) => result == Err::<usize, DecodeError>(error),
            Ok(end) => result matches Ok(length) && length == end,
        },
{
    if data.len() < 18 {
        return Err(DecodeError::Parse(ParseError::UnexpectedEof));
    }
    let flags: u8 = data[17];
    let uses_mmr = flags & 1u8 != 0;
    let skipped: usize = if uses_mmr {
        0
    } else if (flags >> 1) & 3u8 != 0 {
        2
    } else if flags & 0x10u8 != 0 {
        24
    } else {
        8
    };
    if data.len() - 18 < skipped {
        return Err(DecodeError::Parse(ParseError::UnexpectedEof));
    }
    let found = if uses_mmr {
        find_marker(data, 18 + skipped, 0x00, 0x00)
    } else {
        find_marker(data, 18 + skipped, 0xFF, 0xAC)
    };
    proof {
        lemma_marker(data@, 18 + skipped, 0x00, 0x00);
        lemma_marker(data@, 18 + skipped, 0xFF, 0xAC);
    }
    match found {
        None => Err(DecodeError::Segment(SegmentError::MissingEndMarker)),
        Some(marker) => Ok(marker + 6),
    }
}

/// A marker is found at the same place in the rest of the data.
proof fn lemma_marker_shift(data: Seq<u8>, base: int, at: int, first: u8, second: u8)
    requires
        0 <= base <= data.len(),
        0 <= at,
    ensures
        marker_at(data, base + at, first, second) == (match marker_at(
            data.skip(base),
            at,
            first,
            second,
        ) {
            None => None,
            Some(marker) => Some(base + marker),
        }),
    decreases data.len() - at,
{
    let rest = data.skip(base);
    if base + at + 6 <= data.len() {
        assert(rest[at] == data[base + at] && rest[at + 1] == data[base + at + 1]);
        if !(rest[at] == first && rest[at + 1] == second) {
            lemma_marker_shift(data, base, at + 1, first, second);
        }
    }
}

proof fn lemma_region_shift(data: Seq<u8>, base: int)
    requires
        0 <= base <= data.len(),
    ensures
        generic_region_end(data, base) == (match generic_region_end(data.skip(base), 0) {
            Err(error) => Err::<int, DecodeError>(error),
            Ok(end) => Ok(base + end),
        }),
{
    let rest = data.skip(base);
    if base + 18 <= data.len() {
        assert(rest[17] == data[base + 17]);
        let from = 18 + adaptive_bytes(rest[17]);
        lemma_marker_shift(data, base, from, 0x00, 0x00);
        lemma_marker_shift(data, base, from, 0xFF, 0xAC);
    }
}

/// Parse a complete segment (header + data).
pub fn parse_segment<'a>(reader: &mut Reader<'a>) -> (result: Result<Segment<'a>>)
    requires
        old(reader).aligned(),
    ensures
        final(reader).data() == old(reader).data(),
        final(reader).aligned(),
        0 <= old(reader).pos() <= final(reader).pos() <= old(reader).total(),
        match segment_at(old(reader).data(), old(reader).pos() / 8) {
            Err(error) => result == Err::<Segment<'a>, DecodeError>(error),
            Ok((segment, end)) => {
                &&& result matches Ok(found) && found@ == segment
                &&& final(reader).pos() == end * 8
            },
        },
{
    let ghost data = reader.data();
    proof {
        use_type_invariant(&*reader);
        reader.lemma_pos();
        lemma_segment_advances(data, reader.pos() / 8);
    }
    let header = match parse_segment_header(reader) {
        Err(error) => {
            return Err(error);
        },
        Ok(header) => header,
    };
    let ghost behind = reader.pos() / 8;
    let length: usize = match header.data_length {
        Some(length) => length as usize,
        None => {
            let rest = reader.tail();
            proof {
                lemma_region_shift(data, behind);
            }
            match generic_region_length(rest) {
                Err(error) => {
                    return Err(error);
                },
                Ok(length) => length,
            }
        },
    };
    match reader.read_bytes(length) {
        None => Err(DecodeError::Parse(ParseError::UnexpectedEof)),
        Some(bytes) => Ok(Segment { header, data: bytes }),
    }
}

/// Parse segments in sequential organization.
///
/// "In this organization, the file structure looks like Figure D.1. A file header
/// is followed by a sequence of segments. The two parts of each segment are stored
/// together: first the segment header then the segment data." (D.1)
pub fn parse_segments_sequential<'a>(data: &'a [u8]) -> (result: Result<Vec<Segment<'a>>>)
    ensures
        match segments_from(data@, 0) {
            Err(error) => result == Err::<Vec<Segment<'a>>, DecodeError>(error),
            Ok(segments) => result matches Ok(found) && segment_models(found@) == segments,
        },
{
    let mut reader = Reader::new(data);
    let mut segments: Vec<Segment<'a>> = Vec::new();
    proof {
        assert(segment_models(segments@) =~= Seq::empty());
        match segments_from(data@, 0) {
            Err(_) => {},
            Ok(rest) => {
                assert(Seq::<SegmentModel>::empty() + rest =~= rest);
            },
        }
    }
    while !reader.at_end()
        invariant
            reader.data() == data@,
            reader.aligned(),
            0 <= reader.pos() <= reader.total(),
            segments_from(data@, 0) == (match segments_from(data@, reader.pos() / 8) {
                Err(error) => Err::<Seq<SegmentModel>, DecodeError>(error),
                Ok(rest) => Ok(segment_models(segments@) + rest),
            }),
        decreases reader.total() - reader.pos(),
    {
        let ghost at = reader.pos() / 8;
        let ghost before = segment_models(segments@);
        proof {
            lemma_segment_advances(data@, at);
        }
        match parse_segment(&mut reader) {
            Err(error) => {
                return Err(error);
            },
            Ok(segment) => {
                let is_eof = segment.header.segment_type == SegmentType::EndOfFile;
                let ghost model = segment@;
                segments.push(segment);
                proof {
                    assert(segment_models(segments@) =~= before.push(model));
                    assert(before.push(model) =~= before + seq![model]);
                    match segments_from(data@, reader.pos() / 8) {
                        Err(_) => {},
                        Ok(rest) => {
                            assert(before + (seq![model] + rest) =~= before.push(model) + rest);
                        },
                    }
                }
                if is_eof {
                    return Ok(segments);
                }
            },
        }
    }
    proof {
        assert(segment_models(segments@) + Seq::<SegmentModel>::empty() =~= segment_models(
            segments@,
        ));
    }
    Ok(segments)
}

} // verus!
