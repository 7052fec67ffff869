//! What holds of segments and of embedded images.

use crate::bits::word_at;
use crate::bits_laws::digit;
use crate::jbig2::error::{DecodeError, FormatError, SegmentError};
use crate::jbig2::pdf::{
    attached, can_be_global, count_ok, embedded, gives_up, globals_ok, intermediate, is_region,
    leads_page, must_release, on_page, page_error, page_info_index, page_ok, reference_ok,
    reference_type_ok, references_ok, refers_to, refines, region_error, regions_error,
    released_before, segment_ok, table_count, taken_before, uses_patterns, uses_symbols,
};
use crate::jbig2::region::{page_info_of, region_info_at, PageFlags};
use crate::jbig2::region_laws::bit;
use crate::jbig2::segment::{
    adaptive_bytes, data_end, generic_region_end, header_at, header_refs, marker_at, number_at,
    number_size, retain_bit, segment_at, segments_from, type_of, HeaderModel, SegmentModel,
    SegmentType,
};
use vstd::prelude::*;

verus! {

/// The number of a segment type.
pub open spec fn type_number(kind: SegmentType) -> int {
    match kind {
        SegmentType::SymbolDictionary => 0,
        SegmentType::IntermediateTextRegion => 4,
        SegmentType::ImmediateTextRegion => 6,
        SegmentType::ImmediateLosslessTextRegion => 7,
        SegmentType::PatternDictionary => 16,
        SegmentType::IntermediateHalftoneRegion => 20,
        SegmentType::ImmediateHalftoneRegion => 22,
        SegmentType::ImmediateLosslessHalftoneRegion => 23,
        SegmentType::IntermediateGenericRegion => 36,
        SegmentType::ImmediateGenericRegion => 38,
        SegmentType::ImmediateLosslessGenericRegion => 39,
        SegmentType::IntermediateGenericRefinementRegion => 40,
        SegmentType::ImmediateGenericRefinementRegion => 42,
        SegmentType::ImmediateLosslessGenericRefinementRegion => 43,
        SegmentType::PageInformation => 48,
        SegmentType::EndOfPage => 49,
        SegmentType::EndOfStripe => 50,
        SegmentType::EndOfFile => 51,
        SegmentType::Profiles => 52,
        SegmentType::Tables => 53,
        SegmentType::ColourPalette => 54,
        SegmentType::Extension => 62,
    }
}

/// A type is read from its number, and every type has one.
pub proof fn lemma_type_numbers(value: u8, kind: SegmentType)
    ensures
        type_of(value) matches Some(found) ==> type_number(found) == value,
        type_of(type_number(kind) as u8) == Some(kind),
{
}

/// Regions come in kinds: text, halftones, generic regions and refinements, each in a buffer or on
/// the page.
pub proof fn lemma_kinds(kind: SegmentType)
    ensures
        ({
            let n = type_number(kind);
            &&& is_region(kind) <==> 4 <= n <= 43 && n != 16
            &&& intermediate(kind) <==> n == 4 || n == 20 || n == 36 || n == 40
            &&& uses_symbols(kind) <==> n <= 7
            &&& uses_patterns(kind) <==> 20 <= n <= 23
            &&& refines(kind) <==> 40 <= n <= 43
            &&& can_be_global(kind) <==> n == 0 || n == 16 || n == 52 || n == 53 || n == 62
        }),
{
}

/// Symbols may be made of any number of segments, and extensions may refer to any. A halftone and
/// a refinement in a buffer refer to one segment, a refinement on the page to one at most, and
/// other segments to none.
pub proof fn lemma_reference_counts(kind: SegmentType, count: int)
    requires
        count >= 0,
    ensures
        ({
            let n = type_number(kind);
            &&& n <= 7 || n == 62 ==> count_ok(kind, count)
            &&& 20 <= n <= 23 || n == 40 ==> (count_ok(kind, count) <==> count == 1)
            &&& n == 42 || n == 43 ==> (count_ok(kind, count) <==> count == 0 || count == 1)
            &&& n == 16 || 36 <= n <= 39 || 48 <= n <= 54 ==> (count_ok(kind, count) <==> count
                == 0)
        }),
{
}

/// Symbols refer to symbol dictionaries and tables, halftones to pattern dictionaries, refinements
/// to buffers, and extensions to anything.
pub proof fn lemma_reference_types(kind: SegmentType, referred: SegmentType)
    ensures
        ({
            let n = type_number(kind);
            let m = type_number(referred);
            &&& n <= 7 ==> (reference_type_ok(kind, referred) <==> m == 0 || m == 53)
            &&& 20 <= n <= 23 ==> (reference_type_ok(kind, referred) <==> m == 16)
            &&& 40 <= n <= 43 ==> (reference_type_ok(kind, referred) <==> m == 4 || m == 20 || m
                == 36 || m == 40)
            &&& n == 62 ==> reference_type_ok(kind, referred)
            &&& n == 16 || 36 <= n <= 39 || 48 <= n <= 54 ==> !reference_type_ok(kind, referred)
        }),
{
}

/// References are as short as the numbers that they can have: a byte up to 256, two up to 65536,
/// and else four.
pub proof fn lemma_reference_size(number: int)
    ensures
        number_size(number) == 1 <==> number <= 256,
        number_size(number) == 2 <==> 256 < number <= 65536,
        number_size(number) == 4 <==> number > 65536,
{
}

proof fn lemma_flag_bits(flags: u8)
    ensures
        (flags & 0x3Fu8) as int == flags as int % 64,
        (flags & 0x40u8 != 0) == bit(flags, 0x40),
        (flags & 0x80u8 != 0) == bit(flags, 0x80),
        (flags & 1u8 != 0) == bit(flags, 1),
        (flags & 0x10u8 != 0) == bit(flags, 0x10),
        ((flags >> 1) & 3u8) as int == (flags as int / 2) % 4,
        (flags >> 5) as int == flags as int / 32,
{
    assert(flags & 0x3Fu8 == flags % 64u8) by (bit_vector);
    assert((flags & 0x40u8 != 0) == ((flags / 0x40u8) % 2u8 == 1u8)) by (bit_vector);
    assert((flags & 0x80u8 != 0) == ((flags / 0x80u8) % 2u8 == 1u8)) by (bit_vector);
    assert((flags & 1u8 != 0) == ((flags / 1u8) % 2u8 == 1u8)) by (bit_vector);
    assert((flags & 0x10u8 != 0) == ((flags / 0x10u8) % 2u8 == 1u8)) by (bit_vector);
    assert((flags >> 1) & 3u8 == (flags / 2u8) % 4u8) by (bit_vector);
    assert(flags >> 5 == flags / 32u8) by (bit_vector);
}

/// A header starts with the number of its segment and a byte of its type and two flags. It refers
/// only to segments with lower numbers, and has a retain bit for itself and for each of them.
pub proof fn lemma_header(data: Seq<u8>, at: int)
    requires
        0 <= at,
    ensures
        header_at(data, at) matches Ok((header, end)) ==> {
            &&& at + 5 <= data.len()
            &&& header.number == word_at(data, at)
            &&& type_number(header.kind) == data[at + 4] as int % 64
            &&& header.deferred <==> bit(data[at + 4], 128)
            &&& header.retained.len() == header.refs.len() + 1
            &&& forall|k: int|
                0 <= k < header.refs.len() ==> (#[trigger] header.refs[k]) < header.number
            &&& end <= data.len()
            &&& header.length == (if word_at(data, end - 4) == 0xFFFF_FFFF {
                None
            } else {
                Some(word_at(data, end - 4) as u32)
            })
            &&& header.page == if bit(data[at + 4], 64) {
                word_at(data, end - 8)
            } else {
                data[end - 5] as int
            }
            &&& data[at + 5] as int / 32 < 5 ==> header.refs.len() == data[at + 5] as int / 32
            &&& data[at + 5] as int / 32 == 7 ==> header.refs.len() == word_at(data, at + 5)
                - 0xE000_0000
            &&& data[at + 5] as int / 32 != 5 && data[at + 5] as int / 32 != 6
        },
        at + 5 > data.len() ==> header_at(data, at) is Err,
        at + 5 <= data.len() && type_of((data[at + 4] as int % 64) as u8) is None ==> header_at(
            data,
            at,
        ) == Err::<(HeaderModel, int), DecodeError>(
            DecodeError::Segment(SegmentError::UnknownType),
        ),
{
    reveal(header_at);
    if at + 5 <= data.len() {
        lemma_flag_bits(data[at + 4]);
        if at + 6 <= data.len() {
            lemma_flag_bits(data[at + 5]);
        }
        if header_at(data, at) is Ok {
            let header = (header_at(data, at)->Ok_0).0;
            lemma_type_numbers(data[at + 4] & 0x3Fu8, header.kind);
        }
    }
}

/// The references of a segment are the numbers that follow its count, in order.
pub proof fn lemma_references_read(
    data: Seq<u8>,
    at: int,
    count: int,
    page_is_long: bool,
    head: HeaderModel,
    k: int,
)
    requires
        0 <= k < count,
    ensures
        header_refs(data, at, count, page_is_long, head) matches Ok((header, end)) ==> {
            let size = number_size(head.number as int);
            &&& header.refs.len() == count
            &&& header.refs[k] == number_at(data, at + k * size, size) as u32
            &&& end == at + count * size + if page_is_long {
                8int
            } else {
                5int
            }
            &&& header.number == head.number && header.kind == head.kind
        },
{
}

/// A generic region of unknown length has no adaptive pixels if it is coded without a template of
/// them, one in the small templates, four in the large one, and twelve if it is extended.
pub proof fn lemma_adaptive_bytes(flags: u8)
    ensures
        bit(flags, 1) ==> adaptive_bytes(flags) == 0,
        !bit(flags, 1) && (flags as int / 2) % 4 != 0 ==> adaptive_bytes(flags) == 2 * 1,
        !bit(flags, 1) && (flags as int / 2) % 4 == 0 && !bit(flags, 16) ==> adaptive_bytes(flags)
            == 2 * 4,
        !bit(flags, 1) && (flags as int / 2) % 4 == 0 && bit(flags, 16) ==> adaptive_bytes(flags)
            == 2 * 12,
{
    lemma_flag_bits(flags);
}

/// A marker stands at a position, with four more bytes behind it.
pub open spec fn marks(data: Seq<u8>, at: int, first: u8, second: u8) -> bool {
    at + 6 <= data.len() && data[at] == first && data[at + 1] == second
}

/// The marker of the end of a region is the first one.
pub proof fn lemma_first_marker(data: Seq<u8>, at: int, first: u8, second: u8)
    requires
        0 <= at,
    ensures
        match marker_at(data, at, first, second) {
            Some(found) => at <= found && marks(data, found, first, second) && forall|i: int|
                at <= i < found ==> !#[trigger] marks(data, i, first, second),
            None => forall|i: int| at <= i ==> !#[trigger] marks(data, i, first, second),
        },
    decreases data.len() - at,
{
    if at + 6 <= data.len() && !(data[at] == first && data[at + 1] == second) {
        lemma_first_marker(data, at + 1, first, second);
    }
}

/// A region of unknown length ends four bytes behind its marker: zeros if it is coded by runs, and
/// the end of arithmetic coding otherwise.
pub proof fn lemma_region_end(data: Seq<u8>, at: int)
    requires
        0 <= at,
    ensures
        generic_region_end(data, at) matches Ok(end) ==> {
            let flags = data[at + 17];
            &&& at + 18 + adaptive_bytes(flags) <= end - 6
            &&& end <= data.len()
            &&& bit(flags, 1) ==> marks(data, end - 6, 0x00, 0x00)
            &&& !bit(flags, 1) ==> marks(data, end - 6, 0xFF, 0xAC)
        },
{
    if at + 18 <= data.len() {
        let flags = data[at + 17];
        lemma_flag_bits(flags);
        let from = at + 18 + adaptive_bytes(flags);
        lemma_first_marker(data, from, 0x00, 0x00);
        lemma_first_marker(data, from, 0xFF, 0xAC);
    }
}

/// The data of a segment follow its header, as many as it says.
pub proof fn lemma_segment(data: Seq<u8>, at: int, length: u32)
    requires
        0 <= at,
    ensures
        segment_at(data, at) matches Ok((segment, end)) ==> {
            &&& header_at(data, at) matches Ok((header, behind))
            &&& segment.header == header
            &&& data_end(data, behind, header.length) == Ok::<int, DecodeError>(end)
            &&& segment.data == data.subrange(behind, end)
            &&& header.length matches Some(length) ==> end == behind + length
        },
        at + length <= data.len() ==> data_end(data, at, Some(length)) == Ok::<int, DecodeError>(
            at + length,
        ),
        at + length > data.len() ==> data_end(data, at, Some(length)) is Err,
        data_end(data, at, None) == generic_region_end(data, at),
{
}

/// Segments follow each other to the end of the data or up to the end of the file, behind which
/// nothing is read.
pub proof fn lemma_segments_follow(data: Seq<u8>, at: int)
    requires
        0 <= at < data.len(),
    ensures
        match segment_at(data, at) {
            Err(error) => segments_from(data, at) == Err::<Seq<SegmentModel>, DecodeError>(error),
            Ok((segment, end)) => {
                &&& type_number(segment.header.kind) == 51 ==> segments_from(data, at) == Ok::<
                    Seq<SegmentModel>,
                    DecodeError,
                >(seq![segment])
                &&& type_number(segment.header.kind) != 51 ==> match segments_from(data, end) {
                    Ok(rest) => segments_from(data, at) == Ok::<Seq<SegmentModel>, DecodeError>(
                        seq![segment] + rest,
                    ),
                    Err(error) => segments_from(data, at) == Err::<
                        Seq<SegmentModel>,
                        DecodeError,
                    >(error),
                }
            },
        },
        segments_from(data, data.len() as int) == Ok::<Seq<SegmentModel>, DecodeError>(
            Seq::empty(),
        ),
{
    crate::jbig2::segment::lemma_segment_advances(data, at);
}

/// An embedded image is refused with the first error of its segments, and for a global segment
/// that belongs to a page or cannot stand alone.
pub proof fn lemma_globals_checked(data: Seq<u8>, globals: Seq<u8>, i: int)
    ensures
        segments_from(globals, 0) matches Err(error) ==> embedded(data, globals) == Err::<
            Seq<SegmentModel>,
            DecodeError,
        >(error),
        segments_from(globals, 0) matches Ok(found) ==> 0 <= i < found.len() && (
        found[i].header.page != 0 || !can_be_global(found[i].header.kind)) ==> embedded(
            data,
            globals,
        ) == Err::<Seq<SegmentModel>, DecodeError>(
            DecodeError::Format(FormatError::InvalidPdfEmbedding),
        ),
        segments_from(globals, 0) matches Ok(found) ==> globals_ok(found) && (segments_from(
            data,
            0,
        ) matches Ok(page) && page.len() == 0) ==> embedded(data, globals) == Err::<
            Seq<SegmentModel>,
            DecodeError,
        >(DecodeError::Format(FormatError::MissingPageInfo)),
{
}

/// The segments of a page all belong to it, none ends it, and its only page information has the
/// lowest number.
pub proof fn lemma_page(segments: Seq<SegmentModel>, i: int, j: int)
    requires
        page_ok(segments),
        0 <= i < segments.len(),
        0 <= j < segments.len(),
    ensures
        segments[i].header.page != 0,
        segments[i].header.page == segments[j].header.page,
        type_number(segments[i].header.kind) != 49,
        type_number(segments[i].header.kind) != 51,
        type_number(segments[i].header.kind) == 48 ==> segments[i].header.number
            <= segments[j].header.number,
        type_number(segments[i].header.kind) == 48 && type_number(segments[j].header.kind) == 48
            ==> i == j,
        exists|lead: int|
            0 <= lead < segments.len() && type_number((#[trigger] segments[lead]).header.kind)
                == 48,
{
    let lead = choose|k: int| #[trigger] leads_page(segments, k);
    assert(leads_page(segments, lead));
    assert(on_page(segments[i], segments[0].header.page));
    assert(on_page(segments[j], segments[0].header.page));
    assert(type_number(segments[lead].header.kind) == 48);
}

/// A reference leads to an earlier segment that is still retained, on the same page or on none, of
/// a type that may be referred to.
pub open spec fn leads_to(s: Seq<SegmentModel>, i: int, k: int, j: int) -> bool {
    &&& 0 <= j < i
    &&& s[j].header.number == s[i].header.refs[k]
    &&& s[j].header.page == 0 || s[j].header.page == s[i].header.page
    &&& reference_type_ok(s[i].header.kind, s[j].header.kind)
    &&& s[j].header.retains(0)
    &&& forall|h: int, l: int|
        j < h < i && 0 <= l < s[h].header.refs.len() && (#[trigger] s[h].header.refs[l])
            == s[j].header.number ==> s[h].header.retains(l + 1)
}

/// In an accepted image every reference leads to one earlier segment that is still retained, on
/// the same page or on none, of a type that may be referred to.
pub proof fn lemma_references_lead(data: Seq<u8>, globals: Seq<u8>, i: int, k: int)
    requires
        embedded(data, globals) is Ok,
        0 <= i < embedded(data, globals)->Ok_0.len(),
        0 <= k < embedded(data, globals)->Ok_0[i].header.refs.len(),
    ensures
        ({
            let s = embedded(data, globals)->Ok_0;
            &&& count_ok(s[i].header.kind, s[i].header.refs.len() as int)
            &&& exists|j: int| #[trigger] leads_to(s, i, k, j)
        }),
{
    lemma_reference_leads(embedded(data, globals)->Ok_0, i, k);
}

proof fn lemma_reference_leads(s: Seq<SegmentModel>, i: int, k: int)
    requires
        references_ok(s),
        0 <= i < s.len(),
        0 <= k < s[i].header.refs.len(),
    ensures
        count_ok(s[i].header.kind, s[i].header.refs.len() as int),
        exists|j: int| #[trigger] leads_to(s, i, k, j),
{
    assert(segment_ok(s, i));
    assert(reference_ok(s, i, k));
    let j = choose|j: int| #[trigger] refers_to(s, i, k, j);
    assert(refers_to(s, i, k, j));
    assert forall|h: int, l: int|
        j < h < i && 0 <= l < s[h].header.refs.len() && (#[trigger] s[h].header.refs[l])
            == s[j].header.number implies s[h].header.retains(l + 1) by {
        if !s[h].header.retains(l + 1) {
            assert(gives_up(s, h, l, s[j].header.number));
        }
    }
    assert(leads_to(s, i, k, j));
}

/// A segment that only its extensions may refer to is referred to by extensions alone, which
/// follow it without a gap.
pub proof fn lemma_attached(s: Seq<SegmentModel>, i: int)
    requires
        0 <= i < s.len(),
    ensures
        attached(s, i) matches Some(owner) ==> {
            &&& i > 0
            &&& type_number(s[i].header.kind) == 62
            &&& s[i].header.refs.len() == 1
            &&& s[i].header.refs[0] == owner
            &&& s[i - 1].header.number == owner || attached(s, i - 1) == Some(owner)
        },
        i > 0 && type_number(s[i].header.kind) == 62 && s[i].header.refs.len() == 1 && s[i
            - 1].header.number == s[i].header.refs[0] ==> attached(s, i) == Some(
            s[i].header.refs[0],
        ),
{
}

/// The end of a chain of extensions gives up an owner of the page that only they may refer to.
pub proof fn lemma_chain_releases(data: Seq<u8>, globals: Seq<u8>, i: int)
    requires
        embedded(data, globals) is Ok,
        1 <= i <= embedded(data, globals)->Ok_0.len(),
        must_release(embedded(data, globals)->Ok_0, i - 1),
        i < embedded(data, globals)->Ok_0.len() ==> attached(embedded(data, globals)->Ok_0, i)
            != attached(embedded(data, globals)->Ok_0, i - 1),
    ensures
        !embedded(data, globals)->Ok_0[i - 1].header.retains(1),
{
    let s = embedded(data, globals)->Ok_0;
    assert(references_ok(s));
    assert(released_before(s, i));
}

/// Symbol dictionaries have four selectors of tables, and text regions eight.
pub proof fn lemma_tables_counted(data: Seq<u8>, globals: Seq<u8>, i: int)
    requires
        embedded(data, globals) is Ok,
        0 <= i < embedded(data, globals)->Ok_0.len(),
    ensures
        ({
            let s = embedded(data, globals)->Ok_0;
            let n = type_number(s[i].header.kind);
            let tables = table_count(s, i, s[i].header.refs.len() as int);
            &&& n == 0 ==> tables <= 4
            &&& 4 <= n <= 7 ==> tables <= 8
        }),
{
    let s = embedded(data, globals)->Ok_0;
    assert(references_ok(s));
    assert(segment_ok(s, i));
}

/// In an accepted image every region has valid fields without a color extension. A refinement of
/// the page replaces it; any other region has the operator of the page, unless regions have their
/// own. Refinements and buffers are announced by the page, and every buffer is used.
pub proof fn lemma_regions_checked(data: Seq<u8>, globals: Seq<u8>, i: int)
    requires
        embedded(data, globals) is Ok,
        0 <= i < embedded(data, globals)->Ok_0.len(),
        is_region(embedded(data, globals)->Ok_0[i].header.kind),
    ensures
        ({
            let s = embedded(data, globals)->Ok_0;
            let n = type_number(s[i].header.kind);
            let lead = page_info_index(s, 0);
            &&& 0 <= lead < s.len()
            &&& type_number(s[lead].header.kind) == 48
            &&& page_info_of(s[lead].data) matches Ok(page)
            &&& region_info_at(s[i].data, 0) matches Ok(region)
            &&& !page.flags.might_contain_coloured
            &&& !region.colour_extension
            &&& 40 <= n <= 43 ==> page.flags.might_contain_refinements
            &&& n == 4 || n == 20 || n == 36 || n == 40 ==> page.flags.requires_auxiliary_buffers
                && taken_before(s, i, s.len() as int)
            &&& 40 <= n <= 43 && s[i].header.refs.len() == 0
                ==> region.combination_operator is Replace
            &&& !(40 <= n <= 43 && s[i].header.refs.len() == 0)
                && !page.flags.combination_operator_overridden ==> region.combination_operator
                == page.flags.default_combination_operator
        }),
{
    let s = embedded(data, globals)->Ok_0;
    lemma_first_page_info(s, 0);
    let lead = page_info_index(s, 0);
    assert(page_error(s) is None);
    let page = page_info_of(s[lead].data)->Ok_0;
    lemma_no_region_error(s, page.flags, 0, i);
}

proof fn lemma_first_page_info(s: Seq<SegmentModel>, i: int)
    requires
        0 <= i <= s.len(),
    ensures
        i <= page_info_index(s, i) <= s.len(),
        page_info_index(s, i) < s.len() ==> type_number(
            s[page_info_index(s, i)].header.kind,
        ) == 48,
    decreases s.len() - i,
{
    if i < s.len() && s[i].header.kind != SegmentType::PageInformation {
        lemma_first_page_info(s, i + 1);
    }
}

proof fn lemma_no_region_error(s: Seq<SegmentModel>, flags: PageFlags, from: int, i: int)
    requires
        0 <= from <= i < s.len(),
        regions_error(s, flags, from) is None,
    ensures
        region_error(s, flags, i) is None,
    decreases i - from,
{
    if from < i {
        lemma_no_region_error(s, flags, from + 1, i);
    }
}

/// The retain bits of a byte are its binary digits, the least significant first.
pub proof fn lemma_retain_bits(data: Seq<u8>, at: int, place: int)
    requires
        0 <= at,
        0 <= place,
        at + place < data.len(),
    ensures
        data[at + place] == digit(retain_bit(data, at, 8 * place)) + 2 * digit(
            retain_bit(data, at, 8 * place + 1),
        ) + 4 * digit(retain_bit(data, at, 8 * place + 2)) + 8 * digit(
            retain_bit(data, at, 8 * place + 3),
        ) + 16 * digit(retain_bit(data, at, 8 * place + 4)) + 32 * digit(
            retain_bit(data, at, 8 * place + 5),
        ) + 64 * digit(retain_bit(data, at, 8 * place + 6)) + 128 * digit(
            retain_bit(data, at, 8 * place + 7),
        ),
{
    let b = data[at + place];
    assert(b == ((b >> 0) & 1u8) + 2 * ((b >> 1) & 1u8) + 4 * ((b >> 2) & 1u8) + 8 * ((b >> 3)
        & 1u8) + 16 * ((b >> 4) & 1u8) + 32 * ((b >> 5) & 1u8) + 64 * ((b >> 6) & 1u8) + 128 * ((b
        >> 7) & 1u8)) by (bit_vector);
    assert((b >> 7) & 1u8 <= 1 && (b >> 6) & 1u8 <= 1 && (b >> 5) & 1u8 <= 1 && (b >> 4) & 1u8 <= 1
        && (b >> 3) & 1u8 <= 1 && (b >> 2) & 1u8 <= 1 && (b >> 1) & 1u8 <= 1 && (b >> 0) & 1u8
        <= 1) by (bit_vector);
    assert((8 * place) / 8 == place && (8 * place) % 8 == 0);
    assert((8 * place + 1) / 8 == place && (8 * place + 1) % 8 == 1);
    assert((8 * place + 2) / 8 == place && (8 * place + 2) % 8 == 2);
    assert((8 * place + 3) / 8 == place && (8 * place + 3) % 8 == 3);
    assert((8 * place + 4) / 8 == place && (8 * place + 4) % 8 == 4);
    assert((8 * place + 5) / 8 == place && (8 * place + 5) % 8 == 5);
    assert((8 * place + 6) / 8 == place && (8 * place + 6) % 8 == 6);
    assert((8 * place + 7) / 8 == place && (8 * place + 7) % 8 == 7);
}

/// The retain bits of a segment stand in the byte of a short count, or in the bytes behind a long
/// one. Bits of a short count that belong to no reference are clear.
pub proof fn lemma_header_retains(data: Seq<u8>, at: int, i: int)
    requires
        0 <= at,
        header_at(data, at) is Ok,
        0 <= i <= (header_at(data, at)->Ok_0).0.refs.len(),
    ensures
        ({
            let header = (header_at(data, at)->Ok_0).0;
            &&& data[at + 5] as int / 32 < 5 ==> header.retained[i] == retain_bit(data, at + 5, i)
            &&& data[at + 5] as int / 32 == 7 ==> header.retained[i] == retain_bit(data, at + 9, i)
            &&& data[at + 5] as int / 32 < 5 ==> forall|k: int|
                header.refs.len() < k < 5 ==> !#[trigger] retain_bit(data, at + 5, k)
        }),
{
    reveal(header_at);
    let header = (header_at(data, at)->Ok_0).0;
    let b = data[at + 5];
    lemma_flag_bits(data[at + 4]);
    lemma_flag_bits(b);
    if b as int / 32 < 5 {
        assert forall|k: int| header.refs.len() < k < 5 implies !#[trigger] retain_bit(
            data,
            at + 5,
            k,
        ) by {
            let place = k as u8;
            assert(((b & 0x1Fu8) >> place) & 1u8 == 0u8);
            assert((b >> place) & 1u8 == ((b & 0x1Fu8) >> place) & 1u8) by (bit_vector)
                requires
                    place < 5,
            ;
            assert(k / 8 == 0 && k % 8 == k);
        }
    }
}

/// A list of segments in order has increasing numbers, and a segment refers to segments before it
/// that are kept until then. A symbol dictionary uses four tables at most, other segments eight.
pub proof fn lemma_references(s: Seq<SegmentModel>, i: int, j: int, h: int, k: int)
    requires
        references_ok(s),
        0 <= j < i < s.len(),
    ensures
        s[j].header.number < s[i].header.number,
        s[i].header.kind == SegmentType::SymbolDictionary ==> table_count(
            s,
            i,
            s[i].header.refs.len() as int,
        ) <= 4,
        s[i].header.kind != SegmentType::Extension ==> table_count(
            s,
            i,
            s[i].header.refs.len() as int,
        ) <= 8,
        refers_to(s, i, k, j) ==> s[j].header.retains(0),
        refers_to(s, i, k, j) && j < h < i ==> forall|l: int|
            0 <= l < s[h].header.refs.len() && #[trigger] s[h].header.refs[l] == s[j].header.number
                ==> s[h].header.retains(l + 1),
{
    assert(segment_ok(s, i));
    if refers_to(s, i, k, j) && j < h < i {
        assert forall|l: int|
            0 <= l < s[h].header.refs.len() && #[trigger] s[h].header.refs[l]
                == s[j].header.number implies s[h].header.retains(l + 1) by {
            if !s[h].header.retains(l + 1) {
                assert(gives_up(s, h, l, s[j].header.number));
            }
        }
    }
}

/// A reference counts as one of a table if it has the number of a table before its segment.
pub proof fn lemma_table_reference(s: Seq<SegmentModel>, i: int, count: int, j: int)
    requires
        references_ok(s),
        0 <= count < s[i].header.refs.len(),
        0 <= j < i < s.len(),
        s[j].header.number == s[i].header.refs[count],
    ensures
        table_count(s, i, 0) == 0,
        table_count(s, i, count + 1) - table_count(s, i, count) == if s[j].header.kind
            == SegmentType::Tables {
            1int
        } else {
            0int
        },
{
}

} // verus!
