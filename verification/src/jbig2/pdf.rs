//! The rules for segments embedded in a PDF file (T.88 7.2.3 to 7.3.2, 7.4.8, D.3).

use crate::bits::Reader;
use crate::jbig2::error::{DecodeError, FormatError, Result};
use crate::jbig2::region::{page_info_of, region_info_at, CombinationOperator, PageFlags};
use crate::jbig2::region::{parse_page_information, parse_region_segment_info};
use crate::jbig2::segment::{parse_segments_sequential, segment_models, segments_from};
use crate::jbig2::segment::{Segment, SegmentModel, SegmentType};
use vstd::prelude::*;

verus! {

/// The error for segments that break a rule of the embedding.
pub open spec fn embedding_error() -> DecodeError {
    DecodeError::Format(FormatError::InvalidPdfEmbedding)
}

/// Only these segment types can be independent of a page (7.3.2).
pub open spec fn can_be_global(kind: SegmentType) -> bool {
    kind == SegmentType::SymbolDictionary || kind == SegmentType::PatternDictionary || kind
        == SegmentType::Profiles || kind == SegmentType::Tables || kind == SegmentType::Extension
}

/// The segment stands outside of all pages and may do so.
pub open spec fn is_global(segment: SegmentModel) -> bool {
    segment.header.page == 0 && can_be_global(segment.header.kind)
}

/// All global segments are independent of a page.
pub open spec fn globals_ok(globals: Seq<SegmentModel>) -> bool {
    forall|i: int| 0 <= i < globals.len() ==> is_global(#[trigger] globals[i])
}

/// The segment belongs to the page and does not end it.
pub open spec fn on_page(segment: SegmentModel, page: u32) -> bool {
    segment.header.page == page && segment.header.kind != SegmentType::EndOfPage
        && segment.header.kind != SegmentType::EndOfFile
}

/// The segment is the only page information, and none has a lower number.
pub open spec fn leads_page(segments: Seq<SegmentModel>, index: int) -> bool {
    &&& 0 <= index < segments.len()
    &&& segments[index].header.kind == SegmentType::PageInformation
    &&& forall|j: int|
        0 <= j < segments.len() && j != index ==> (#[trigger] segments[j]).header.kind
            != SegmentType::PageInformation && segments[index].header.number
            <= segments[j].header.number
}

/// The segments are those of one page, led by its page information.
pub open spec fn page_ok(segments: Seq<SegmentModel>) -> bool {
    &&& segments.len() > 0
    &&& segments[0].header.page != 0
    &&& forall|i: int|
        0 <= i < segments.len() ==> on_page(#[trigger] segments[i], segments[0].header.page)
    &&& exists|i: int| #[trigger] leads_page(segments, i)
}

/// The segment put behind all that have no higher number.
pub open spec fn insert_by_number(
    segments: Seq<SegmentModel>,
    segment: SegmentModel,
) -> Seq<SegmentModel>
    decreases segments.len(),
{
    if segments.len() == 0 || segments.last().header.number <= segment.header.number {
        segments.push(segment)
    } else {
        insert_by_number(segments.drop_last(), segment).push(segments.last())
    }
}

/// The segments in the order of their numbers.
pub open spec fn sorted_by_number(segments: Seq<SegmentModel>) -> Seq<SegmentModel>
    decreases segments.len(),
{
    if segments.len() == 0 {
        Seq::empty()
    } else {
        insert_by_number(sorted_by_number(segments.drop_last()), segments.last())
    }
}

/// The numbers go up.
pub open spec fn ordered(segments: Seq<SegmentModel>) -> bool {
    forall|i: int, j: int|
        0 <= i < j < segments.len() ==> (#[trigger] segments[i]).header.number <= (
        #[trigger] segments[j]).header.number
}

/// The numbers go up and none occurs twice.
pub open spec fn distinct_numbers(segments: Seq<SegmentModel>) -> bool {
    forall|i: int, j: int|
        0 <= i < j < segments.len() ==> (#[trigger] segments[i]).header.number < (
        #[trigger] segments[j]).header.number
}

/// The region is stored in an auxiliary buffer.
pub open spec fn intermediate(kind: SegmentType) -> bool {
    kind == SegmentType::IntermediateTextRegion || kind == SegmentType::IntermediateHalftoneRegion
        || kind == SegmentType::IntermediateGenericRegion || kind
        == SegmentType::IntermediateGenericRefinementRegion
}

/// The segment decodes text or symbols.
pub open spec fn uses_symbols(kind: SegmentType) -> bool {
    kind == SegmentType::SymbolDictionary || kind == SegmentType::IntermediateTextRegion || kind
        == SegmentType::ImmediateTextRegion || kind == SegmentType::ImmediateLosslessTextRegion
}

/// The segment decodes a halftone.
pub open spec fn uses_patterns(kind: SegmentType) -> bool {
    kind == SegmentType::IntermediateHalftoneRegion || kind == SegmentType::ImmediateHalftoneRegion
        || kind == SegmentType::ImmediateLosslessHalftoneRegion
}

/// The segment refines a bitmap.
pub open spec fn refines(kind: SegmentType) -> bool {
    kind == SegmentType::IntermediateGenericRefinementRegion || kind
        == SegmentType::ImmediateGenericRefinementRegion || kind
        == SegmentType::ImmediateLosslessGenericRefinementRegion
}

/// A segment of this type may have that many references.
pub open spec fn count_ok(kind: SegmentType, count: int) -> bool {
    if uses_symbols(kind) || kind == SegmentType::Extension {
        true
    } else if uses_patterns(kind) || kind == SegmentType::IntermediateGenericRefinementRegion {
        count == 1
    } else if refines(kind) {
        count <= 1
    } else {
        count == 0
    }
}

/// A segment of the first type may refer to one of the second type.
pub open spec fn reference_type_ok(kind: SegmentType, referred: SegmentType) -> bool {
    if uses_symbols(kind) {
        referred == SegmentType::SymbolDictionary || referred == SegmentType::Tables
    } else if uses_patterns(kind) {
        referred == SegmentType::PatternDictionary
    } else if refines(kind) {
        intermediate(referred)
    } else {
        kind == SegmentType::Extension
    }
}

/// The segment that an extension is attached to: it directly follows its owner, or another
/// extension attached to the same owner.
pub open spec fn attached(s: Seq<SegmentModel>, i: int) -> Option<u32>
    decreases i,
{
    let header = s[i].header;
    if i <= 0 || header.kind != SegmentType::Extension || header.refs.len() != 1 {
        None
    } else if s[i - 1].header.number == header.refs[0] || attached(s, i - 1) == Some(
        header.refs[0],
    ) {
        Some(header.refs[0])
    } else {
        None
    }
}

/// The segment is attached to a segment of the page that only its extensions may refer to.
///
/// A global owner's chain can continue in a different image, so only a page's own chain is known
/// to be complete.
pub open spec fn must_release(s: Seq<SegmentModel>, i: int) -> bool {
    attached(s, i) matches Some(owner) && exists|j: int|
        0 <= j < i && (#[trigger] s[j]).header.number == owner && s[j].header.deferred
            && s[j].header.page != 0
}

/// A chain of extensions that must release its owner does so where it ends before segment `i`.
pub open spec fn released_before(s: Seq<SegmentModel>, i: int) -> bool {
    must_release(s, i - 1) && (i == s.len() || attached(s, i) != attached(s, i - 1)) ==> !s[i
        - 1].header.retains(1)
}

/// Reference `k` of segment `i` gives up the segment with the number.
pub open spec fn gives_up(s: Seq<SegmentModel>, i: int, k: int, number: u32) -> bool {
    0 <= k < s[i].header.refs.len() && s[i].header.refs[k] == number && !s[i].header.retains(k + 1)
}

/// Some segment before `i` has given up the segment `j`, or it was never retained.
pub open spec fn discarded_before(s: Seq<SegmentModel>, j: int, i: int) -> bool {
    ||| !s[j].header.retains(0)
    ||| exists|h: int, k: int|
        j < h < i && #[trigger] gives_up(s, h, k, s[j].header.number)
}

/// Reference `k` of segment `i` goes to segment `j`, which is there, alive and of the right kind.
pub open spec fn refers_to(s: Seq<SegmentModel>, i: int, k: int, j: int) -> bool {
    &&& 0 <= j < i
    &&& s[j].header.number == s[i].header.refs[k]
    &&& !discarded_before(s, j, i)
    &&& s[j].header.deferred ==> attached(s, i) == Some(s[j].header.number)
    &&& s[j].header.page == 0 || s[j].header.page == s[i].header.page
    &&& reference_type_ok(s[i].header.kind, s[j].header.kind)
}

/// Reference `k` of segment `i` is in order.
pub open spec fn reference_ok(s: Seq<SegmentModel>, i: int, k: int) -> bool {
    exists|j: int| #[trigger] refers_to(s, i, k, j)
}

/// Reference `k` of segment `i` goes to a table.
pub open spec fn table_reference(s: Seq<SegmentModel>, i: int, k: int) -> bool {
    exists|j: int|
        0 <= j < i && (#[trigger] s[j]).header.number == s[i].header.refs[k] && s[j].header.kind
            == SegmentType::Tables
}

/// How many of the first `count` references of segment `i` go to tables.
pub open spec fn table_count(s: Seq<SegmentModel>, i: int, count: int) -> int
    decreases count,
{
    if count <= 0 {
        0
    } else {
        table_count(s, i, count - 1) + if table_reference(s, i, count - 1) {
            1int
        } else {
            0int
        }
    }
}

/// The segment does not use more tables than it has selectors for.
pub open spec fn tables_ok(s: Seq<SegmentModel>, i: int) -> bool {
    let kind = s[i].header.kind;
    kind == SegmentType::Extension || table_count(s, i, s[i].header.refs.len() as int) <= if kind
        == SegmentType::SymbolDictionary {
        4int
    } else {
        8int
    }
}

/// Reference `k` of segment `i` takes the content of the segment with the number. Extensions do
/// not consume auxiliary buffers (7.3.1).
pub open spec fn takes(s: Seq<SegmentModel>, i: int, k: int, number: u32) -> bool {
    &&& 0 <= k < s[i].header.refs.len()
    &&& s[i].header.refs[k] == number
    &&& s[i].header.kind != SegmentType::Extension
}

/// Some segment before `end` takes the content of segment `j`.
pub open spec fn taken_before(s: Seq<SegmentModel>, j: int, end: int) -> bool {
    exists|i: int, k: int| 0 <= i < end && #[trigger] takes(s, i, k, s[j].header.number)
}

/// No two references before `end` take the content of the same auxiliary buffer.
pub open spec fn taken_once(s: Seq<SegmentModel>, j: int, end: int) -> bool {
    forall|a: int, b: int, k: int, l: int|
        0 <= a < end && 0 <= b < end && #[trigger] takes(s, a, k, s[j].header.number)
            && #[trigger] takes(s, b, l, s[j].header.number) ==> a == b && k == l
}

/// All that is asked of one segment and its references.
pub open spec fn segment_ok(s: Seq<SegmentModel>, i: int) -> bool {
    &&& count_ok(s[i].header.kind, s[i].header.refs.len() as int)
    &&& forall|k: int| 0 <= k < s[i].header.refs.len() ==> #[trigger] reference_ok(s, i, k)
    &&& tables_ok(s, i)
}

/// The numbers are unique, and all references and their lifetimes are in order.
pub open spec fn references_ok(s: Seq<SegmentModel>) -> bool {
    &&& distinct_numbers(s)
    &&& forall|i: int| 0 <= i < s.len() ==> #[trigger] segment_ok(s, i)
    &&& forall|i: int| 1 <= i <= s.len() ==> #[trigger] released_before(s, i)
    &&& forall|j: int|
        0 <= j < s.len() && intermediate((#[trigger] s[j]).header.kind) ==> taken_once(
            s,
            j,
            s.len() as int,
        )
}

/// The segment is a region.
pub open spec fn is_region(kind: SegmentType) -> bool {
    ||| refines(kind)
    ||| intermediate(kind)
    ||| kind == SegmentType::ImmediateTextRegion
    ||| kind == SegmentType::ImmediateLosslessTextRegion
    ||| kind == SegmentType::ImmediateGenericRegion
    ||| kind == SegmentType::ImmediateLosslessGenericRegion
    ||| kind == SegmentType::ImmediateHalftoneRegion
    ||| kind == SegmentType::ImmediateLosslessHalftoneRegion
}

/// What the page flags, and the region's own fields, say against segment `i`.
pub open spec fn region_error(s: Seq<SegmentModel>, flags: PageFlags, i: int) -> Option<
    DecodeError,
> {
    let kind = s[i].header.kind;
    if !is_region(kind) {
        None
    } else if refines(kind) && !flags.might_contain_refinements {
        Some(embedding_error())
    } else if intermediate(kind) && !(flags.requires_auxiliary_buffers && taken_before(
        s,
        i,
        s.len() as int,
    )) {
        Some(embedding_error())
    } else {
        match region_info_at(s[i].data, 0) {
            Err(error) => Some(error),
            Ok(info) => {
                // A refinement of the page itself replaces what it refines.
                let page_refinement = refines(kind) && s[i].header.refs.len() == 0;
                let operator_ok = if page_refinement {
                    info.combination_operator == CombinationOperator::Replace
                } else {
                    flags.combination_operator_overridden || info.combination_operator
                        == flags.default_combination_operator
                };
                if info.colour_extension || !operator_ok {
                    Some(embedding_error())
                } else {
                    None
                }
            },
        }
    }
}

/// The first error from segment `i` on.
pub open spec fn regions_error(s: Seq<SegmentModel>, flags: PageFlags, i: int) -> Option<
    DecodeError,
>
    decreases s.len() - i,
{
    if i >= s.len() {
        None
    } else {
        match region_error(s, flags, i) {
            Some(error) => Some(error),
            None => regions_error(s, flags, i + 1),
        }
    }
}

/// The first page information from segment `i` on.
pub open spec fn page_info_index(s: Seq<SegmentModel>, i: int) -> int
    decreases s.len() - i,
{
    if i >= s.len() || s[i].header.kind == SegmentType::PageInformation {
        i
    } else {
        page_info_index(s, i + 1)
    }
}

/// What is checked once the references are in order.
pub open spec fn page_error(s: Seq<SegmentModel>) -> Option<DecodeError> {
    let index = page_info_index(s, 0);
    if index >= s.len() {
        Some(DecodeError::Format(FormatError::MissingPageInfo))
    } else {
        match page_info_of(s[index].data) {
            Err(error) => Some(error),
            Ok(info) => if info.flags.might_contain_coloured {
                Some(embedding_error())
            } else {
                regions_error(s, info.flags, 0)
            },
        }
    }
}

/// The segments of an embedded image in the order of their numbers, or why it is refused.
pub open spec fn embedded(data: Seq<u8>, globals: Seq<u8>) -> Result<Seq<SegmentModel>> {
    match segments_from(globals, 0) {
        Err(error) => Err(error),
        Ok(globals) => if !globals_ok(globals) {
            Err(embedding_error())
        } else {
            match segments_from(data, 0) {
                Err(error) => Err(error),
                Ok(page) => if page.len() == 0 {
                    Err(DecodeError::Format(FormatError::MissingPageInfo))
                } else if !page_ok(page) {
                    Err(embedding_error())
                } else {
                    let s = sorted_by_number(globals + page);
                    if !references_ok(s) {
                        Err(embedding_error())
                    } else {
                        match page_error(s) {
                            Some(error) => Err(error),
                            None => Ok(s),
                        }
                    }
                },
            }
        },
    }
}

fn is_intermediate(kind: SegmentType) -> (result: bool)
    ensures
        result == intermediate(kind),
{
    kind == SegmentType::IntermediateTextRegion || kind == SegmentType::IntermediateHalftoneRegion
        || kind == SegmentType::IntermediateGenericRegion || kind
        == SegmentType::IntermediateGenericRefinementRegion
}

fn is_symbol_user(kind: SegmentType) -> (result: bool)
    ensures
        result == uses_symbols(kind),
{
    kind == SegmentType::SymbolDictionary || kind == SegmentType::IntermediateTextRegion || kind
        == SegmentType::ImmediateTextRegion || kind == SegmentType::ImmediateLosslessTextRegion
}

fn is_pattern_user(kind: SegmentType) -> (result: bool)
    ensures
        result == uses_patterns(kind),
{
    kind == SegmentType::IntermediateHalftoneRegion || kind == SegmentType::ImmediateHalftoneRegion
        || kind == SegmentType::ImmediateLosslessHalftoneRegion
}

fn is_refinement(kind: SegmentType) -> (result: bool)
    ensures
        result == refines(kind),
{
    kind == SegmentType::IntermediateGenericRefinementRegion || kind
        == SegmentType::ImmediateGenericRefinementRegion || kind
        == SegmentType::ImmediateLosslessGenericRefinementRegion
}

fn has_valid_count(kind: SegmentType, count: usize) -> (valid: bool)
    ensures
        valid == count_ok(kind, count as int),
{
    if is_symbol_user(kind) || kind == SegmentType::Extension {
        true
    } else if is_pattern_user(kind) || kind == SegmentType::IntermediateGenericRefinementRegion {
        count == 1
    } else if is_refinement(kind) {
        count <= 1
    } else {
        count == 0
    }
}

fn can_refer(kind: SegmentType, referred: SegmentType) -> (valid: bool)
    ensures
        valid == reference_type_ok(kind, referred),
{
    if is_symbol_user(kind) {
        referred == SegmentType::SymbolDictionary || referred == SegmentType::Tables
    } else if is_pattern_user(kind) {
        referred == SegmentType::PatternDictionary
    } else if is_refinement(kind) {
        is_intermediate(referred)
    } else {
        kind == SegmentType::Extension
    }
}

/// Find the segment with a number among the first `end` ones.
fn find_segment(segments: &Vec<Segment<'_>>, end: usize, number: u32) -> (found: Option<usize>)
    requires
        end <= segments@.len(),
        distinct_numbers(segment_models(segments@)),
    ensures
        match found {
            Some(index) => index < end && segments@[index as int]@.header.number == number,
            None => forall|j: int|
                0 <= j < end ==> (#[trigger] segment_models(segments@)[j]).header.number != number,
        },
{
    let ghost s = segment_models(segments@);
    let mut low: usize = 0;
    let mut high: usize = end;
    while low < high
        invariant
            s == segment_models(segments@),
            low <= high <= end <= segments@.len(),
            distinct_numbers(s),
            forall|j: int| 0 <= j < low ==> (#[trigger] s[j]).header.number < number,
            forall|j: int| high <= j < end ==> (#[trigger] s[j]).header.number > number,
        decreases high - low,
    {
        let middle: usize = low + (high - low) / 2;
        let at: u32 = segments[middle].header.segment_number;
        assert(s[middle as int].header.number == at);
        if at == number {
            return Some(middle);
        }
        if at < number {
            low = middle + 1;
        } else {
            high = middle;
        }
    }
    None
}

/// Reference `k` of segment `a` comes before reference `l` of segment `b`.
spec fn earlier(a: int, k: int, b: int, l: int) -> bool {
    a < b || (a == b && k < l)
}

/// Some reference before reference `l` of segment `i` takes the content of segment `j`.
spec fn taken_upto(s: Seq<SegmentModel>, j: int, i: int, l: int) -> bool {
    exists|a: int, k: int|
        0 <= a && earlier(a, k, i, l) && #[trigger] takes(s, a, k, s[j].header.number)
}

spec fn once_upto(s: Seq<SegmentModel>, j: int, i: int, l: int) -> bool {
    forall|a: int, b: int, k: int, m: int|
        0 <= a && 0 <= b && earlier(a, k, i, l) && earlier(b, m, i, l) && #[trigger] takes(
            s,
            a,
            k,
            s[j].header.number,
        ) && #[trigger] takes(s, b, m, s[j].header.number) ==> a == b && k == m
}

/// The account of consumed buffers before reference `l` of segment `i`.
spec fn consumption(s: Seq<SegmentModel>, consumed: Seq<bool>, i: int, l: int) -> bool {
    &&& consumed.len() == s.len()
    &&& forall|j: int|
        0 <= j < s.len() && intermediate((#[trigger] s[j]).header.kind) ==> once_upto(s, j, i, l)
            && (consumed[j] == taken_upto(s, j, i, l))
}

/// Two references take the content of one buffer.
spec fn conflict(s: Seq<SegmentModel>, end: int) -> bool {
    exists|j: int|
        0 <= j < s.len() && intermediate((#[trigger] s[j]).header.kind) && !taken_once(s, j, end)
}

proof fn lemma_conflict(s: Seq<SegmentModel>, end: int)
    requires
        conflict(s, end),
        end <= s.len(),
    ensures
        !references_ok(s),
{
    let j = choose|j: int|
        0 <= j < s.len() && intermediate((#[trigger] s[j]).header.kind) && !taken_once(s, j, end);
    if references_ok(s) {
        assert(taken_once(s, j, s.len() as int));
    }
}

/// The account at the end of a segment's references is the one at the start of the next segment.
proof fn lemma_next_segment(s: Seq<SegmentModel>, consumed: Seq<bool>, i: int)
    requires
        0 <= i < s.len(),
        consumption(s, consumed, i, s[i].header.refs.len() as int),
    ensures
        consumption(s, consumed, i + 1, 0),
{
    let l = s[i].header.refs.len() as int;
    assert forall|j: int|
        0 <= j < s.len() && intermediate((#[trigger] s[j]).header.kind) implies once_upto(
        s,
        j,
        i + 1,
        0,
    ) && consumed[j] == taken_upto(s, j, i + 1, 0) by {
        let number = s[j].header.number;
        assert forall|a: int, k: int|
            0 <= a && #[trigger] takes(s, a, k, number) implies earlier(a, k, i + 1, 0) == earlier(
            a,
            k,
            i,
            l,
        ) by {}
    }
}

/// Mark what one reference takes.
proof fn lemma_take(s: Seq<SegmentModel>, consumed: Seq<bool>, i: int, l: int, target: int)
    requires
        0 <= target < i < s.len(),
        0 <= l < s[i].header.refs.len(),
        distinct_numbers(s),
        s[target].header.number == s[i].header.refs[l],
        consumption(s, consumed, i, l),
    ensures
        ({
            let takes_buffer = intermediate(s[target].header.kind) && s[i].header.kind
                != SegmentType::Extension;
            if !takes_buffer {
                consumption(s, consumed, i, l + 1)
            } else if consumed[target] {
                conflict(s, i + 1)
            } else {
                consumption(s, consumed.update(target, true), i, l + 1)
            }
        }),
{
    let number = s[target].header.number;
    let takes_buffer = intermediate(s[target].header.kind) && s[i].header.kind
        != SegmentType::Extension;
    assert forall|a: int, k: int|
        #[trigger] earlier(a, k, i, l + 1) == (earlier(a, k, i, l) || (a == i && k == l)) by {}
    if takes_buffer && consumed[target] {
        assert(taken_upto(s, target, i, l));
        let (a, k) = choose|a: int, k: int|
            0 <= a && earlier(a, k, i, l) && #[trigger] takes(s, a, k, number);
        assert(takes(s, i, l, number));
        assert(!taken_once(s, target, i + 1)) by {
            assert(takes(s, a, k, s[target].header.number) && takes(
                s,
                i,
                l,
                s[target].header.number,
            ));
        }
    } else {
        let after = if takes_buffer {
            consumed.update(target, true)
        } else {
            consumed
        };
        assert forall|j: int|
            0 <= j < s.len() && intermediate((#[trigger] s[j]).header.kind) implies once_upto(
            s,
            j,
            i,
            l + 1,
        ) && after[j] == taken_upto(s, j, i, l + 1) by {
            let other = s[j].header.number;
            if j == target {
                if takes_buffer {
                    assert(takes(s, i, l, other));
                    assert(earlier(i, l, i, l + 1));
                    assert(!taken_upto(s, j, i, l));
                    assert forall|a: int, k: int|
                        0 <= a && earlier(a, k, i, l + 1) && #[trigger] takes(
                            s,
                            a,
                            k,
                            other,
                        ) implies a == i && k == l by {
                        if earlier(a, k, i, l) {
                            assert(taken_upto(s, j, i, l));
                        }
                    }
                } else {
                    assert(!takes(s, i, l, other));
                    lemma_no_take(s, j, i, l);
                }
            } else {
                assert(other != number) by {
                    if j < target {
                        assert(s[j].header.number < s[target].header.number);
                    } else {
                        assert(s[target].header.number < s[j].header.number);
                    }
                }
                assert(!takes(s, i, l, other));
                lemma_no_take(s, j, i, l);
            }
        }
    }
}

proof fn lemma_no_take(s: Seq<SegmentModel>, j: int, i: int, l: int)
    requires
        !takes(s, i, l, s[j].header.number),
    ensures
        once_upto(s, j, i, l) ==> once_upto(s, j, i, l + 1),
        taken_upto(s, j, i, l) == taken_upto(s, j, i, l + 1),
{
    let number = s[j].header.number;
    assert forall|a: int, k: int| #[trigger] takes(s, a, k, number) implies earlier(a, k, i, l)
        == earlier(a, k, i, l + 1) by {}
}

/// Whether the numbers go up and none occurs twice.
fn numbers_increase(segments: &Vec<Segment<'_>>) -> (result: bool)
    ensures
        result == distinct_numbers(segment_models(segments@)),
{
    let ghost s = segment_models(segments@);
    let mut i: usize = 1;
    while i < segments.len()
        invariant
            1 <= i,
            s == segment_models(segments@),
            forall|a: int, b: int|
                0 <= a < b < i && b < s.len() ==> (#[trigger] s[a]).header.number < (
                #[trigger] s[b]).header.number,
        decreases segments@.len() - i,
    {
        let low: u32 = segments[i - 1].header.segment_number;
        let high: u32 = segments[i].header.segment_number;
        assert(s[i - 1].header.number == low && s[i as int].header.number == high);
        if low >= high {
            return false;
        }
        i = i + 1;
    }
    true
}

/// The owner of an attached extension.
fn attachment(segments: &Vec<Segment<'_>>, i: usize, previous: Option<u32>) -> (owner: Option<u32>)
    requires
        i < segments@.len(),
        i > 0 ==> previous == attached(segment_models(segments@), i - 1),
    ensures
        owner == attached(segment_models(segments@), i as int),
{
    let ghost s = segment_models(segments@);
    let segment = &segments[i];
    assert(s[i as int] == segment@);
    if i == 0 || segment.header.segment_type != SegmentType::Extension
        || segment.header.referred_to_segments.len() != 1 {
        return None;
    }
    assert(s[i - 1] == segments@[i - 1]@);
    let owner: u32 = segment.header.referred_to_segments[0];
    let chained = match previous {
        Some(number) => number == owner,
        None => false,
    };
    if segments[i - 1].header.segment_number == owner || chained {
        Some(owner)
    } else {
        None
    }
}

/// Whether the owner of an extension has to be released by the end of the chain.
fn owner_must_be_released(
    segments: &Vec<Segment<'_>>,
    i: usize,
    owner: Option<u32>,
) -> (result: bool)
    requires
        i < segments@.len(),
        distinct_numbers(segment_models(segments@)),
        owner == attached(segment_models(segments@), i as int),
    ensures
        result == must_release(segment_models(segments@), i as int),
{
    let ghost s = segment_models(segments@);
    match owner {
        None => false,
        Some(number) => {
            match find_segment(segments, i, number) {
                None => false,
                Some(j) => {
                    proof {
                        assert(s[j as int] == segments@[j as int]@);
                        assert forall|other: int|
                            0 <= other < i && (#[trigger] s[other]).header.number
                                == number implies other == j by {
                            if other < j {
                                assert(s[other].header.number < s[j as int].header.number);
                            } else if j < other {
                                assert(s[j as int].header.number < s[other].header.number);
                            }
                        }
                    }
                    segments[j].header.deferred_non_retain && segments[j].header.page_association
                        != 0
                },
            }
        },
    }
}

/// The account of discarded segments before segment `i`.
spec fn discards(s: Seq<SegmentModel>, discarded: Seq<bool>, i: int) -> bool {
    &&& discarded.len() == i
    &&& forall|j: int| 0 <= j < i ==> #[trigger] discarded[j] == discarded_before(s, j, i)
}

/// Check one segment and its references, and mark the buffers that it takes.
fn check_segment(
    segments: &Vec<Segment<'_>>,
    i: usize,
    owner: Option<u32>,
    discarded: &Vec<bool>,
    consumed: &mut Vec<bool>,
) -> (valid: bool)
    requires
        i < segments@.len(),
        distinct_numbers(segment_models(segments@)),
        owner == attached(segment_models(segments@), i as int),
        discards(segment_models(segments@), discarded@, i as int),
        consumption(segment_models(segments@), old(consumed)@, i as int, 0),
    ensures
        valid ==> segment_ok(segment_models(segments@), i as int) && consumption(
            segment_models(segments@),
            final(consumed)@,
            i + 1,
            0,
        ),
        !valid ==> !segment_ok(segment_models(segments@), i as int) || conflict(
            segment_models(segments@),
            i + 1,
        ),
{
    let ghost s = segment_models(segments@);
    let segment = &segments[i];
    assert(s[i as int] == segment@);
    let kind = segment.header.segment_type;
    let count: usize = segment.header.referred_to_segments.len();
    if !has_valid_count(kind, count) {
        return false;
    }
    let mut tables: usize = 0;
    let mut k: usize = 0;
    while k < count
        invariant
            k <= count,
            count == segment.header.referred_to_segments@.len(),
            i < segments@.len(),
            s == segment_models(segments@),
            s[i as int] == segment@,
            kind == segment.header.segment_type,
            distinct_numbers(s),
            owner == attached(s, i as int),
            discards(s, discarded@, i as int),
            consumption(s, consumed@, i as int, k as int),
            forall|l: int| 0 <= l < k ==> #[trigger] reference_ok(s, i as int, l),
            tables == table_count(s, i as int, k as int),
            tables <= k,
        decreases count - k,
    {
        let number: u32 = segment.header.referred_to_segments[k];
        let j: usize = match find_segment(segments, i, number) {
            None => {
                proof {
                    assert(!reference_ok(s, i as int, k as int));
                }
                return false;
            },
            Some(j) => j,
        };
        let referred = &segments[j];
        proof {
            assert(s[j as int] == referred@);
            assert forall|other: int|
                0 <= other < i && (#[trigger] s[other]).header.number == number implies other
                == j by {
                if other < j {
                    assert(s[other].header.number < s[j as int].header.number);
                } else if j < other {
                    assert(s[j as int].header.number < s[other].header.number);
                }
            }
            assert(reference_ok(s, i as int, k as int) == refers_to(
                s,
                i as int,
                k as int,
                j as int,
            ));
        }
        let is_owner = match owner {
            Some(owned) => owned == number,
            None => false,
        };
        if discarded[j] || (referred.header.deferred_non_retain && !is_owner) {
            return false;
        }
        if referred.header.page_association != 0 && referred.header.page_association
            != segment.header.page_association {
            return false;
        }
        if !can_refer(kind, referred.header.segment_type) {
            return false;
        }
        proof {
            assert(table_reference(s, i as int, k as int) == (referred.header.segment_type
                == SegmentType::Tables));
            lemma_take(s, consumed@, i as int, k as int, j as int);
        }
        if referred.header.segment_type == SegmentType::Tables {
            tables = tables + 1;
        }
        if is_intermediate(referred.header.segment_type) && kind != SegmentType::Extension {
            if consumed[j] {
                return false;
            }
            consumed[j] = true;
        }
        k = k + 1;
    }
    proof {
        lemma_next_segment(s, consumed@, i as int);
    }
    let max_tables: usize = if kind == SegmentType::SymbolDictionary {
        4
    } else {
        8
    };
    kind == SegmentType::Extension || tables <= max_tables
}

/// Apply the retain bits of one segment.
///
/// Zero retention bits prohibit references in later segments; a later keep bit cannot resurrect a
/// discarded segment.
fn apply_retain_bits(segments: &Vec<Segment<'_>>, i: usize, discarded: &mut Vec<bool>)
    requires
        i < segments@.len(),
        distinct_numbers(segment_models(segments@)),
        discards(segment_models(segments@), old(discarded)@, i as int),
    ensures
        discards(segment_models(segments@), final(discarded)@, i + 1),
{
    let ghost s = segment_models(segments@);
    let segment = &segments[i];
    assert(s[i as int] == segment@);
    let count: usize = segment.header.referred_to_segments.len();
    let mut k: usize = 0;
    let ghost before = discarded@;
    while k < count
        invariant
            k <= count,
            count == segment.header.referred_to_segments@.len(),
            i < segments@.len(),
            s == segment_models(segments@),
            s[i as int] == segment@,
            distinct_numbers(s),
            discards(s, before, i as int),
            discarded@.len() == i,
            forall|j: int|
                0 <= j < i ==> #[trigger] discarded@[j] == (before[j] || exists|l: int|
                    l < k && #[trigger] gives_up(s, i as int, l, s[j].header.number)),
        decreases count - k,
    {
        let ghost last = discarded@;
        let number: u32 = segment.header.referred_to_segments[k];
        let mut target: Option<usize> = None;
        if !segment.header.retains(k + 1) {
            target = find_segment(segments, i, number);
            if let Some(j) = target {
                assert(s[j as int] == segments@[j as int]@);
                discarded[j] = true;
            }
        }
        proof {
            assert forall|j: int| 0 <= j < i implies #[trigger] discarded@[j] == (before[j]
                || exists|l: int|
                l < k + 1 && #[trigger] gives_up(s, i as int, l, s[j].header.number)) by {
                let other = s[j].header.number;
                assert(last[j] == (before[j] || exists|l: int|
                    l < k && #[trigger] gives_up(s, i as int, l, other)));
                if gives_up(s, i as int, k as int, other) {
                    assert(target is Some) by {
                        if target is None {
                            assert(s[j].header.number != number);
                        }
                    }
                    let t = target->0 as int;
                    if j < t {
                        assert(s[j].header.number < s[t].header.number);
                    } else if t < j {
                        assert(s[t].header.number < s[j].header.number);
                    }
                    assert(discarded@[j]);
                } else {
                    assert(discarded@[j] == last[j]) by {
                        if target is Some && target->0 == j {
                            assert(gives_up(s, i as int, k as int, other));
                        }
                    }
                    if exists|l: int| l < k + 1 && #[trigger] gives_up(s, i as int, l, other) {
                        let l = choose|l: int|
                            l < k + 1 && #[trigger] gives_up(s, i as int, l, other);
                        assert(l != k);
                        assert(l < k && gives_up(s, i as int, l, other));
                    }
                    if exists|l: int| l < k && #[trigger] gives_up(s, i as int, l, other) {
                        let l = choose|l: int| l < k && #[trigger] gives_up(s, i as int, l, other);
                        assert(l < k + 1 && gives_up(s, i as int, l, other));
                    }
                }
            }
        }
        k = k + 1;
    }
    let ghost inner = discarded@;
    discarded.push(!segment.header.retains(0));
    proof {
        assert forall|j: int| 0 <= j < i + 1 implies #[trigger] discarded@[j] == discarded_before(
            s,
            j,
            i + 1,
        ) by {
            let number = s[j].header.number;
            if j < i {
                assert(discarded@[j] == inner[j]);
                assert(before[j] == discarded_before(s, j, i as int));
                if discarded_before(s, j, i + 1) && s[j].header.retains(0) {
                    let (h, k) = choose|h: int, k: int|
                        j < h < i + 1 && #[trigger] gives_up(s, h, k, number);
                    if h < i {
                        assert(discarded_before(s, j, i as int));
                    } else {
                        assert(k < count && gives_up(s, i as int, k, number));
                    }
                }
                if exists|l: int|
                    l < count && #[trigger] gives_up(s, i as int, l, number) {
                    let l = choose|l: int|
                        l < count && #[trigger] gives_up(s, i as int, l, number);
                    assert(j < i < i + 1 && gives_up(s, i as int, l, number));
                }
            }
        }
    }
}

/// Check the references of all segments and their lifetimes. Gives for each segment whether its
/// content was taken.
fn check_references(segments: &Vec<Segment<'_>>) -> (result: Option<Vec<bool>>)
    ensures
        result is Some <==> references_ok(segment_models(segments@)),
        result matches Some(consumed) ==> {
            let s = segment_models(segments@);
            &&& consumed@.len() == s.len()
            &&& forall|j: int|
                0 <= j < s.len() && intermediate((#[trigger] s[j]).header.kind) ==> consumed@[j]
                    == taken_before(s, j, s.len() as int)
        },
{
    let ghost s = segment_models(segments@);
    if !numbers_increase(segments) {
        return None;
    }
    let mut consumed: Vec<bool> = Vec::new();
    let mut n: usize = 0;
    while n < segments.len()
        invariant
            n <= segments@.len(),
            consumed@.len() == n,
            forall|j: int| 0 <= j < n ==> !(#[trigger] consumed@[j]),
        decreases segments@.len() - n,
    {
        consumed.push(false);
        n = n + 1;
    }
    proof {
        assert forall|j: int|
            0 <= j < s.len() && intermediate((#[trigger] s[j]).header.kind) implies !taken_upto(
            s,
            j,
            0,
            0,
        ) by {
            if taken_upto(s, j, 0, 0) {
                let (a, k) = choose|a: int, k: int|
                    0 <= a && earlier(a, k, 0, 0) && #[trigger] takes(s, a, k, s[j].header.number);
                assert(k < 0);
            }
        }
        assert(consumption(s, consumed@, 0, 0));
    }
    let mut discarded: Vec<bool> = Vec::new();
    let mut owner: Option<u32> = None;
    let mut must_be_released = false;
    let mut i: usize = 0;
    while i < segments.len()
        invariant
            i <= segments@.len(),
            s == segment_models(segments@),
            distinct_numbers(s),
            discards(s, discarded@, i as int),
            consumption(s, consumed@, i as int, 0),
            i == 0 ==> owner is None && !must_be_released,
            i > 0 ==> owner == attached(s, i - 1) && must_be_released == must_release(s, i - 1),
            forall|h: int| 0 <= h < i ==> #[trigger] segment_ok(s, h),
            forall|h: int| 1 <= h < i ==> #[trigger] released_before(s, h),
        decreases segments@.len() - i,
    {
        let next = attachment(segments, i, owner);
        if must_be_released {
            assert(s[i - 1] == segments@[i - 1]@);
            if next != owner && segments[i - 1].header.retains(1) {
                proof {
                    assert(!released_before(s, i as int));
                }
                return None;
            }
        }
        proof {
            if i > 0 {
                assert(released_before(s, i as int));
            }
        }
        if !check_segment(segments, i, next, &discarded, &mut consumed) {
            proof {
                if conflict(s, i + 1) {
                    lemma_conflict(s, i + 1);
                }
            }
            return None;
        }
        apply_retain_bits(segments, i, &mut discarded);
        must_be_released = owner_must_be_released(segments, i, next);
        owner = next;
        i = i + 1;
    }
    if must_be_released {
        assert(s[i - 1] == segments@[i - 1]@);
        if segments[i - 1].header.retains(1) {
            proof {
                assert(!released_before(s, s.len() as int));
            }
            return None;
        }
    }
    proof {
        if i > 0 {
            assert(released_before(s, s.len() as int));
        }
        assert forall|j: int|
            0 <= j < s.len() && intermediate((#[trigger] s[j]).header.kind) implies taken_once(
            s,
            j,
            s.len() as int,
        ) && consumed@[j] == taken_before(s, j, s.len() as int) by {
            lemma_upto_end(s, j);
        }
    }
    Some(consumed)
}

proof fn lemma_upto_end(s: Seq<SegmentModel>, j: int)
    ensures
        once_upto(s, j, s.len() as int, 0) ==> taken_once(s, j, s.len() as int),
        taken_upto(s, j, s.len() as int, 0) == taken_before(s, j, s.len() as int),
{
    let number = s[j].header.number;
    let n = s.len() as int;
    assert forall|a: int, k: int| #[trigger] takes(s, a, k, number) implies earlier(a, k, n, 0)
        == (a < n) by {}
    if taken_upto(s, j, n, 0) {
        let (a, k) = choose|a: int, k: int|
            0 <= a && earlier(a, k, n, 0) && #[trigger] takes(s, a, k, number);
        assert(0 <= a < n && takes(s, a, k, number));
    }
    if taken_before(s, j, n) {
        let (a, k) = choose|a: int, k: int| 0 <= a < n && #[trigger] takes(s, a, k, number);
        assert(0 <= a && earlier(a, k, n, 0) && takes(s, a, k, number));
    }
}

/// Whether all global segments are independent of a page.
fn check_globals(segments: &Vec<Segment<'_>>) -> (valid: bool)
    ensures
        valid == globals_ok(segment_models(segments@)),
{
    let ghost s = segment_models(segments@);
    let mut i: usize = 0;
    while i < segments.len()
        invariant
            i <= segments@.len(),
            s == segment_models(segments@),
            forall|j: int| 0 <= j < i ==> is_global(#[trigger] s[j]),
        decreases segments@.len() - i,
    {
        let header = &segments[i].header;
        assert(s[i as int].header == header@);
        let kind = header.segment_type;
        let allowed = kind == SegmentType::SymbolDictionary || kind
            == SegmentType::PatternDictionary || kind == SegmentType::Profiles || kind
            == SegmentType::Tables || kind == SegmentType::Extension;
        if header.page_association != 0 || !allowed {
            return false;
        }
        i = i + 1;
    }
    true
}

/// Whether the segments are those of one page, led by its page information.
fn check_page(segments: &Vec<Segment<'_>>) -> (valid: bool)
    requires
        segments@.len() > 0,
    ensures
        valid == page_ok(segment_models(segments@)),
{
    let ghost s = segment_models(segments@);
    assert(s[0] == segments@[0]@);
    // PDF recommends normalization to one, but does not require it.
    let page: u32 = segments[0].header.page_association;
    if page == 0 {
        return false;
    }
    let mut leader: Option<usize> = None;
    let mut i: usize = 0;
    while i < segments.len()
        invariant
            i <= segments@.len(),
            s == segment_models(segments@),
            page == s[0].header.page,
            forall|j: int| 0 <= j < i ==> on_page(#[trigger] s[j], page),
            leader matches Some(l) ==> l < i && s[l as int].header.kind
                == SegmentType::PageInformation && forall|j: int|
                0 <= j < i && j != l ==> (#[trigger] s[j]).header.kind
                    != SegmentType::PageInformation,
            leader is None ==> forall|j: int|
                0 <= j < i ==> (#[trigger] s[j]).header.kind != SegmentType::PageInformation,
        decreases segments@.len() - i,
    {
        let header = &segments[i].header;
        assert(s[i as int].header == header@);
        let kind = header.segment_type;
        if header.page_association != page || kind == SegmentType::EndOfPage || kind
            == SegmentType::EndOfFile {
            assert(!on_page(s[i as int], page));
            return false;
        }
        if kind == SegmentType::PageInformation {
            if let Some(l) = leader {
                proof {
                    assert forall|h: int| !(#[trigger] leads_page(s, h)) by {
                        if leads_page(s, h) {
                            assert(s[l as int].header.kind == SegmentType::PageInformation);
                            assert(s[i as int].header.kind == SegmentType::PageInformation);
                        }
                    }
                }
                return false;
            }
            leader = Some(i);
        }
        i = i + 1;
    }
    let leader: usize = match leader {
        None => {
            return false;
        },
        Some(leader) => leader,
    };
    let lowest: u32 = segments[leader].header.segment_number;
    assert(s[leader as int] == segments@[leader as int]@);
    let mut i: usize = 0;
    while i < segments.len()
        invariant
            i <= segments@.len(),
            s == segment_models(segments@),
            leader < s.len(),
            lowest == s[leader as int].header.number,
            s[leader as int].header.kind == SegmentType::PageInformation,
            forall|j: int| 0 <= j < i ==> lowest <= (#[trigger] s[j]).header.number,
        decreases segments@.len() - i,
    {
        assert(s[i as int] == segments@[i as int]@);
        if segments[i].header.segment_number < lowest {
            proof {
                assert forall|h: int| !(#[trigger] leads_page(s, h)) by {
                    if leads_page(s, h) {
                        assert(s[leader as int].header.kind == SegmentType::PageInformation);
                        assert(s[i as int].header.number < lowest);
                    }
                }
            }
            return false;
        }
        i = i + 1;
    }
    proof {
        assert(leads_page(s, leader as int));
    }
    true
}

/// Put a segment behind all that have no higher number.
fn insert_segment<'a>(segments: &mut Vec<Segment<'a>>, segment: Segment<'a>)
    ensures
        segment_models(final(segments)@) == insert_by_number(
            segment_models(old(segments)@),
            segment@,
        ),
{
    let ghost s = segment_models(segments@);
    let ghost model = segment@;
    let number: u32 = segment.header.segment_number;
    let mut at: usize = segments.len();
    proof {
        assert(s.take(s.len() as int) =~= s);
        assert(s.skip(s.len() as int) =~= Seq::empty());
        assert(insert_by_number(s, model) =~= insert_by_number(s, model) + s.skip(s.len() as int));
    }
    while at > 0 && segments[at - 1].header.segment_number > number
        invariant
            at <= segments@.len(),
            segments@ == old(segments)@,
            s == segment_models(segments@),
            number == model.header.number,
            insert_by_number(s, model) == insert_by_number(s.take(at as int), model) + s.skip(
                at as int,
            ),
        decreases at,
    {
        proof {
            let shorter = s.take(at as int);
            assert(shorter.last() == segments@[at - 1]@);
            assert(shorter.drop_last() =~= s.take(at - 1));
            assert(insert_by_number(shorter, model) == insert_by_number(
                s.take(at - 1),
                model,
            ).push(shorter.last()));
            assert(insert_by_number(s.take(at - 1), model).push(shorter.last()) + s.skip(at as int)
                =~= insert_by_number(s.take(at - 1), model) + s.skip(at - 1));
        }
        at = at - 1;
    }
    segments.insert(at, segment);
    proof {
        let head = s.take(at as int);
        if at > 0 {
            assert(head.last() == old(segments)@[at - 1]@);
        }
        assert(insert_by_number(head, model) == head.push(model));
        assert(segment_models(segments@) =~= head.push(model) + s.skip(at as int));
    }
}

/// Sort segments by their numbers.
fn sort_segments<'a>(first: Vec<Segment<'a>>, second: Vec<Segment<'a>>) -> (sorted: Vec<Segment<'a>>)
    ensures
        segment_models(sorted@) == sorted_by_number(
            segment_models(first@) + segment_models(second@),
        ),
{
    let ghost all = segment_models(first@) + segment_models(second@);
    let mut rest = first;
    let mut second = second;
    rest.append(&mut second);
    proof {
        assert(segment_models(rest@) =~= all);
    }
    let mut reversed: Vec<Segment<'a>> = Vec::new();
    while rest.len() > 0
        invariant
            rest@.len() + reversed@.len() == all.len(),
            forall|j: int| 0 <= j < rest@.len() ==> (#[trigger] rest@[j])@ == all[j],
            forall|j: int|
                0 <= j < reversed@.len() ==> (#[trigger] reversed@[j])@ == all[all.len() - 1 - j],
        decreases rest@.len(),
    {
        match rest.pop() {
            Some(segment) => {
                reversed.push(segment);
            },
            None => {},
        }
    }
    let mut sorted: Vec<Segment<'a>> = Vec::new();
    proof {
        assert(all.take(0) =~= Seq::empty());
        assert(segment_models(sorted@) =~= Seq::empty());
    }
    while reversed.len() > 0
        invariant
            reversed@.len() <= all.len(),
            forall|j: int|
                0 <= j < reversed@.len() ==> (#[trigger] reversed@[j])@ == all[all.len() - 1 - j],
            segment_models(sorted@) == sorted_by_number(all.take(all.len() - reversed@.len())),
        decreases reversed@.len(),
    {
        let ghost done = all.len() - reversed@.len();
        match reversed.pop() {
            Some(segment) => {
                proof {
                    let longer = all.take(done + 1);
                    assert(longer.drop_last() =~= all.take(done));
                    assert(longer.last() == segment@);
                }
                insert_segment(&mut sorted, segment);
            },
            None => {},
        }
    }
    proof {
        assert(all.take(all.len() as int) =~= all);
    }
    sorted
}

/// Check one region against the page flags.
fn check_region(segments: &Vec<Segment<'_>>, flags: &PageFlags, i: usize, taken: bool) -> (result:
    Result<()>)
    requires
        i < segments@.len(),
        intermediate(segment_models(segments@)[i as int].header.kind) ==> taken == taken_before(
            segment_models(segments@),
            i as int,
            segments@.len() as int,
        ),
    ensures
        match region_error(segment_models(segments@), *flags, i as int) {
            Some(error) => result == Err::<(), DecodeError>(error),
            None => result is Ok,
        },
{
    let ghost s = segment_models(segments@);
    let segment = &segments[i];
    assert(s[i as int] == segment@);
    let kind = segment.header.segment_type;
    let refinement = is_refinement(kind);
    let stored = is_intermediate(kind);
    let region = refinement || stored || kind == SegmentType::ImmediateTextRegion || kind
        == SegmentType::ImmediateLosslessTextRegion || kind == SegmentType::ImmediateGenericRegion
        || kind == SegmentType::ImmediateLosslessGenericRegion || kind
        == SegmentType::ImmediateHalftoneRegion || kind
        == SegmentType::ImmediateLosslessHalftoneRegion;
    if !region {
        return Ok(());
    }
    if (refinement && !flags.might_contain_refinements) || (stored && !(
    flags.requires_auxiliary_buffers && taken)) {
        return Err(DecodeError::Format(FormatError::InvalidPdfEmbedding));
    }
    let mut reader = Reader::new(segment.data);
    let info = match parse_region_segment_info(&mut reader) {
        Err(error) => {
            return Err(error);
        },
        Ok(info) => info,
    };
    let page_refinement = refinement && segment.header.referred_to_segments.len() == 0;
    let operator_ok = if page_refinement {
        info.combination_operator == CombinationOperator::Replace
    } else {
        flags.combination_operator_overridden || info.combination_operator
            == flags.default_combination_operator
    };
    if info.colour_extension || !operator_ok {
        return Err(DecodeError::Format(FormatError::InvalidPdfEmbedding));
    }
    Ok(())
}

/// Check the page information and all regions.
fn check_regions(segments: &Vec<Segment<'_>>, consumed: &Vec<bool>) -> (result: Result<()>)
    requires
        consumed@.len() == segments@.len(),
        forall|j: int|
            0 <= j < segments@.len() && intermediate(
                (#[trigger] segment_models(segments@)[j]).header.kind,
            ) ==> consumed@[j] == taken_before(
                segment_models(segments@),
                j,
                segments@.len() as int,
            ),
    ensures
        match page_error(segment_models(segments@)) {
            Some(error) => result == Err::<(), DecodeError>(error),
            None => result is Ok,
        },
{
    let ghost s = segment_models(segments@);
    let mut at: usize = 0;
    while at < segments.len() && segments[at].header.segment_type != SegmentType::PageInformation
        invariant
            at <= segments@.len(),
            s == segment_models(segments@),
            page_info_index(s, 0) == page_info_index(s, at as int),
        decreases segments@.len() - at,
    {
        assert(s[at as int] == segments@[at as int]@);
        at = at + 1;
    }
    if at >= segments.len() {
        return Err(DecodeError::Format(FormatError::MissingPageInfo));
    }
    assert(s[at as int] == segments@[at as int]@);
    let info = match parse_page_information(segments[at].data) {
        Err(error) => {
            return Err(error);
        },
        Ok(info) => info,
    };
    if info.flags.might_contain_coloured {
        return Err(DecodeError::Format(FormatError::InvalidPdfEmbedding));
    }
    let mut i: usize = 0;
    while i < segments.len()
        invariant
            i <= segments@.len(),
            s == segment_models(segments@),
            consumed@.len() == segments@.len(),
            forall|j: int|
                0 <= j < s.len() && intermediate((#[trigger] s[j]).header.kind) ==> consumed@[j]
                    == taken_before(s, j, segments@.len() as int),
            page_error(s) == regions_error(s, info.flags, 0),
            regions_error(s, info.flags, 0) == regions_error(s, info.flags, i as int),
        decreases segments@.len() - i,
    {
        match check_region(segments, &info.flags, i, consumed[i]) {
            Err(error) => {
                return Err(error);
            },
            Ok(()) => {},
        }
        i = i + 1;
    }
    Ok(())
}

/// Parse the segments of an image embedded in a PDF file, and of its globals.
pub fn parse<'a>(data: &'a [u8], globals: Option<&'a [u8]>) -> (result: Result<Vec<Segment<'a>>>)
    ensures
        ({
            let global_bytes = match globals {
                Some(bytes) => bytes@,
                None => Seq::empty(),
            };
            match embedded(data@, global_bytes) {
                Err(error) => result == Err::<Vec<Segment<'a>>, DecodeError>(error),
                Ok(segments) => result matches Ok(found) && segment_models(found@) == segments,
            }
        }),
{
    let global_segments: Vec<Segment<'a>> = match globals {
        Some(bytes) => match parse_segments_sequential(bytes) {
            Err(error) => {
                return Err(error);
            },
            Ok(segments) => segments,
        },
        None => Vec::new(),
    };
    proof {
        if globals is None {
            assert(segment_models(global_segments@) =~= Seq::empty());
        }
    }
    if !check_globals(&global_segments) {
        return Err(DecodeError::Format(FormatError::InvalidPdfEmbedding));
    }
    let page_segments = match parse_segments_sequential(data) {
        Err(error) => {
            return Err(error);
        },
        Ok(segments) => segments,
    };
    if page_segments.len() == 0 {
        return Err(DecodeError::Format(FormatError::MissingPageInfo));
    }
    if !check_page(&page_segments) {
        return Err(DecodeError::Format(FormatError::InvalidPdfEmbedding));
    }
    let segments = sort_segments(global_segments, page_segments);
    // State is local to this image, even when another image shares its globals.
    let consumed = match check_references(&segments) {
        None => {
            return Err(DecodeError::Format(FormatError::InvalidPdfEmbedding));
        },
        Some(consumed) => consumed,
    };
    match check_regions(&segments, &consumed) {
        Err(error) => Err(error),
        Ok(()) => Ok(segments),
    }
}

proof fn lemma_insert_sorted(segments: Seq<SegmentModel>, segment: SegmentModel)
    requires
        ordered(segments),
    ensures
        ordered(insert_by_number(segments, segment)),
        insert_by_number(segments, segment).to_multiset() == segments.to_multiset().insert(segment),
        forall|i: int|
            0 <= i < insert_by_number(segments, segment).len() ==> {
                let number = (#[trigger] insert_by_number(segments, segment)[i]).header.number;
                number == segment.header.number || exists|j: int|
                    0 <= j < segments.len() && (#[trigger] segments[j]).header.number == number
            },
    decreases segments.len(),
{
    broadcast use vstd::seq_lib::group_to_multiset_ensures;

    let result = insert_by_number(segments, segment);
    if segments.len() == 0 || segments.last().header.number <= segment.header.number {
        assert forall|i: int| 0 <= i < result.len() implies {
            let number = (#[trigger] result[i]).header.number;
            number == segment.header.number || exists|j: int|
                0 <= j < segments.len() && (#[trigger] segments[j]).header.number == number
        } by {
            if i < segments.len() {
                assert(result[i] == segments[i]);
            }
        }
    } else {
        let shorter = segments.drop_last();
        let last = segments.last();
        let inner = insert_by_number(shorter, segment);
        assert(ordered(shorter));
        lemma_insert_sorted(shorter, segment);
        assert(segments =~= shorter.push(last));
        assert(inner.push(last).to_multiset() =~= segments.to_multiset().insert(segment));
        assert forall|i: int| 0 <= i < inner.len() implies (#[trigger] inner[i]).header.number
            <= last.header.number by {
            let number = inner[i].header.number;
            if number != segment.header.number {
                let j = choose|j: int|
                    0 <= j < shorter.len() && (#[trigger] shorter[j]).header.number == number;
                assert(segments[j].header.number <= segments[segments.len() - 1].header.number);
            }
        }
        assert forall|i: int| 0 <= i < result.len() implies {
            let number = (#[trigger] result[i]).header.number;
            number == segment.header.number || exists|j: int|
                0 <= j < segments.len() && (#[trigger] segments[j]).header.number == number
        } by {
            if i < inner.len() {
                let number = inner[i].header.number;
                assert(result[i] == inner[i]);
                if number != segment.header.number {
                    let j = choose|j: int|
                        0 <= j < shorter.len() && (#[trigger] shorter[j]).header.number == number;
                    assert(segments[j].header.number == number);
                }
            } else {
                assert(result[i] == segments[segments.len() - 1]);
            }
        }
    }
}

/// Sorting orders the segments by their numbers and neither drops nor adds one.
pub proof fn lemma_sorted_by_number(segments: Seq<SegmentModel>)
    ensures
        ordered(sorted_by_number(segments)),
        sorted_by_number(segments).to_multiset() == segments.to_multiset(),
    decreases segments.len(),
{
    broadcast use vstd::seq_lib::group_to_multiset_ensures;

    if segments.len() > 0 {
        lemma_sorted_by_number(segments.drop_last());
        lemma_insert_sorted(sorted_by_number(segments.drop_last()), segments.last());
        assert(segments =~= segments.drop_last().push(segments.last()));
    } else {
        assert(segments =~= Seq::empty());
    }
}

/// The segments of an accepted image are those of its globals and of its page, in the order of
/// their numbers, which are all different.
pub proof fn lemma_embedded_segments(data: Seq<u8>, globals: Seq<u8>)
    ensures
        embedded(data, globals) matches Ok(s) ==> {
            &&& segments_from(globals, 0) is Ok
            &&& segments_from(data, 0) is Ok
            &&& s.to_multiset() == (segments_from(globals, 0)->Ok_0 + segments_from(
                data,
                0,
            )->Ok_0).to_multiset()
            &&& distinct_numbers(s)
        },
{
    if embedded(data, globals) is Ok {
        lemma_sorted_by_number(
            segments_from(globals, 0)->Ok_0 + segments_from(data, 0)->Ok_0,
        );
    }
}

proof fn lemma_no_region_error(s: Seq<SegmentModel>, flags: PageFlags, from: int, i: int)
    requires
        regions_error(s, flags, from) is None,
        0 <= from <= i < s.len(),
    ensures
        region_error(s, flags, i) is None,
    decreases i - from,
{
    if from < i {
        lemma_no_region_error(s, flags, from + 1, i);
    }
}

/// In an accepted image each auxiliary buffer is taken by exactly one reference, which comes from
/// a refinement that follows it.
pub proof fn lemma_buffers_taken_once(data: Seq<u8>, globals: Seq<u8>, j: int)
    requires
        embedded(data, globals) is Ok,
        0 <= j < embedded(data, globals)->Ok_0.len(),
        intermediate(embedded(data, globals)->Ok_0[j].header.kind),
    ensures
        ({
            let s = embedded(data, globals)->Ok_0;
            let n = s.len() as int;
            &&& taken_once(s, j, n)
            &&& exists|i: int, k: int|
                j < i < n && refines(s[i].header.kind) && #[trigger] takes(
                    s,
                    i,
                    k,
                    s[j].header.number,
                )
        }),
{
    let s = embedded(data, globals)->Ok_0;
    let n = s.len() as int;
    let index = page_info_index(s, 0);
    let flags = page_info_of(s[index].data)->Ok_0.flags;
    lemma_no_region_error(s, flags, 0, j);
    assert(taken_before(s, j, n));
    let (i, k) = choose|i: int, k: int|
        0 <= i < n && #[trigger] takes(s, i, k, s[j].header.number);
    assert(segment_ok(s, i));
    assert(reference_ok(s, i, k));
    let target = choose|t: int| #[trigger] refers_to(s, i, k, t);
    if target < j {
        assert(s[target].header.number < s[j].header.number);
    } else if j < target {
        assert(s[j].header.number < s[target].header.number);
    }
    assert(takes(s, i, k, s[j].header.number) && j < i);
}

/// A segment that was given up is not referred to any more.
pub proof fn lemma_discarded_stays(s: Seq<SegmentModel>, i: int, k: int, j: int)
    requires
        references_ok(s),
        0 <= j < i < s.len(),
        0 <= k < s[i].header.refs.len(),
        discarded_before(s, j, i),
    ensures
        s[i].header.refs[k] != s[j].header.number,
{
    if s[i].header.refs[k] == s[j].header.number {
        assert(segment_ok(s, i));
        assert(reference_ok(s, i, k));
        let target = choose|t: int| #[trigger] refers_to(s, i, k, t);
        if target < j {
            assert(s[target].header.number < s[j].header.number);
        } else if j < target {
            assert(s[j].header.number < s[target].header.number);
        }
    }
}

} // verus!
