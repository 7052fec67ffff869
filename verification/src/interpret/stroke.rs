//! Stroke parameters.

use crate::function::double;
use crate::function::single;
use crate::function::transfer::ONE;
use crate::object::{spelled, spells, Array, Document, MaybeRef, Number, Object};
use crate::small_list::SmallList;
use crate::types::{Cap, Join};
use vstd::prelude::*;

verus! {

/// The bits of one in double precision.
pub const DOUBLE_ONE: u64 = 0x3FF0_0000_0000_0000;

/// A number that is forced to a minimum before it is narrowed.
///
/// None, if narrowing overflows or turns a positive number into zero.
pub open spec fn bounded(number: Number, minimum: u64, narrowed_minimum: u32) -> Option<u32> {
    if !double::finite(number.double) {
        None
    } else if double::rank(number.double) < double::rank(minimum) {
        Some(narrowed_minimum)
    } else if single::finite(number.narrowed) && (double::rank(number.double) == 0 || single::rank(
        number.narrowed,
    ) > 0) {
        Some(number.narrowed)
    } else {
        None
    }
}

fn bounded_number(number: Number, minimum: u64, narrowed_minimum: u32) -> (result: Option<u32>)
    ensures
        result == bounded(number, minimum, narrowed_minimum),
{
    if !double::is_finite(number.double) {
        return None;
    }
    if double::rank_of(number.double) < double::rank_of(minimum) {
        return Some(narrowed_minimum);
    }
    if single::is_finite(number.narrowed) && (double::rank_of(number.double) == 0
        || single::rank_of(number.narrowed) > 0) {
        Some(number.narrowed)
    } else {
        None
    }
}

/// The line cap of an integer code.
pub open spec fn cap_of(number: Number) -> Option<Cap> {
    match number.integer {
        None => None,
        Some(code) => Some(
            if code <= 0 {
                Cap::Butt
            } else if code == 1 {
                Cap::Round
            } else {
                Cap::Square
            },
        ),
    }
}

/// The line join of an integer code.
pub open spec fn join_of(number: Number) -> Option<Join> {
    match number.integer {
        None => None,
        Some(code) => Some(
            if code <= 0 {
                Join::Miter
            } else if code == 1 {
                Join::Round
            } else {
                Join::Bevel
            },
        ),
    }
}

/// Stroke properties. Numbers are given by their bits in single precision.
#[derive(Clone, Debug)]
pub struct StrokeProps {
    /// The line width.
    pub line_width: u32,
    /// The line cap.
    pub line_cap: Cap,
    /// The line join.
    pub line_join: Join,
    /// The miter limit.
    pub miter_limit: u32,
    /// The dash array.
    pub dash_array: SmallList,
    /// The dash offset.
    pub dash_offset: u32,
    /// Whether device-dependent automatic stroke adjustment is enabled.
    ///
    /// Devices must retain it because its effect depends on the final user-to-device transform.
    pub automatic_adjustment: bool,
}

impl Default for StrokeProps {
    fn default() -> (props: Self)
        ensures
            props.line_width == ONE,
            props.line_cap == Cap::Butt,
            props.line_join == Join::Miter,
            // The bits of ten.
            props.miter_limit == 0x4120_0000,
            props.dash_array@.len() == 0,
            props.dash_offset == 0,
            !props.automatic_adjustment,
    {
        StrokeProps {
            line_width: ONE,
            line_cap: Cap::Butt,
            line_join: Join::Miter,
            miter_limit: 0x4120_0000,
            dash_array: SmallList::from_vec(Vec::new()),
            dash_offset: 0,
            automatic_adjustment: false,
        }
    }
}

/// The parameters that numbers set.
#[derive(Clone, Debug, Copy, PartialEq, Eq, Structural)]
pub enum StrokeParameter {
    LineWidth,
    LineCap,
    LineJoin,
    MiterLimit,
}

impl StrokeProps {
    /// Read a finite line width, clamping negative values to zero.
    ///
    /// There is none if narrowing would overflow or turn a positive width into the distinct
    /// zero-width device hairline.
    pub fn read_line_width(number: Number) -> (width: Option<u32>)
        ensures
            width == bounded(number, 0, 0),
    {
        bounded_number(number, 0, 0)
    }

    /// Read a miter limit, bounded below by the unit miter ratio.
    ///
    /// Nonfinite values and values too large for single precision fail.
    pub fn read_miter_limit(number: Number) -> (limit: Option<u32>)
        ensures
            limit == bounded(number, DOUBLE_ONE, ONE),
    {
        bounded_number(number, DOUBLE_ONE, ONE)
    }

    /// Read an integer line-cap code and clamp it to the range 0 through 2.
    ///
    /// Real objects are not integer codes, even when their value is integral.
    pub fn read_line_cap(number: Number) -> (cap: Option<Cap>)
        ensures
            cap == cap_of(number),
    {
        match number.integer {
            None => None,
            Some(code) => Some(
                if code <= 0 {
                    Cap::Butt
                } else if code == 1 {
                    Cap::Round
                } else {
                    Cap::Square
                },
            ),
        }
    }

    /// Read an integer line-join code and clamp it to the range 0 through 2.
    ///
    /// Real objects are not integer codes, even when their value is integral.
    pub fn read_line_join(number: Number) -> (join: Option<Join>)
        ensures
            join == join_of(number),
    {
        match number.integer {
            None => None,
            Some(code) => Some(
                if code <= 0 {
                    Join::Miter
                } else if code == 1 {
                    Join::Round
                } else {
                    Join::Bevel
                },
            ),
        }
    }

    /// Set a stroke parameter. A parameter that cannot be read stays as it is, and a warning is
    /// due.
    pub fn set_stroke_parameter(&mut self, parameter: StrokeParameter, number: Option<Number>) -> (
    applied: bool)
        ensures
            applied == (number matches Some(number) && match parameter {
                StrokeParameter::LineWidth => bounded(number, 0, 0) is Some,
                StrokeParameter::LineCap => cap_of(number) is Some,
                StrokeParameter::LineJoin => join_of(number) is Some,
                StrokeParameter::MiterLimit => bounded(number, DOUBLE_ONE, ONE) is Some,
            }),
            *final(self) == (if !applied {
                *old(self)
            } else {
                match parameter {
                    StrokeParameter::LineWidth => StrokeProps {
                        line_width: bounded(number->0, 0, 0)->0,
                        ..*old(self)
                    },
                    StrokeParameter::LineCap => StrokeProps {
                        line_cap: cap_of(number->0)->0,
                        ..*old(self)
                    },
                    StrokeParameter::LineJoin => StrokeProps {
                        line_join: join_of(number->0)->0,
                        ..*old(self)
                    },
                    StrokeParameter::MiterLimit => StrokeProps {
                        miter_limit: bounded(number->0, DOUBLE_ONE, ONE)->0,
                        ..*old(self)
                    },
                }
            }),
    {
        let number = match number {
            None => {
                return false;
            },
            Some(number) => number,
        };
        match parameter {
            StrokeParameter::LineWidth => match Self::read_line_width(number) {
                Some(value) => {
                    self.line_width = value;
                    true
                },
                None => false,
            },
            StrokeParameter::LineCap => match Self::read_line_cap(number) {
                Some(value) => {
                    self.line_cap = value;
                    true
                },
                None => false,
            },
            StrokeParameter::LineJoin => match Self::read_line_join(number) {
                Some(value) => {
                    self.line_join = value;
                    true
                },
                None => false,
            },
            StrokeParameter::MiterLimit => match Self::read_miter_limit(number) {
                Some(value) => {
                    self.miter_limit = value;
                    true
                },
                None => false,
            },
        }
    }
}

/// The parameter of a key of an extended graphics state.
pub open spec fn parameter_of(key: Seq<u8>) -> Option<StrokeParameter> {
    if spelled(key, "LW"@) {
        Some(StrokeParameter::LineWidth)
    } else if spelled(key, "LC"@) {
        Some(StrokeParameter::LineCap)
    } else if spelled(key, "LJ"@) {
        Some(StrokeParameter::LineJoin)
    } else if spelled(key, "ML"@) {
        Some(StrokeParameter::MiterLimit)
    } else {
        None
    }
}

impl StrokeParameter {
    /// The parameter of a key of an extended graphics state.
    pub fn from_key(key: &[u8]) -> (parameter: Option<Self>)
        ensures
            parameter == parameter_of(key@),
    {
        if spells(key, "LW") {
            Some(StrokeParameter::LineWidth)
        } else if spells(key, "LC") {
            Some(StrokeParameter::LineCap)
        } else if spells(key, "LJ") {
            Some(StrokeParameter::LineJoin)
        } else if spells(key, "ML") {
            Some(StrokeParameter::MiterLimit)
        } else {
            None
        }
    }
}

/// A line width is never negative, and a miter limit is at least one.
pub proof fn lemma_bounded(number: Number)
    requires
        double::rank(number.double) == 0 ==> single::rank(number.narrowed) == 0,
        double::rank(number.double) >= double::rank(DOUBLE_ONE) ==> single::rank(number.narrowed)
            >= single::rank(ONE),
    ensures
        bounded(number, 0, 0) matches Some(width) ==> single::rank(width) >= 0,
        bounded(number, DOUBLE_ONE, ONE) matches Some(limit) ==> single::rank(limit)
            >= single::rank(ONE),
{
}

/// A completely decoded line dash pattern, in user-space units.
#[derive(Clone, Debug)]
pub struct DashPattern {
    /// Alternating dash and gap lengths. Zero lengths are significant.
    pub array: SmallList,
    /// Distance into the cyclic pattern at the start of each subpath.
    pub phase: u32,
}

/// A length of a dash or a gap.
pub open spec fn length_of(doc: Document, item: MaybeRef) -> Option<u32> {
    match doc.resolved(item) {
        Some(Object::Number(number)) => if single::finite(number.narrowed) && single::rank(
            number.narrowed,
        ) >= 0 {
            Some(number.narrowed)
        } else {
            None
        },
        _ => None,
    }
}

/// The lengths of a dash array, if all are given, and one is not zero where there are any.
pub open spec fn lengths_of(doc: Document, items: Seq<MaybeRef>) -> Option<Seq<u32>> {
    let all = Seq::new(items.len(), |i: int| length_of(doc, items[i])->0);
    if forall|i: int| 0 <= i < items.len() ==> length_of(doc, #[trigger] items[i]) is Some {
        if items.len() == 0 || exists|i: int| 0 <= i < all.len() && single::rank(#[trigger] all[i])
            > 0 {
            Some(all)
        } else {
            None
        }
    } else {
        None
    }
}

impl DashPattern {
    /// Validate an array of lengths and a phase. No successfully decoded prefix of an invalid
    /// array is accepted.
    pub fn new(doc: &Document, array: &Array, phase: Number) -> (pattern: Option<Self>)
        ensures
            match lengths_of(*doc, array.items@) {
                Some(lengths) => if single::finite(phase.single) {
                    pattern matches Some(pattern) && pattern.array@ == lengths && pattern.phase
                        == phase.single
                } else {
                    pattern is None
                },
                None => pattern is None,
            },
    {
        let mut lengths: Vec<u32> = Vec::new();
        let mut positive = false;
        let mut i: usize = 0;
        let ghost all = Seq::new(
            array.items@.len(),
            |k: int| length_of(*doc, array.items@[k])->0,
        );
        while i < array.items.len()
            invariant
                i <= array.items@.len() == all.len(),
                all == Seq::new(
                    array.items@.len(),
                    |k: int| length_of(*doc, array.items@[k])->0,
                ),
                lengths@ == all.take(i as int),
                forall|k: int|
                    0 <= k < i ==> length_of(*doc, #[trigger] array.items@[k]) is Some,
                positive == exists|k: int| 0 <= k < i && single::rank(#[trigger] all[k]) > 0,
            decreases array.items@.len() - i,
        {
            match doc.resolve(&array.items[i]) {
                Some(Object::Number(number)) => {
                    let length: u32 = number.narrowed;
                    if !single::is_finite(length) || single::rank_of(length) < 0 {
                        assert(length_of(*doc, array.items@[i as int]) is None);
                        return None;
                    }
                    assert(all[i as int] == length);
                    assert(all.take(i + 1) =~= all.take(i as int).push(length));
                    if single::rank_of(length) > 0 {
                        positive = true;
                    }
                    lengths.push(length);
                },
                _ => {
                    assert(length_of(*doc, array.items@[i as int]) is None);
                    return None;
                },
            }
            i = i + 1;
        }
        assert(all.take(i as int) =~= all);
        if !single::is_finite(phase.single) || (lengths.len() != 0 && !positive) {
            return None;
        }
        Some(DashPattern { array: SmallList::from_vec(lengths), phase: phase.single })
    }

    /// Decode the exact two-element array used by a `D` entry of an extended graphics state.
    pub fn from_ext_g_state(doc: &Document, array: &Array) -> (pattern: Option<Self>)
        ensures
            match dash_entry(*doc, *array) {
                Some((lengths, phase)) => pattern matches Some(pattern) && pattern.array@ == lengths
                    && pattern.phase == phase,
                None => pattern is None,
            },
    {
        if array.items.len() != 2 {
            return None;
        }
        match (doc.resolve(&array.items[0]), doc.resolve(&array.items[1])) {
            (Some(Object::Array(lengths)), Some(Object::Number(phase))) => Self::new(
                doc,
                lengths,
                *phase,
            ),
            _ => None,
        }
    }
}

/// The lengths and the phase of an entry of an extended graphics state.
pub open spec fn dash_entry(doc: Document, array: Array) -> Option<(Seq<u32>, u32)> {
    if array.items@.len() != 2 {
        None
    } else {
        match (doc.resolved(array.items@[0]), doc.resolved(array.items@[1])) {
            (Some(Object::Array(lengths)), Some(Object::Number(phase))) => match lengths_of(
                doc,
                lengths.items@,
            ) {
                Some(lengths) => if single::finite(phase.single) {
                    Some((lengths, phase.single))
                } else {
                    None
                },
                None => None,
            },
            _ => None,
        }
    }
}

/// The bits of a hundredth.
pub const SHORT_DASH: u32 = 0x3C23_D70A;

/// A length as strokers can take it: not exactly zero.
pub open spec fn strokeable(length: u32) -> u32 {
    if single::rank(length) == 0 {
        SHORT_DASH
    } else {
        length
    }
}

/// The number of leading numbers of an array.
pub open spec fn leading_numbers(doc: Document, items: Seq<MaybeRef>) -> nat
    decreases items.len(),
{
    if items.len() > 0 && doc.resolved(items[0]) matches Some(Object::Number(_)) {
        1 + leading_numbers(doc, items.skip(1))
    } else {
        0
    }
}

/// The lengths of the dash operator: the leading numbers, without zeros.
pub open spec fn operator_lengths(doc: Document, items: Seq<MaybeRef>) -> Seq<u32> {
    Seq::new(
        leading_numbers(doc, items),
        |i: int| strokeable(doc.resolved(items[i])->0->Number_0.narrowed),
    )
}

/// The lengths of the dash operator.
pub fn dash_operands(doc: &Document, array: &Array) -> (lengths: SmallList)
    ensures
        lengths@ == operator_lengths(*doc, array.items@),
{
    let mut lengths: Vec<u32> = Vec::new();
    let mut i: usize = 0;
    assert(array.items@.skip(0) =~= array.items@);
    while i < array.items.len()
        invariant
            i <= array.items@.len(),
            lengths@.len() == i,
            leading_numbers(*doc, array.items@) == i + leading_numbers(
                *doc,
                array.items@.skip(i as int),
            ),
            forall|k: int|
                0 <= k < i ==> #[trigger] lengths@[k] == strokeable(
                    doc.resolved(array.items@[k])->0->Number_0.narrowed,
                ),
        decreases array.items@.len() - i,
    {
        assert(array.items@.skip(i as int)[0] == array.items@[i as int]);
        assert(array.items@.skip(i as int).skip(1) =~= array.items@.skip(i + 1));
        match doc.resolve(&array.items[i]) {
            Some(Object::Number(number)) => {
                let length: u32 = number.narrowed;
                lengths.push(
                    if single::rank_of(length) == 0 {
                        SHORT_DASH
                    } else {
                        length
                    },
                );
            },
            _ => {
                assert(lengths@ =~= operator_lengths(*doc, array.items@));
                return SmallList::from_vec(lengths);
            },
        }
        i = i + 1;
    }
    assert(lengths@ =~= operator_lengths(*doc, array.items@));
    SmallList::from_vec(lengths)
}

/// No length that a stroker is given is zero.
pub proof fn lemma_strokeable(length: u32)
    ensures
        single::rank(strokeable(length)) != 0,
{
}

} // verus!
