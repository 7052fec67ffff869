//! Bounded dictionary arrays of numbers.

use crate::function::single::{finite, is_finite, rank, rank_of};
use crate::object::{Dict, Document, Object};
use vstd::prelude::*;

verus! {

/// The greatest number of inputs or outputs of a function.
pub const MAX_COMPONENTS: usize = 64;

/// An interval, given by the bits of its bounds in single precision.
#[derive(Debug, Clone, Copy, PartialEq, Eq, Structural)]
pub struct Interval {
    pub low: u32,
    pub high: u32,
}

/// A key leads to an object other than null.
pub open spec fn is_present(doc: Document, dict: Dict, key: Seq<char>) -> bool {
    match doc.value(dict, key) {
        None => false,
        Some(Object::Null) => false,
        Some(_) => true,
    }
}

/// Whether a key leads to an object other than null.
pub fn present(doc: &Document, dict: &Dict, key: &str) -> (result: bool)
    ensures
        result == is_present(*doc, *dict, key@),
{
    match doc.lookup(dict, key) {
        None => false,
        Some(Object::Null) => false,
        Some(_) => true,
    }
}

/// The objects of an array, if all of them exist and there are not too many.
pub open spec fn array_objects(
    doc: Document,
    dict: Dict,
    key: Seq<char>,
    limit: int,
) -> Option<Seq<Object>> {
    match doc.value(dict, key) {
        Some(Object::Array(array)) => if array.items@.len() > limit || exists|i: int|
            0 <= i < array.items@.len() && doc.resolved(#[trigger] array.items@[i]) is None {
            None
        } else {
            Some(Seq::new(array.items@.len(), |i: int| doc.resolved(array.items@[i])->0))
        },
        _ => None,
    }
}

/// The objects of an array, if all of them exist and there are not too many.
pub fn objects<'a>(doc: &'a Document, dict: &'a Dict, key: &str, limit: usize) -> (result: Option<
    Vec<&'a Object>,
>)
    ensures
        match array_objects(*doc, *dict, key@, limit as int) {
            None => result is None,
            Some(expected) => {
                &&& result matches Some(objects)
                &&& objects@.len() == expected.len()
                &&& forall|i: int| 0 <= i < objects@.len() ==> *#[trigger] objects@[i] == expected[i]
            },
        },
{
    match doc.lookup(dict, key) {
        Some(Object::Array(array)) => {
            if array.items.len() > limit {
                return None;
            }
            let mut objects: Vec<&'a Object> = Vec::new();
            let mut i: usize = 0;
            while i < array.items.len()
                invariant
                    i <= array.items@.len() <= limit,
                    doc.value(*dict, key@) == Some(Object::Array(*array)),
                    objects@.len() == i,
                    forall|k: int|
                        0 <= k < i ==> doc.resolved(#[trigger] array.items@[k]) == Some(
                            *objects@[k],
                        ),
                decreases array.items@.len() - i,
            {
                match doc.resolve(&array.items[i]) {
                    None => {
                        assert(doc.resolved(array.items@[i as int]) is None);
                        return None;
                    },
                    Some(object) => {
                        objects.push(object);
                    },
                }
                i = i + 1;
            }
            assert forall|k: int| 0 <= k < objects@.len() implies *#[trigger] objects@[k]
                == doc.resolved(array.items@[k])->0 by {
                let item = array.items@[k];
            }
            Some(objects)
        },
        _ => None,
    }
}

/// An object is a finite number.
pub open spec fn is_finite_number(object: Object) -> bool {
    object matches Object::Number(number) && finite(number.narrowed)
}

/// The numbers of an array, if all of them are finite and there are not too many.
pub open spec fn array_values(
    doc: Document,
    dict: Dict,
    key: Seq<char>,
    limit: int,
) -> Option<Seq<u32>> {
    match array_objects(doc, dict, key, limit) {
        None => None,
        Some(objects) => if exists|i: int|
            0 <= i < objects.len() && !is_finite_number(#[trigger] objects[i]) {
            None
        } else {
            Some(Seq::new(objects.len(), |i: int| objects[i]->Number_0.narrowed))
        },
    }
}

/// The numbers of an array, if all of them are finite and there are not too many.
pub fn values(doc: &Document, dict: &Dict, key: &str, limit: usize) -> (result: Option<Vec<u32>>)
    ensures
        match array_values(*doc, *dict, key@, limit as int) {
            None => result is None,
            Some(expected) => result matches Some(values) && values@ == expected,
        },
{
    let objects = match objects(doc, dict, key, limit) {
        None => {
            return None;
        },
        Some(objects) => objects,
    };
    let ghost expected = array_objects(*doc, *dict, key@, limit as int)->0;
    let mut values: Vec<u32> = Vec::new();
    let mut i: usize = 0;
    while i < objects.len()
        invariant
            i <= objects@.len(),
            array_objects(*doc, *dict, key@, limit as int) == Some(expected),
            objects@.len() == expected.len(),
            forall|k: int| 0 <= k < objects@.len() ==> *#[trigger] objects@[k] == expected[k],
            values@.len() == i,
            forall|k: int|
                0 <= k < i ==> is_finite_number(#[trigger] expected[k]) && values@[k]
                    == expected[k]->Number_0.narrowed,
        decreases objects@.len() - i,
    {
        assert(*objects@[i as int] == expected[i as int]);
        match objects[i] {
            Object::Number(number) => {
                if !is_finite(number.narrowed) {
                    assert(!is_finite_number(expected[i as int]));
                    return None;
                }
                values.push(number.narrowed);
            },
            _ => {
                assert(!is_finite_number(expected[i as int]));
                return None;
            },
        }
        i = i + 1;
    }
    assert(values@ =~= Seq::new(expected.len(), |k: int| expected[k]->Number_0.narrowed));
    Some(values)
}

/// Numbers taken two by two.
pub open spec fn paired(values: Seq<u32>) -> Seq<Interval> {
    Seq::new(
        values.len() / 2,
        |i: int| Interval { low: values[2 * i], high: values[2 * i + 1] },
    )
}

/// The intervals of an array, if there are any and not too many.
pub open spec fn array_pairs(
    doc: Document,
    dict: Dict,
    key: Seq<char>,
    limit: int,
) -> Option<Seq<Interval>> {
    match array_values(doc, dict, key, 2 * limit) {
        None => None,
        Some(values) => if values.len() == 0 || values.len() % 2 != 0 {
            None
        } else {
            Some(paired(values))
        },
    }
}

/// The intervals of an array, if there are any and not too many.
pub fn pairs(doc: &Document, dict: &Dict, key: &str, limit: usize) -> (result: Option<
    Vec<Interval>,
>)
    requires
        limit <= 0x7FFF_FFFF,
    ensures
        match array_pairs(*doc, *dict, key@, limit as int) {
            None => result is None,
            Some(expected) => result matches Some(pairs) && pairs@ == expected,
        },
{
    let values = match values(doc, dict, key, 2 * limit) {
        None => {
            return None;
        },
        Some(values) => values,
    };
    if values.len() == 0 || values.len() % 2 != 0 {
        return None;
    }
    let total: usize = values.len();
    let count: usize = total / 2;
    let mut pairs: Vec<Interval> = Vec::new();
    let mut i: usize = 0;
    while i < count
        invariant
            i <= count,
            count == total / 2,
            total == values@.len(),
            pairs@.len() == i,
            forall|k: int| 0 <= k < i ==> #[trigger] pairs@[k] == paired(values@)[k],
        decreases count - i,
    {
        pairs.push(Interval { low: values[2 * i], high: values[2 * i + 1] });
        i = i + 1;
    }
    assert(pairs@ =~= paired(values@));
    Some(pairs)
}

/// The bounds of an interval are in order.
pub open spec fn in_order(interval: Interval) -> bool {
    rank(interval.low) <= rank(interval.high)
}

/// All intervals have their bounds in order.
pub open spec fn all_in_order(intervals: Seq<Interval>) -> bool {
    forall|i: int| 0 <= i < intervals.len() ==> in_order(#[trigger] intervals[i])
}

/// Whether all intervals have their bounds in order.
pub fn are_in_order(intervals: &Vec<Interval>) -> (result: bool)
    ensures
        result == all_in_order(intervals@),
{
    let mut i: usize = 0;
    while i < intervals.len()
        invariant
            i <= intervals@.len(),
            forall|k: int| 0 <= k < i ==> in_order(#[trigger] intervals@[k]),
        decreases intervals@.len() - i,
    {
        if rank_of(intervals[i].low) > rank_of(intervals[i].high) {
            assert(!in_order(intervals@[i as int]));
            return false;
        }
        i = i + 1;
    }
    true
}

/// The inputs and outputs that a function accepts and gives.
#[derive(Debug)]
pub struct Clamper {
    pub domain: Vec<Interval>,
    pub range: Option<Vec<Interval>>,
}

/// A clamper with sequences.
#[verifier::ext_equal]
pub struct ClamperModel {
    pub domain: Seq<Interval>,
    pub range: Option<Seq<Interval>>,
}

impl View for Clamper {
    type V = ClamperModel;

    open spec fn view(&self) -> ClamperModel {
        ClamperModel {
            domain: self.domain@,
            range: match self.range {
                Some(range) => Some(range@),
                None => None,
            },
        }
    }
}

/// The clamper of a function dictionary.
pub open spec fn clamper_of(doc: Document, dict: Dict) -> Option<ClamperModel> {
    match array_pairs(doc, dict, "Domain"@, MAX_COMPONENTS as int) {
        None => None,
        Some(domain) => if is_present(doc, dict, "Range"@) {
            match array_pairs(doc, dict, "Range"@, MAX_COMPONENTS as int) {
                None => None,
                Some(range) => if all_in_order(domain) && all_in_order(range) {
                    Some(ClamperModel { domain, range: Some(range) })
                } else {
                    None
                },
            }
        } else if all_in_order(domain) {
            Some(ClamperModel { domain, range: None })
        } else {
            None
        },
    }
}

/// A number brought into an interval.
pub open spec fn clamped(bits: u32, interval: Interval) -> u32 {
    let capped = if rank(bits) > rank(interval.high) {
        interval.high
    } else {
        bits
    };
    if rank(capped) < rank(interval.low) {
        interval.low
    } else {
        capped
    }
}

/// Numbers brought into their intervals.
pub open spec fn all_clamped(values: Seq<u32>, intervals: Seq<Interval>) -> Seq<u32> {
    Seq::new(
        values.len(),
        |i: int|
            if i < intervals.len() {
                clamped(values[i], intervals[i])
            } else {
                values[i]
            },
    )
}

/// Bring a number into an interval.
pub fn clamp(bits: u32, interval: Interval) -> (result: u32)
    ensures
        result == clamped(bits, interval),
{
    let capped: u32 = if rank_of(bits) > rank_of(interval.high) {
        interval.high
    } else {
        bits
    };
    if rank_of(capped) < rank_of(interval.low) {
        interval.low
    } else {
        capped
    }
}

/// Bring numbers into their intervals.
pub fn clamp_all(values: &Vec<u32>, intervals: &Vec<Interval>) -> (result: Vec<u32>)
    ensures
        result@ == all_clamped(values@, intervals@),
{
    let mut result: Vec<u32> = Vec::new();
    let mut i: usize = 0;
    while i < values.len()
        invariant
            i <= values@.len(),
            result@.len() == i,
            forall|k: int| 0 <= k < i ==> #[trigger] result@[k] == all_clamped(values@, intervals@)[k],
        decreases values@.len() - i,
    {
        if i < intervals.len() {
            result.push(clamp(values[i], intervals[i]));
        } else {
            result.push(values[i]);
        }
        i = i + 1;
    }
    assert(result@ =~= all_clamped(values@, intervals@));
    result
}

impl Clamper {
    /// Read the clamper of a function dictionary.
    pub fn new(doc: &Document, dict: &Dict) -> (result: Option<Self>)
        ensures
            match clamper_of(*doc, *dict) {
                None => result is None,
                Some(expected) => result matches Some(clamper) && clamper@ == expected,
            },
    {
        let domain = match pairs(doc, dict, "Domain", MAX_COMPONENTS) {
            None => {
                return None;
            },
            Some(domain) => domain,
        };
        if present(doc, dict, "Range") {
            match pairs(doc, dict, "Range", MAX_COMPONENTS) {
                None => None,
                Some(range) => if are_in_order(&domain) && are_in_order(&range) {
                    Some(Clamper { domain, range: Some(range) })
                } else {
                    None
                },
            }
        } else if are_in_order(&domain) {
            Some(Clamper { domain, range: None })
        } else {
            None
        }
    }

    /// Bring the inputs into the domain.
    pub fn clamp_input(&self, input: &Vec<u32>) -> (result: Vec<u32>)
        ensures
            result@ == all_clamped(input@, self@.domain),
    {
        clamp_all(input, &self.domain)
    }

    /// Bring the outputs into the range, if there is one.
    pub fn clamp_output(&self, output: Vec<u32>) -> (result: Vec<u32>)
        ensures
            result@ == match self@.range {
                Some(range) => all_clamped(output@, range),
                None => output@,
            },
    {
        match &self.range {
            Some(range) => clamp_all(&output, range),
            None => output,
        }
    }
}

/// A number that was clamped to an interval in order lies in it.
pub proof fn lemma_clamped(bits: u32, interval: Interval)
    requires
        in_order(interval),
    ensures
        rank(interval.low) <= rank(clamped(bits, interval)) <= rank(interval.high),
        rank(interval.low) <= rank(bits) <= rank(interval.high) ==> clamped(bits, interval) == bits,
{
}

} // verus!
