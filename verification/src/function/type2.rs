//! Type 2 functions (exponential functions).

use crate::function::double;
use crate::function::numeric::{
    array_values, clamper_of, is_present, present, values, Clamper, ClamperModel, MAX_COMPONENTS,
};
use crate::function::single::{rank, rank_of};
use crate::object::{Dict, Document, Number, Object};
use vstd::prelude::*;

verus! {

/// A type 2 function (exponential function).
#[derive(Debug)]
pub struct Type2 {
    /// Output constants at power zero.
    pub c0: Vec<u32>,
    /// Output constants at power one.
    pub c1: Vec<u32>,
    pub clamper: Clamper,
    /// The bits of the exponent in double precision.
    pub exponent: u64,
    /// Whether the exponent is an odd integer. Large integers can lose parity when they are
    /// converted to the exponent above.
    pub odd: bool,
}

/// An exponential function with sequences.
#[verifier::ext_equal]
pub struct Type2Model {
    pub c0: Seq<u32>,
    pub c1: Seq<u32>,
    pub clamper: ClamperModel,
    pub exponent: u64,
    pub odd: bool,
}

impl View for Type2 {
    type V = Type2Model;

    open spec fn view(&self) -> Type2Model {
        Type2Model {
            c0: self.c0@,
            c1: self.c1@,
            clamper: self.clamper@,
            exponent: self.exponent,
            odd: self.odd,
        }
    }
}

/// Output constants that may be absent.
pub open spec fn constants_of(
    doc: Document,
    dict: Dict,
    key: Seq<char>,
    default: u32,
) -> Option<Seq<u32>> {
    if is_present(doc, dict, key) {
        array_values(doc, dict, key, MAX_COMPONENTS as int)
    } else {
        Some(seq![default])
    }
}

/// The integer that an exponent is: written as one, or whole and at most 2^53 away from zero.
pub open spec fn integer_exponent(number: Number) -> Option<i64> {
    if number.integer is Some {
        number.integer
    } else if double::finite(number.double) && double::is_whole(number.double)
        && double::magnitude(number.double) <= 0x4340_0000_0000_0000 {
        Some(number.truncated)
    } else {
        None
    }
}

/// The power of every input in an interval is defined: negative inputs need an integer exponent,
/// and zero needs one that is not negative.
pub open spec fn power_defined(low: u32, high: u32, number: Number) -> bool {
    &&& double::finite(number.double)
    &&& rank(low) < 0 ==> integer_exponent(number) is Some
    &&& !(double::is_negative(number.double) && double::magnitude(number.double) != 0 && rank(low)
        <= 0 && rank(high) >= 0)
}

/// The exponential function of a dictionary.
pub open spec fn exponential_function(
    doc: Document,
    dict: Dict,
    bounded: spec_fn(Type2Model) -> bool,
) -> Option<Type2Model> {
    match (
        constants_of(doc, dict, "C0"@, 0),
        constants_of(doc, dict, "C1"@, 0x3F80_0000),
        clamper_of(doc, dict),
        doc.value(dict, "N"@),
    ) {
        (Some(c0), Some(c1), Some(clamper), Some(Object::Number(number))) => {
            let f = Type2Model {
                c0,
                c1,
                clamper,
                exponent: number.double,
                odd: integer_exponent(number) matches Some(n) && n as int % 2 != 0,
            };
            if c0.len() > 0 && c0.len() == c1.len() && clamper.domain.len() == 1 && (
            clamper.range matches Some(range) ==> range.len() == c0.len()) && power_defined(
                clamper.domain[0].low,
                clamper.domain[0].high,
                number,
            ) && bounded(f) {
                Some(f)
            } else {
                None
            }
        },
        _ => None,
    }
}

/// A function judges the outputs of exponential functions.
pub open spec fn bounds<F: Fn(&Type2) -> bool>(
    bound: F,
    bounded: spec_fn(Type2Model) -> bool,
) -> bool {
    forall|f: &Type2, ok: bool| #[trigger] call_ensures(bound, (f,), ok) ==> ok == bounded(f@)
}

/// A function judges the outputs of all exponential functions.
pub open spec fn bounds_all<F: Fn(&Type2) -> bool>(bound: F) -> bool {
    forall|f: &Type2| call_requires(bound, (f,))
}

fn read_constants(doc: &Document, dict: &Dict, key: &str, default: u32) -> (result: Option<
    Vec<u32>,
>)
    ensures
        match constants_of(*doc, *dict, key@, default) {
            None => result is None,
            Some(expected) => result matches Some(constants) && constants@ == expected,
        },
{
    if present(doc, dict, key) {
        return values(doc, dict, key, MAX_COMPONENTS);
    }
    let mut constants: Vec<u32> = Vec::new();
    constants.push(default);
    assert(constants@ =~= seq![default]);
    Some(constants)
}

fn read_integer_exponent(number: &Number) -> (result: Option<i64>)
    ensures
        result == integer_exponent(*number),
{
    if number.integer.is_some() {
        return number.integer;
    }
    if double::is_finite(number.double) && double::is_moderate(number.double)
        && double::has_no_fraction(number.double) {
        Some(number.truncated)
    } else {
        None
    }
}

/// Whether an integer is odd.
fn is_odd(n: i64) -> (odd: bool)
    ensures
        odd == (n as int % 2 != 0),
{
    let wide: i128 = n as i128;
    let size: u128 = if wide < 0 {
        (-wide) as u128
    } else {
        wide as u128
    };
    size % 2 == 1
}

impl Type2 {
    /// Read an exponential function.
    ///
    /// `bound` says whether all outputs are finite and precise enough.
    pub fn new<F: Fn(&Type2) -> bool>(doc: &Document, dict: &Dict, bound: &F) -> (result: Option<
        Self,
    >)
        requires
            bounds_all(*bound),
        ensures
            forall|bounded: spec_fn(Type2Model) -> bool| #[trigger]
                bounds(*bound, bounded) ==> match exponential_function(*doc, *dict, bounded) {
                    None => result is None,
                    Some(expected) => result matches Some(function) && function@ == expected,
                },
    {
        let (c0, c1, clamper) = match (
            read_constants(doc, dict, "C0", 0),
            read_constants(doc, dict, "C1", 0x3F80_0000),
            Clamper::new(doc, dict),
        ) {
            (Some(c0), Some(c1), Some(clamper)) => (c0, c1, clamper),
            _ => {
                return None;
            },
        };
        let range_fits = match &clamper.range {
            Some(range) => range.len() == c0.len(),
            None => true,
        };
        if c0.len() == 0 || c0.len() != c1.len() || clamper.domain.len() != 1 || !range_fits {
            return None;
        }
        let number = match doc.lookup(dict, "N") {
            Some(Object::Number(number)) => number,
            _ => {
                return None;
            },
        };
        let integer = read_integer_exponent(number);
        let low: i64 = rank_of(clamper.domain[0].low);
        let high: i64 = rank_of(clamper.domain[0].high);
        if !double::is_finite(number.double) || (low < 0 && integer.is_none()) || (
        double::is_below_zero(number.double) && low <= 0 && high >= 0) {
            return None;
        }
        let odd = match integer {
            Some(n) => is_odd(n),
            None => false,
        };
        let function = Type2 { c0, c1, clamper, exponent: number.double, odd };
        if bound(&function) {
            Some(function)
        } else {
            None
        }
    }

    /// The number of inputs and outputs.
    pub fn arity(&self) -> (arity: (usize, usize))
        ensures
            arity.0 == 1,
            arity.1 == self.c0@.len(),
    {
        (1, self.c0.len())
    }
}

} // verus!
