//! What holds of the functions that objects are.

use crate::function::definition::{
    are_children_at, arity_of, bound_increases, is_function, is_function_at, stitched,
    FunctionModel, Judgements, Read, ReadAll,
};
use crate::function::double;
use crate::function::eval::{value_of, Results};
use crate::function::eval_laws::{brought_into, is_interval, lemma_brought_into};
use crate::function::instruction::CalculatorInstruction;
use crate::function::numeric::{
    array_objects, array_pairs, array_values, clamper_of, is_present, ClamperModel, Interval,
};
use crate::function::program::{named_op, operator_named, outcome, OpModel};
use crate::function::sampling::places_along;
use crate::function::single::{
    finite, is_whole_part, lemma_rank, scaled, small_bits, whole, WholePart,
};
use crate::function::transfer::{
    applied, is_transfer, selected_transfer, transferred, QuantizationResults, TransferFunction,
};
use crate::function::type0::{entries, neighbors, sampled_function, SampledCheck};
use crate::function::type2::{exponential_function, integer_exponent, Type2Model};
use crate::object::{Dict, Document, MaybeRef, Object, Stream};
use vstd::arithmetic::power2::pow2;
use vstd::prelude::*;

verus! {

/// The items of the array that a key leads to.
pub open spec fn items_under(doc: Document, dict: Dict, key: Seq<char>) -> Option<Seq<MaybeRef>> {
    match doc.value(dict, key) {
        Some(Object::Array(array)) => Some(array.items@),
        _ => None,
    }
}

/// An item leads to a finite number with the given bits.
pub open spec fn leads_to(doc: Document, item: MaybeRef, bits: u32) -> bool {
    doc.resolved(item) matches Some(Object::Number(number)) && number.narrowed == bits && finite(
        bits,
    )
}

/// The numbers of an array are those that its items lead to, in order. There are none if an item
/// leads to anything else, or if the items are too many.
pub proof fn lemma_array_values(doc: Document, dict: Dict, key: Seq<char>, limit: int)
    ensures
        match array_values(doc, dict, key, limit) {
            Some(values) => {
                &&& items_under(doc, dict, key) matches Some(items)
                &&& items.len() <= limit
                &&& values.len() == items.len()
                &&& forall|i: int|
                    0 <= i < items.len() ==> leads_to(doc, items[i], #[trigger] values[i])
            },
            None => items_under(doc, dict, key) matches Some(items) ==> items.len() > limit
                || exists|i: int|
                0 <= i < items.len() && !(doc.resolved(#[trigger] items[i]) matches Some(
                    Object::Number(number),
                ) && finite(number.narrowed)),
        },
{
    if items_under(doc, dict, key) is Some {
        let items = items_under(doc, dict, key)->0;
        match array_objects(doc, dict, key, limit) {
            Some(objects) => {
                assert forall|i: int| 0 <= i < items.len() implies doc.resolved(
                    #[trigger] items[i],
                ) == Some(objects[i]) by {}
                if array_values(doc, dict, key, limit) is None {
                    let i = choose|i: int|
                        0 <= i < objects.len() && !crate::function::numeric::is_finite_number(
                            #[trigger] objects[i],
                        );
                    assert(doc.resolved(items[i]) == Some(objects[i]));
                } else {
                    let values = array_values(doc, dict, key, limit)->0;
                    assert forall|i: int| 0 <= i < items.len() implies leads_to(
                        doc,
                        items[i],
                        #[trigger] values[i],
                    ) by {
                        assert(doc.resolved(items[i]) == Some(objects[i]));
                    }
                }
            },
            None => {
                if items.len() <= limit {
                    let i = choose|i: int|
                        0 <= i < items.len() && doc.resolved(#[trigger] items[i]) is None;
                    assert(doc.resolved(items[i]) is None);
                }
            },
        }
    }
}

/// Intervals are pairs of the numbers of an array: the first of a pair is its low end, the second
/// its high end. An odd number of numbers, or none, makes no intervals.
pub proof fn lemma_array_pairs(doc: Document, dict: Dict, key: Seq<char>, limit: int)
    ensures
        match array_pairs(doc, dict, key, limit) {
            Some(pairs) => {
                &&& items_under(doc, dict, key) matches Some(items)
                &&& items.len() == 2 * pairs.len()
                &&& 1 <= pairs.len() <= limit
                &&& forall|i: int|
                    0 <= i < pairs.len() ==> leads_to(doc, items[2 * i], (#[trigger] pairs[i]).low)
                        && leads_to(doc, items[2 * i + 1], pairs[i].high)
            },
            None => array_values(doc, dict, key, 2 * limit) matches Some(values) ==> values.len()
                == 0 || values.len() % 2 == 1,
        },
{
    lemma_array_values(doc, dict, key, 2 * limit);
    if array_pairs(doc, dict, key, limit) is Some {
        let values = array_values(doc, dict, key, 2 * limit)->0;
        let pairs = array_pairs(doc, dict, key, limit)->0;
        let items = items_under(doc, dict, key)->0;
        assert forall|i: int| 0 <= i < pairs.len() implies leads_to(
            doc,
            items[2 * i],
            (#[trigger] pairs[i]).low,
        ) && leads_to(doc, items[2 * i + 1], pairs[i].high) by {
            assert(leads_to(doc, items[2 * i], values[2 * i]));
            assert(leads_to(doc, items[2 * i + 1], values[2 * i + 1]));
        }
    }
}

/// A function has a domain, and a range if its entry is there and not null. All intervals have
/// their ends in order.
pub proof fn lemma_clamper(doc: Document, dict: Dict)
    ensures
        clamper_of(doc, dict) matches Some(clamper) ==> {
            &&& array_pairs(doc, dict, "Domain"@, 64) == Some(clamper.domain)
            &&& forall|i: int|
                0 <= i < clamper.domain.len() ==> is_interval(#[trigger] clamper.domain[i])
            &&& match clamper.range {
                None => doc.value(dict, "Range"@) is None || doc.value(dict, "Range"@) == Some(
                    Object::Null,
                ),
                Some(range) => array_pairs(doc, dict, "Range"@, 64) == Some(range) && forall|i: int|
                    0 <= i < range.len() ==> is_interval(#[trigger] range[i]),
            }
        },
{
    if clamper_of(doc, dict) is Some {
        let clamper = clamper_of(doc, dict)->0;
        assert forall|i: int| 0 <= i < clamper.domain.len() implies is_interval(
            #[trigger] clamper.domain[i],
        ) by {
            lemma_rank(clamper.domain[i].high, clamper.domain[i].low);
        }
        if clamper.range is Some {
            let range = clamper.range->0;
            assert forall|i: int| 0 <= i < range.len() implies is_interval(#[trigger] range[i]) by {
                lemma_rank(range[i].high, range[i].low);
            }
        }
    }
}

/// The number of a small whole number's bits is the number.
pub proof fn lemma_small_bits(value: int)
    requires
        exists|bits: u32|
            bits < 0x8000_0000 && finite(bits) && #[trigger] scaled(bits) == value * pow2(149),
    ensures
        scaled(small_bits(value)) == value * pow2(149),
        finite(small_bits(value)),
{
    let witness = choose|bits: u32|
        bits < 0x8000_0000 && finite(bits) && #[trigger] scaled(bits) == value * pow2(149);
    assert(scaled(witness) == whole(value));
}

/// The entries of a sampled function stand under their own keys. Without an order interpolation
/// is linear; without a map samples lie along the inputs, and outputs along the range.
pub proof fn lemma_sampled_entries(
    doc: Document,
    stream: Stream,
    precise: spec_fn(SampledCheck) -> bool,
)
    ensures
        sampled_function(doc, stream, precise) matches Some(f) ==> {
            let dict = stream.dict;
            &&& doc.value(dict, "BitsPerSample"@) matches Some(Object::Number(n)) && n.integer
                == Some(f.bits as i64)
            &&& f.bits == 1 || f.bits == 2 || f.bits == 4 || f.bits == 8 || f.bits == 12 || f.bits
                == 16 || f.bits == 24 || f.bits == 32
            &&& array_pairs(doc, dict, "Domain"@, 64) == Some(f.domain)
            &&& array_pairs(doc, dict, "Range"@, 64) == Some(f.range)
            &&& f.sizes.len() == f.domain.len()
            &&& f.encode.len() == f.domain.len()
            &&& f.decode.len() == f.range.len()
            &&& forall|i: int| 0 <= i < f.sizes.len() ==> #[trigger] f.sizes[i] >= 1
            &&& match dict.raw("Order"@) {
                None => !f.cubic,
                Some(order) => doc.resolved(order) matches Some(Object::Number(n)) && n.integer
                    == Some(
                    if f.cubic {
                        3i64
                    } else {
                        1i64
                    },
                ),
            }
            &&& match dict.raw("Encode"@) {
                None => forall|i: int|
                    0 <= i < f.encode.len() ==> (#[trigger] f.encode[i]).low == 0
                        && f.encode[i].high == small_bits(f.sizes[i] - 1),
                Some(_) => array_pairs(doc, dict, "Encode"@, 64) == Some(f.encode),
            }
            &&& match dict.raw("Decode"@) {
                None => f.decode == f.range,
                Some(_) => array_pairs(doc, dict, "Decode"@, 64) == Some(f.decode),
            }
        },
{
    if sampled_function(doc, stream, precise) is Some {
        let f = sampled_function(doc, stream, precise)->0;
        let objects = array_objects(doc, stream.dict, "Size"@, 64)->0;
        assert forall|i: int| 0 <= i < f.sizes.len() implies #[trigger] f.sizes[i] >= 1 by {
            assert(crate::function::type0::is_size(objects[i]));
        }
    }
}

/// The samples of a function follow each other: outputs first, then the first input dimension,
/// and so on. Each is the next number of so many bits, and all of them are there.
pub proof fn lemma_sampled_layout(
    doc: Document,
    stream: Stream,
    precise: spec_fn(SampledCheck) -> bool,
)
    ensures
        sampled_function(doc, stream, precise) matches Some(f) ==> {
            &&& f.strides.len() == f.sizes.len()
            &&& f.strides.len() > 0
            &&& f.strides[0] == f.range.len()
            &&& forall|i: int|
                0 <= i < f.strides.len() - 1 ==> #[trigger] f.strides[i + 1] == f.strides[i]
                    * f.sizes[i]
            &&& f.table.len() == f.strides.last() * f.sizes.last()
            &&& f.table.len() <= 0x100_0000
            &&& stream.data matches Some(data)
            &&& f.table.len() * f.bits <= 8 * data@.len()
            &&& forall|i: int|
                0 <= i < f.table.len() ==> #[trigger] f.table[i]
                    == crate::sample_reader::sample_at(data@, i * f.bits, f.bits as int)
        },
{
    if sampled_function(doc, stream, precise) is Some {
        let f = sampled_function(doc, stream, precise)->0;
        crate::function::sampling::lemma_read_complete(doc, stream, precise);
        let outputs = f.range.len() as int;
        let n = f.sizes.len();
        assert(n > 0);
        assert(f.strides[0] == entries(outputs, f.sizes, 0));
        assert forall|i: int| 0 <= i < n - 1 implies #[trigger] f.strides[i + 1] == f.strides[i]
            * f.sizes[i] by {
            assert(f.strides[i] == entries(outputs, f.sizes, i as nat));
            assert(f.strides[i + 1] == entries(outputs, f.sizes, (i + 1) as nat));
        }
        assert(f.strides[n - 1] == entries(outputs, f.sizes, (n - 1) as nat));
    }
}

/// Linear interpolation depends on two samples along a dimension, cubic one on four if there are
/// as many, and a single sample on itself.
pub proof fn lemma_neighbors(size: int, cubic: bool)
    requires
        size >= 1,
    ensures
        size == 1 ==> neighbors(size, cubic) == 1,
        size >= 2 && !cubic ==> neighbors(size, cubic) == 2,
        size >= 4 && cubic ==> neighbors(size, cubic) == 4,
        2 <= size < 4 ==> neighbors(size, cubic) == 2,
        neighbors(size, cubic) <= size,
{
}

/// The places along a dimension are within it and around the coordinate: the coordinate itself,
/// its neighbors on both sides, or the two nearest on both sides, where those beyond an end
/// stand for the end.
pub proof fn lemma_places(lower: int, exact: bool, size: int, cubic: bool)
    requires
        0 <= lower < size,
        exact || lower + 1 < size,
    ensures
        forall|i: int|
            0 <= i < places_along(lower, exact, size, cubic).len() ==> 0 <= #[trigger] places_along(
                lower,
                exact,
                size,
                cubic,
            )[i] < size,
        exact ==> places_along(lower, exact, size, cubic) == seq![lower],
        !exact ==> {
            let places = places_along(lower, exact, size, cubic);
            let count = if cubic && size >= 4 {
                4int
            } else {
                2int
            };
            &&& places.len() == count
            &&& forall|i: int|
                0 <= i < count ==> {
                    let place = lower + 1 - count / 2 + i;
                    #[trigger] places[i] == if place < 0 {
                        0
                    } else if place >= size {
                        size - 1
                    } else {
                        place
                    }
                }
        },
{
}

/// The entries of an exponential function stand under their own keys. Without constants it goes
/// from zero to one. It has one input, as many outputs as constants, and a power of every input
/// of its domain.
pub proof fn lemma_exponential_entries(
    doc: Document,
    dict: Dict,
    bounded: spec_fn(Type2Model) -> bool,
)
    ensures
        exponential_function(doc, dict, bounded) matches Some(f) ==> {
            &&& doc.value(dict, "N"@) matches Some(Object::Number(n)) && {
                &&& f.exponent == n.double
                &&& f.odd <==> (integer_exponent(n) matches Some(e) && (e as int) % 2 == 1)
                &&& scaled(f.clamper.domain[0].low) < 0 ==> integer_exponent(n) is Some
                &&& double::rank(n.double) < 0 ==> scaled(f.clamper.domain[0].low) > 0 || scaled(
                    f.clamper.domain[0].high,
                ) < 0
            }
            &&& double::finite(f.exponent)
            &&& f.c0.len() >= 1
            &&& f.c1.len() == f.c0.len()
            &&& clamper_of(doc, dict) == Some(f.clamper)
            &&& f.clamper.domain.len() == 1
            &&& f.clamper.range matches Some(range) ==> range.len() == f.c0.len()
            &&& bounded(f)
            &&& (doc.value(dict, "C0"@) is None || doc.value(dict, "C0"@) == Some(Object::Null))
                ==> f.c0.len() == 1 && scaled(f.c0[0]) == 0
            &&& (doc.value(dict, "C1"@) is None || doc.value(dict, "C1"@) == Some(Object::Null))
                ==> f.c1.len() == 1 && scaled(f.c1[0]) == pow2(149)
            &&& doc.value(dict, "C0"@) matches Some(object) ==> !(object is Null) ==> array_values(
                doc,
                dict,
                "C0"@,
                64,
            ) == Some(f.c0)
            &&& doc.value(dict, "C1"@) matches Some(object) ==> !(object is Null) ==> array_values(
                doc,
                dict,
                "C1"@,
                64,
            ) == Some(f.c1)
        },
{
    if exponential_function(doc, dict, bounded) is Some {
        let f = exponential_function(doc, dict, bounded)->0;
        let low = f.clamper.domain[0].low;
        let high = f.clamper.domain[0].high;
        lemma_unit();
        lemma_rank(low, 0);
        lemma_rank(0, low);
        lemma_rank(high, 0);
        lemma_rank(0, high);
        let n = doc.value(dict, "N"@)->0->Number_0;
        if integer_exponent(n) is Some {
            let e = integer_exponent(n)->0 as int;
            assert(e % 2 == 0 || e % 2 == 1);
        }
    }
}

/// The bits of zero and one.
pub proof fn lemma_unit()
    ensures
        scaled(0) == 0,
        scaled(0x3F80_0000) == pow2(149),
        finite(0),
        finite(0x3F80_0000),
{
    let one: u32 = 0x3F80_0000;
    assert(crate::function::single::magnitude(one) == 0x3F80_0000);
    assert(crate::function::single::exponent(one) == 127);
    assert(crate::function::single::significand(one) == 0x80_0000);
    vstd::arithmetic::power2::lemma_pow2_adds(23, 126);
    vstd::arithmetic::power2::lemma2_to64();
    assert(pow2(23) == 0x80_0000);
    assert(crate::function::single::significand(0) == 0);
}

/// An exponent is an integer if it is written as one, or if it has no fraction and is small enough
/// to be exact.
pub proof fn lemma_integer_exponent(n: crate::object::Number)
    ensures
        n.integer is Some ==> integer_exponent(n) == n.integer,
        n.integer is None && double::finite(n.double) && double::scaled_size(n.double) % (pow2(
            1074,
        ) as int) == 0 && (n.double as int) % 0x8000_0000_0000_0000 <= 0x4340_0000_0000_0000
            ==> integer_exponent(n) == Some(n.truncated),
        n.integer is None && (!double::finite(n.double) || double::scaled_size(n.double) % (pow2(
            1074,
        ) as int) != 0 || (n.double as int) % 0x8000_0000_0000_0000 > 0x4340_0000_0000_0000)
            ==> integer_exponent(n) is None,
{
}

/// The intervals of a stitching function cover its domain one after another. All children have
/// one input and equally many outputs, which are those of the range.
pub proof fn lemma_stitched(
    clamper: ClamperModel,
    functions: Seq<FunctionModel>,
    internal: Seq<u32>,
    encode: Seq<Interval>,
)
    ensures
        stitched(clamper, functions, internal, encode) matches Some(f) ==> {
            &&& f == FunctionModel::Stitching {
                functions,
                bounds: f->bounds,
                encode,
                clamper,
            }
            &&& functions.len() >= 1
            &&& f->bounds.len() == functions.len() + 1
            &&& f->bounds[0] == clamper.domain[0].low
            &&& f->bounds.last() == clamper.domain[0].high
            &&& f->bounds.subrange(1, functions.len() as int) == internal
            &&& forall|i: int|
                0 <= i < internal.len() ==> scaled(
                    if i == 0 {
                        clamper.domain[0].low
                    } else {
                        internal[i - 1]
                    },
                ) < scaled(#[trigger] internal[i]) <= scaled(clamper.domain[0].high)
            &&& encode.len() == functions.len()
            &&& forall|i: int|
                0 <= i < functions.len() ==> (arity_of(#[trigger] functions[i]) matches Some(arity)
                    && arity.0 == 1 && (arity_of(functions[0]) matches Some(first) && arity.1
                    == first.1))
            &&& clamper.range matches Some(range) ==> (arity_of(functions[0]) matches Some(arity)
                && arity.1 == range.len())
        },
{
    if stitched(clamper, functions, internal, encode) is Some {
        let f = stitched(clamper, functions, internal, encode)->0;
        let domain = clamper.domain[0];
        let bounds = seq![domain.low] + internal + seq![domain.high];
        assert(bounds.subrange(1, functions.len() as int) =~= internal);
        assert forall|i: int| 0 <= i < internal.len() implies scaled(
            if i == 0 {
                domain.low
            } else {
                internal[i - 1]
            },
        ) < scaled(#[trigger] internal[i]) <= scaled(domain.high) by {
            assert(crate::function::definition::bound_increases(internal, domain.low, domain.high, i));
            let previous = if i == 0 {
                domain.low
            } else {
                internal[i - 1]
            };
            lemma_rank(previous, internal[i]);
            lemma_rank(domain.high, internal[i]);
        }
    }
}

/// The number of the kind of a function.
pub open spec fn kind_number(f: FunctionModel) -> i64 {
    match f {
        FunctionModel::Sampled(_) => 0,
        FunctionModel::Exponential(_) => 2,
        FunctionModel::Stitching { .. } => 3,
        FunctionModel::Calculator(_) => 4,
    }
}

/// A function is of the kind that its object says. Sampled and calculator functions are streams.
pub proof fn lemma_function_kind(
    doc: Document,
    object: Object,
    host: Judgements,
    function: FunctionModel,
)
    requires
        is_function(doc, object, host, Some(function)),
    ensures
        ({
            let dict = match object {
                Object::Stream(stream) => stream.dict,
                _ => object->Dict_0,
            };
            &&& object is Stream || object is Dict
            &&& doc.value(dict, "FunctionType"@) matches Some(Object::Number(n)) && n.integer
                == Some(kind_number(function))
            &&& function is Sampled || function is Calculator ==> object is Stream
        }),
{
    let read = choose|read: Option<Read>|
        {
            &&& #[trigger] is_function_at(doc, object, 0, 4096, host, read)
            &&& Some(function) == match read {
                Some(read) => Some(read.function),
                None => None,
            }
        };
    assert(is_function_at(doc, object, 0, 4096, host, read));
    let dict = match object {
        Object::Stream(stream) => stream.dict,
        _ => object->Dict_0,
    };
    match crate::function::type0::integer_of(doc, dict, "FunctionType"@) {
        Some(3) => {
            assert(crate::function::definition::is_stitching_at(doc, dict, 0, 4095, host, read));
            assert(function is Stitching);
        },
        _ => {},
    }
}

/// Functions are not nested too deeply, nor too many.
pub proof fn lemma_function_limits(
    doc: Document,
    object: Object,
    depth: int,
    remaining: int,
    host: Judgements,
    read: Read,
)
    requires
        is_function_at(doc, object, depth, remaining, host, Some(read)),
    ensures
        depth < 32,
        remaining > 0,
{
}

/// A function is what an object is at a depth.
pub open spec fn is_read_from(
    doc: Document,
    object: Object,
    depth: int,
    host: Judgements,
    function: FunctionModel,
) -> bool {
    exists|left: int, read: Read|
        read.function == function && #[trigger] is_function_at(
            doc,
            object,
            depth,
            left,
            host,
            Some(read),
        )
}

/// Children are read in order, each from its own object.
pub proof fn lemma_children_in_order(
    doc: Document,
    children: Seq<Object>,
    depth: int,
    remaining: int,
    host: Judgements,
    count: nat,
    read: ReadAll,
)
    requires
        are_children_at(doc, children, depth, remaining, host, count, Some(read)),
    ensures
        read.functions.len() == count,
        forall|i: int|
            0 <= i < count ==> is_read_from(
                doc,
                children[i],
                depth,
                host,
                #[trigger] read.functions[i],
            ),
    decreases count,
{
    if count > 0 {
        let before = choose|before: Option<ReadAll>|
            {
                &&& #[trigger] outcome(before)
                &&& are_children_at(
                    doc,
                    children,
                    depth,
                    remaining,
                    host,
                    (count - 1) as nat,
                    before,
                )
                &&& match before {
                    None => Some(read) is None,
                    Some(before) => exists|one: Option<Read>|
                        {
                            &&& #[trigger] outcome(one)
                            &&& is_function_at(
                                doc,
                                children[count - 1],
                                depth,
                                before.remaining,
                                host,
                                one,
                            )
                            &&& Some(read) == crate::function::definition::with_child(before, one)
                        },
                }
            };
        let first = before->0;
        lemma_children_in_order(doc, children, depth, remaining, host, (count - 1) as nat, first);
        let one = choose|one: Option<Read>|
            {
                &&& #[trigger] outcome(one)
                &&& is_function_at(doc, children[count - 1], depth, first.remaining, host, one)
                &&& Some(read) == crate::function::definition::with_child(first, one)
            };
        assert forall|i: int| 0 <= i < count implies is_read_from(
            doc,
            children[i],
            depth,
            host,
            #[trigger] read.functions[i],
        ) by {
            if i == count - 1 {
                assert(is_function_at(
                    doc,
                    children[i],
                    depth,
                    first.remaining,
                    host,
                    Some(one->0),
                ));
                assert((one->0).function == read.functions[i]);
            } else {
                assert(read.functions[i] == first.functions[i]);
            }
        }
    }
}

/// A procedure waits for its operator: the last one for `if`, the last two for `ifelse`, in order.
pub proof fn lemma_procedures_taken(
    pending: Seq<Seq<OpModel>>,
    first: Seq<OpModel>,
    second: Seq<OpModel>,
    at: int,
)
    ensures
        named_op(vstd::utf8::encode_utf8("if"@), pending.push(first), at) matches Some(parsed)
            && parsed.op == OpModel::If(first) && parsed.pending == pending && parsed.at == at,
        named_op(vstd::utf8::encode_utf8("if"@), Seq::empty(), at) is None,
        named_op(
            vstd::utf8::encode_utf8("ifelse"@),
            pending.push(first).push(second),
            at,
        ) matches Some(parsed) && parsed.op == OpModel::IfElse(first, second) && parsed.pending
            == pending && parsed.at == at,
        named_op(vstd::utf8::encode_utf8("ifelse"@), seq![first], at) is None,
{
    reveal_strlit("if");
    reveal_strlit("ifelse");
    vstd::utf8::encode_utf8_decode_utf8("if"@);
    vstd::utf8::encode_utf8_decode_utf8("ifelse"@);
    assert("if"@.len() != "ifelse"@.len());
    assert(pending.push(first).drop_last() =~= pending);
    let two = pending.push(first).push(second);
    assert(two.take(two.len() - 2) =~= pending);
}

/// Other operators leave the procedures that wait.
pub proof fn lemma_operator_parsed(name: Seq<u8>, pending: Seq<Seq<OpModel>>, at: int)
    requires
        name != vstd::utf8::encode_utf8("if"@),
        name != vstd::utf8::encode_utf8("ifelse"@),
    ensures
        named_op(name, pending, at) is Some <==> operator_named(name) is Some,
        named_op(name, pending, at) matches Some(parsed) ==> parsed.pending == pending && parsed.at
            == at && (operator_named(name) matches Some(operator) && parsed.op
            == OpModel::Operator(operator)),
{
}

/// The newer transfer entry of a graphics state is used before the older one; null entries do not
/// count.
pub proof fn lemma_transfer_selected(doc: Document, dict: Dict)
    ensures
        doc.value(dict, "TR2"@) matches Some(object) ==> !(object is Null) ==> selected_transfer(
            doc,
            dict,
        ) == Some(("TR2"@, object)),
        (doc.value(dict, "TR2"@) is None || doc.value(dict, "TR2"@) == Some(Object::Null)) ==> (
        doc.value(dict, "TR"@) matches Some(object) ==> if object is Null {
            selected_transfer(doc, dict) is None
        } else {
            selected_transfer(doc, dict) == Some(("TR"@, object))
        }),
        (doc.value(dict, "TR2"@) is None || doc.value(dict, "TR2"@) == Some(Object::Null))
            && doc.value(dict, "TR"@) is None ==> selected_transfer(doc, dict) is None,
{
}

/// What a function transfers a number to is its only output, if that is from zero to one. Other
/// outputs are brought there if outputs are clamped, and are rejected if not.
pub proof fn lemma_transferred(
    f: FunctionModel,
    value: u32,
    clamp_output: bool,
    results: Results,
)
    ensures
        match value_of(f, seq![value], results) {
            Some(output) => if output.len() == 1 && finite(output[0]) {
                if clamp_output {
                    transferred(f, value, clamp_output, results) matches Some(y) && brought_into(
                        output[0],
                        y,
                        Interval { low: 0, high: 0x3F80_0000 },
                    )
                } else if 0 <= scaled(output[0]) <= pow2(149) {
                    transferred(f, value, clamp_output, results) == Some(output[0])
                } else {
                    transferred(f, value, clamp_output, results) is None
                }
            } else {
                transferred(f, value, clamp_output, results) is None
            },
            None => transferred(f, value, clamp_output, results) is None,
        },
{
    lemma_unit();
    let unit = Interval { low: 0, high: 0x3F80_0000 };
    vstd::arithmetic::power2::lemma_pow2_pos(149);
    match value_of(f, seq![value], results) {
        Some(output) => {
            if output.len() == 1 {
                lemma_brought_into(output[0], unit);
                lemma_rank(output[0], 0);
                lemma_rank(0x3F80_0000, output[0]);
            }
        },
        None => {},
    }
}

/// A transfer function sees numbers brought to the unit interval; one without a function leaves
/// them there. Numbers that are not finite have no result.
pub proof fn lemma_applied(transfer: TransferFunction, value: u32, inside: u32, results: Results)
    requires
        brought_into(value, inside, Interval { low: 0, high: 0x3F80_0000 }),
    ensures
        !finite(value) ==> applied(transfer, value, results) is None,
        finite(value) ==> applied(transfer, value, results) == match transfer.function {
            None => Some(inside),
            Some(f) => transferred(f@, inside, transfer.clamp_output, results),
        },
        finite(value) && finite(inside) ==> applied(transfer, value, results) == applied(
            transfer,
            inside,
            results,
        ),
{
    lemma_unit();
    vstd::arithmetic::power2::lemma_pow2_pos(149);
    lemma_brought_into(value, Interval { low: 0, high: 0x3F80_0000 });
}

/// A transfer function has one input and one output, and a sample for every byte.
pub proof fn lemma_transfer_shape(
    f: FunctionModel,
    clamp_output: bool,
    results: Results,
    quantized: QuantizationResults,
)
    requires
        is_transfer(f, clamp_output, results, quantized),
    ensures
        arity_of(f) == Some((1nat, 1nat)),
        forall|byte: u8|
            #![trigger (quantized.unit)(byte)]
            transferred(f, (quantized.unit)(byte), clamp_output, results) is Some,
{
    assert forall|byte: u8|
        #![trigger (quantized.unit)(byte)]
        transferred(f, (quantized.unit)(byte), clamp_output, results) is Some by {
        assert(crate::function::transfer::sample_of(f, byte, clamp_output, results, quantized) is Some);
    }
}

/// An operator is called by its own name, and there is one for every name.
pub proof fn lemma_operator_names(name: Seq<u8>)
    ensures
        operator_named(name) matches Some(operator) ==> match operator {
            CalculatorInstruction::Abs => name == vstd::utf8::encode_utf8("abs"@),
            CalculatorInstruction::Add => name == vstd::utf8::encode_utf8("add"@),
            CalculatorInstruction::Atan => name == vstd::utf8::encode_utf8("atan"@),
            CalculatorInstruction::Ceiling => name == vstd::utf8::encode_utf8("ceiling"@),
            CalculatorInstruction::Cos => name == vstd::utf8::encode_utf8("cos"@),
            CalculatorInstruction::Cvi => name == vstd::utf8::encode_utf8("cvi"@),
            CalculatorInstruction::Cvr => name == vstd::utf8::encode_utf8("cvr"@),
            CalculatorInstruction::Div => name == vstd::utf8::encode_utf8("div"@),
            CalculatorInstruction::Exp => name == vstd::utf8::encode_utf8("exp"@),
            CalculatorInstruction::Floor => name == vstd::utf8::encode_utf8("floor"@),
            CalculatorInstruction::Idiv => name == vstd::utf8::encode_utf8("idiv"@),
            CalculatorInstruction::Ln => name == vstd::utf8::encode_utf8("ln"@),
            CalculatorInstruction::Log => name == vstd::utf8::encode_utf8("log"@),
            CalculatorInstruction::Mod => name == vstd::utf8::encode_utf8("mod"@),
            CalculatorInstruction::Mul => name == vstd::utf8::encode_utf8("mul"@),
            CalculatorInstruction::Neg => name == vstd::utf8::encode_utf8("neg"@),
            CalculatorInstruction::Round => name == vstd::utf8::encode_utf8("round"@),
            CalculatorInstruction::Sin => name == vstd::utf8::encode_utf8("sin"@),
            CalculatorInstruction::Sqrt => name == vstd::utf8::encode_utf8("sqrt"@),
            CalculatorInstruction::Sub => name == vstd::utf8::encode_utf8("sub"@),
            CalculatorInstruction::Truncate => name == vstd::utf8::encode_utf8("truncate"@),
            CalculatorInstruction::And => name == vstd::utf8::encode_utf8("and"@),
            CalculatorInstruction::Bitshift => name == vstd::utf8::encode_utf8("bitshift"@),
            CalculatorInstruction::Eq => name == vstd::utf8::encode_utf8("eq"@),
            CalculatorInstruction::False => name == vstd::utf8::encode_utf8("false"@),
            CalculatorInstruction::Ge => name == vstd::utf8::encode_utf8("ge"@),
            CalculatorInstruction::Gt => name == vstd::utf8::encode_utf8("gt"@),
            CalculatorInstruction::Le => name == vstd::utf8::encode_utf8("le"@),
            CalculatorInstruction::Lt => name == vstd::utf8::encode_utf8("lt"@),
            CalculatorInstruction::Ne => name == vstd::utf8::encode_utf8("ne"@),
            CalculatorInstruction::Not => name == vstd::utf8::encode_utf8("not"@),
            CalculatorInstruction::Or => name == vstd::utf8::encode_utf8("or"@),
            CalculatorInstruction::True => name == vstd::utf8::encode_utf8("true"@),
            CalculatorInstruction::Xor => name == vstd::utf8::encode_utf8("xor"@),
            CalculatorInstruction::Copy => name == vstd::utf8::encode_utf8("copy"@),
            CalculatorInstruction::Dup => name == vstd::utf8::encode_utf8("dup"@),
            CalculatorInstruction::Exch => name == vstd::utf8::encode_utf8("exch"@),
            CalculatorInstruction::Index => name == vstd::utf8::encode_utf8("index"@),
            CalculatorInstruction::Pop => name == vstd::utf8::encode_utf8("pop"@),
            CalculatorInstruction::Roll => name == vstd::utf8::encode_utf8("roll"@),
            _ => false,
        },
        name == vstd::utf8::encode_utf8("abs"@) ==> operator_named(name) is Some,
        name == vstd::utf8::encode_utf8("add"@) ==> operator_named(name) is Some,
        name == vstd::utf8::encode_utf8("atan"@) ==> operator_named(name) is Some,
        name == vstd::utf8::encode_utf8("ceiling"@) ==> operator_named(name) is Some,
        name == vstd::utf8::encode_utf8("cos"@) ==> operator_named(name) is Some,
        name == vstd::utf8::encode_utf8("cvi"@) ==> operator_named(name) is Some,
        name == vstd::utf8::encode_utf8("cvr"@) ==> operator_named(name) is Some,
        name == vstd::utf8::encode_utf8("div"@) ==> operator_named(name) is Some,
        name == vstd::utf8::encode_utf8("exp"@) ==> operator_named(name) is Some,
        name == vstd::utf8::encode_utf8("floor"@) ==> operator_named(name) is Some,
        name == vstd::utf8::encode_utf8("idiv"@) ==> operator_named(name) is Some,
        name == vstd::utf8::encode_utf8("ln"@) ==> operator_named(name) is Some,
        name == vstd::utf8::encode_utf8("log"@) ==> operator_named(name) is Some,
        name == vstd::utf8::encode_utf8("mod"@) ==> operator_named(name) is Some,
        name == vstd::utf8::encode_utf8("mul"@) ==> operator_named(name) is Some,
        name == vstd::utf8::encode_utf8("neg"@) ==> operator_named(name) is Some,
        name == vstd::utf8::encode_utf8("round"@) ==> operator_named(name) is Some,
        name == vstd::utf8::encode_utf8("sin"@) ==> operator_named(name) is Some,
        name == vstd::utf8::encode_utf8("sqrt"@) ==> operator_named(name) is Some,
        name == vstd::utf8::encode_utf8("sub"@) ==> operator_named(name) is Some,
        name == vstd::utf8::encode_utf8("truncate"@) ==> operator_named(name) is Some,
        name == vstd::utf8::encode_utf8("and"@) ==> operator_named(name) is Some,
        name == vstd::utf8::encode_utf8("bitshift"@) ==> operator_named(name) is Some,
        name == vstd::utf8::encode_utf8("eq"@) ==> operator_named(name) is Some,
        name == vstd::utf8::encode_utf8("false"@) ==> operator_named(name) is Some,
        name == vstd::utf8::encode_utf8("ge"@) ==> operator_named(name) is Some,
        name == vstd::utf8::encode_utf8("gt"@) ==> operator_named(name) is Some,
        name == vstd::utf8::encode_utf8("le"@) ==> operator_named(name) is Some,
        name == vstd::utf8::encode_utf8("lt"@) ==> operator_named(name) is Some,
        name == vstd::utf8::encode_utf8("ne"@) ==> operator_named(name) is Some,
        name == vstd::utf8::encode_utf8("not"@) ==> operator_named(name) is Some,
        name == vstd::utf8::encode_utf8("or"@) ==> operator_named(name) is Some,
        name == vstd::utf8::encode_utf8("true"@) ==> operator_named(name) is Some,
        name == vstd::utf8::encode_utf8("xor"@) ==> operator_named(name) is Some,
        name == vstd::utf8::encode_utf8("copy"@) ==> operator_named(name) is Some,
        name == vstd::utf8::encode_utf8("dup"@) ==> operator_named(name) is Some,
        name == vstd::utf8::encode_utf8("exch"@) ==> operator_named(name) is Some,
        name == vstd::utf8::encode_utf8("index"@) ==> operator_named(name) is Some,
        name == vstd::utf8::encode_utf8("pop"@) ==> operator_named(name) is Some,
        name == vstd::utf8::encode_utf8("roll"@) ==> operator_named(name) is Some,
{
}

/// Functions of one input and of as many outputs are stitched together wherever their bounds
/// increase within a domain, and there is an interval for each.
pub proof fn lemma_stitched_parts(
    clamper: ClamperModel,
    functions: Seq<FunctionModel>,
    internal: Seq<u32>,
    encode: Seq<Interval>,
    outputs: nat,
)
    requires
        functions.len() > 0,
        forall|i: int|
            0 <= i < functions.len() ==> arity_of(#[trigger] functions[i]) == Some((1nat, outputs)),
        clamper.range matches Some(range) ==> range.len() == outputs,
        encode.len() == functions.len(),
        internal.len() + 1 == functions.len(),
        functions.len() > 1 ==> scaled(clamper.domain[0].low) != scaled(clamper.domain[0].high),
        forall|i: int|
            0 <= i < internal.len() ==> scaled(
                if i == 0 {
                    clamper.domain[0].low
                } else {
                    internal[i - 1]
                },
            ) < scaled(#[trigger] internal[i]) <= scaled(clamper.domain[0].high),
    ensures
        stitched(clamper, functions, internal, encode) is Some,
{
    let low = clamper.domain[0].low;
    let high = clamper.domain[0].high;
    lemma_rank(low, high);
    assert forall|i: int| 0 <= i < internal.len() implies #[trigger] bound_increases(
        internal,
        low,
        high,
        i,
    ) by {
        lemma_rank(
            if i == 0 {
                low
            } else {
                internal[i - 1]
            },
            internal[i],
        );
        lemma_rank(internal[i], high);
    }
}

/// A key is present if it leads to an object that is not null.
pub proof fn lemma_present(doc: Document, dict: Dict, key: Seq<char>)
    ensures
        is_present(doc, dict, key) <==> doc.value(dict, key) is Some && !(doc.value(dict, key)
            == Some(Object::Null)),
{
}

/// The whole part of a number is not above it, and less than one below it. There is a fraction
/// unless the two are the same. Beyond 32 bits only the side is known.
pub proof fn lemma_whole_part(bits: u32, part: WholePart)
    requires
        finite(bits),
        is_whole_part(bits, part),
    ensures
        part.fraction ==> whole(part.floor as int) < scaled(bits) < whole(part.floor + 1),
        !part.fraction && -0x1_0000_0000 <= part.floor <= 0x1_0000_0000 ==> scaled(bits) == whole(
            part.floor as int,
        ),
        part.floor > 0x1_0000_0000 ==> scaled(bits) >= whole(0x1_0000_0000),
        part.floor < -0x1_0000_0000 ==> scaled(bits) <= whole(-0x1_0000_0000),
{
}

/// A number is finite unless its exponent is the greatest one, whatever its sign is.
pub proof fn lemma_finite(bits: u32, wide: u64)
    ensures
        finite(bits) <==> (bits / 0x80_0000) % 0x100 != 0xFF,
        double::finite(wide) <==> (wide / 0x10_0000_0000_0000) % 0x800 != 0x7FF,
{
}

} // verus!
