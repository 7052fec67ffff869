//! The inputs at which stitching functions change over.

use crate::function::definition::{
    function_models, lemma_stitching_model, Function, FunctionModel, FunctionType, Type3,
};
use crate::function::eval::{is_stitched, Affine};
use crate::function::numeric::Interval;
use crate::function::single::{rank, rank_of};
use vstd::prelude::*;

verus! {

/// The number of leading values below a number.
pub open spec fn below(values: Seq<u32>, bits: u32) -> int
    decreases values.len(),
{
    if values.len() == 0 {
        0
    } else if rank(values[0]) < rank(bits) {
        1 + below(values.skip(1), bits)
    } else {
        0
    }
}

/// Values in order with one more number among them. Of the two zeros, the negative one is kept.
pub open spec fn with_bound(values: Seq<u32>, bits: u32) -> Seq<u32> {
    let place = below(values, bits);
    if place < values.len() && rank(values[place]) == rank(bits) {
        if bits == 0x8000_0000 {
            values.update(place, bits)
        } else {
            values
        }
    } else {
        values.insert(place, bits)
    }
}

/// Numbers in order, each once.
pub open spec fn arranged(values: Seq<u32>) -> Seq<u32>
    decreases values.len(),
{
    if values.len() == 0 {
        Seq::empty()
    } else {
        with_bound(arranged(values.drop_last()), values.last())
    }
}

/// Numbers increase.
pub open spec fn increases(values: Seq<u32>) -> bool {
    forall|i: int, j: int|
        0 <= i < j < values.len() ==> rank(#[trigger] values[i]) < rank(#[trigger] values[j])
}

proof fn lemma_below(values: Seq<u32>, bits: u32)
    requires
        increases(values),
    ensures
        0 <= below(values, bits) <= values.len(),
        forall|i: int|
            0 <= i < values.len() ==> (rank(#[trigger] values[i]) < rank(bits) <==> i < below(
                values,
                bits,
            )),
    decreases values.len(),
{
    if values.len() > 0 && rank(values[0]) < rank(bits) {
        let rest = values.skip(1);
        assert(increases(rest));
        lemma_below(rest, bits);
        assert forall|i: int| 0 <= i < values.len() implies (rank(#[trigger] values[i]) < rank(bits)
            <==> i < below(values, bits)) by {
            if i > 0 {
                assert(rest[i - 1] == values[i]);
            }
        }
    }
}

/// A number of the given rank is among the values.
pub open spec fn has_rank(values: Seq<u32>, r: int) -> bool {
    exists|k: int| 0 <= k < values.len() && rank(#[trigger] values[k]) == r
}

/// Where the numbers go that were there before another number came in.
spec fn moved(place: int, i: int) -> int {
    if i < place {
        i
    } else {
        i + 1
    }
}

proof fn lemma_bound_increases(values: Seq<u32>, bits: u32)
    requires
        increases(values),
    ensures
        increases(with_bound(values, bits)),
{
    lemma_below(values, bits);
    let place = below(values, bits);
    let result = with_bound(values, bits);
    if !(place < values.len() && rank(values[place]) == rank(bits)) {
        assert forall|i: int, j: int| 0 <= i < j < result.len() implies rank(#[trigger] result[i])
            < rank(#[trigger] result[j]) by {
            if i < place {
                assert(result[i] == values[i]);
            } else if i > place {
                assert(result[i] == values[i - 1]);
            }
            if j < place {
                assert(result[j] == values[j]);
            } else if j > place {
                assert(result[j] == values[j - 1]);
            }
        }
    }
}

proof fn lemma_bound_ranks(values: Seq<u32>, bits: u32, r: int)
    requires
        increases(values),
    ensures
        has_rank(with_bound(values, bits), r) <==> has_rank(values, r) || r == rank(bits),
{
    lemma_below(values, bits);
    let place = below(values, bits);
    let result = with_bound(values, bits);
    assert(rank(result[place]) == rank(bits));
    let replaced = place < values.len() && rank(values[place]) == rank(bits);
    if has_rank(result, r) {
        let k = choose|k: int| 0 <= k < result.len() && rank(#[trigger] result[k]) == r;
        if replaced {
            assert(rank(values[k]) == r);
        } else if k < place {
            assert(rank(values[k]) == r);
        } else if k > place {
            assert(rank(values[k - 1]) == r);
        }
    }
    if has_rank(values, r) {
        let i = choose|i: int| 0 <= i < values.len() && rank(#[trigger] values[i]) == r;
        if replaced {
            assert(rank(result[i]) == r);
        } else {
            assert(rank(result[moved(place, i)]) == r);
        }
    }
}

proof fn lemma_with_bound(values: Seq<u32>, bits: u32)
    requires
        increases(values),
    ensures
        increases(with_bound(values, bits)),
        forall|r: int| #[trigger]
            has_rank(with_bound(values, bits), r) <==> has_rank(values, r) || r == rank(bits),
        forall|k: int|
            0 <= k < with_bound(values, bits).len() ==> (#[trigger] with_bound(values, bits)[k])
                == bits || values.contains(with_bound(values, bits)[k]),
{
    let place = below(values, bits);
    let result = with_bound(values, bits);
    lemma_bound_increases(values, bits);
    assert forall|r: int| #[trigger] has_rank(result, r) <==> has_rank(values, r) || r == rank(
        bits,
    ) by {
        lemma_bound_ranks(values, bits, r);
    }
    assert forall|k: int| 0 <= k < result.len() implies (#[trigger] result[k]) == bits
        || values.contains(result[k]) by {
        lemma_below(values, bits);
        if result[k] != bits {
            let i = if result.len() == values.len() || k < place {
                k
            } else {
                k - 1
            };
            assert(values[i] == result[k]);
        }
    }
}

/// Arranged numbers increase, are among the given ones, and leave none of them out.
pub proof fn lemma_arranged(values: Seq<u32>)
    ensures
        increases(arranged(values)),
        forall|i: int|
            0 <= i < arranged(values).len() ==> values.contains(#[trigger] arranged(values)[i]),
        forall|r: int| #[trigger] has_rank(arranged(values), r) <==> has_rank(values, r),
    decreases values.len(),
{
    if values.len() > 0 {
        let before = values.drop_last();
        let earlier = arranged(before);
        lemma_arranged(before);
        lemma_with_bound(earlier, values.last());
        let result = arranged(values);
        assert forall|i: int| 0 <= i < result.len() implies values.contains(
            #[trigger] result[i],
        ) by {
            if result[i] == values.last() {
                assert(values[values.len() - 1] == result[i]);
            } else {
                let k = choose|k: int| 0 <= k < earlier.len() && earlier[k] == result[i];
                assert(before.contains(earlier[k]));
                let m = choose|m: int| 0 <= m < before.len() && before[m] == earlier[k];
                assert(values[m] == result[i]);
            }
        }
        assert forall|r: int| #[trigger] has_rank(result, r) <==> has_rank(values, r) by {
            assert(has_rank(earlier, r) <==> has_rank(before, r));
            if has_rank(before, r) {
                let k = choose|k: int| 0 <= k < before.len() && rank(#[trigger] before[k]) == r;
                assert(rank(values[k]) == r);
            }
            if has_rank(values, r) {
                let k = choose|k: int| 0 <= k < values.len() && rank(#[trigger] values[k]) == r;
                if k < before.len() {
                    assert(rank(before[k]) == r);
                }
            }
            assert(rank(values[values.len() - 1]) == rank(values.last()));
        }
    } else {
        assert forall|r: int| #[trigger] has_rank(arranged(values), r) <==> has_rank(values, r) by {
        }
    }
}

/// The place of a bound of a child in the interval of the child, if it is inside.
pub open spec fn child_bounds(
    inner: Seq<u32>,
    map: Interval,
    low: u32,
    high: u32,
    affine: spec_fn(Affine) -> u32,
    count: nat,
) -> Seq<u32>
    decreases count,
{
    if count == 0 {
        Seq::empty()
    } else {
        let before = child_bounds(inner, map, low, high, affine, (count - 1) as nat);
        let bound = affine(
            Affine { x: inner[count - 1], low: map.low, high: map.high, start: low, end: high },
        );
        if rank(low) < rank(bound) < rank(high) {
            before.push(bound)
        } else {
            before
        }
    }
}

/// The bounds that the first `count` children add.
pub open spec fn nested_bounds(
    functions: Seq<FunctionModel>,
    bounds: Seq<u32>,
    encode: Seq<Interval>,
    affine: spec_fn(Affine) -> u32,
    count: nat,
) -> Seq<u32>
    decreases functions, 0nat, count,
{
    if count == 0 || count > functions.len() {
        Seq::empty()
    } else {
        let before = nested_bounds(functions, bounds, encode, affine, (count - 1) as nat);
        let map = encode[count - 1];
        if rank(map.low) == rank(map.high) {
            before
        } else {
            let inner = bounds_of(functions[count - 1], affine);
            before + child_bounds(
                inner,
                map,
                bounds[count - 1],
                bounds[count as int],
                affine,
                inner.len(),
            )
        }
    }
}

/// All inputs at which a function and the functions within it change over, in order.
pub open spec fn bounds_of(f: FunctionModel, affine: spec_fn(Affine) -> u32) -> Seq<u32>
    decreases f, 1nat, 0nat,
{
    match f {
        FunctionModel::Stitching { functions, bounds, encode, .. } => arranged(
            bounds.subrange(1, bounds.len() - 1) + nested_bounds(
                functions,
                bounds,
                encode,
                affine,
                functions.len(),
            ),
        ),
        _ => Seq::empty(),
    }
}

/// The host maps numbers in a given way.
pub open spec fn maps<A: Fn(Affine) -> u32>(affine: A, result: spec_fn(Affine) -> u32) -> bool {
    forall|map: Affine, y: u32| #[trigger] call_ensures(affine, (map,), y) ==> y == result(map)
}

/// The host maps all numbers.
pub open spec fn maps_all<A: Fn(Affine) -> u32>(affine: A) -> bool {
    forall|map: Affine| call_requires(affine, (map,))
}

/// Arrange numbers.
fn arrange(values: &Vec<u32>) -> (result: Vec<u32>)
    ensures
        result@ == arranged(values@),
{
    let mut result: Vec<u32> = Vec::new();
    let mut i: usize = 0;
    assert(values@.take(0) =~= Seq::empty());
    while i < values.len()
        invariant
            i <= values@.len(),
            result@ == arranged(values@.take(i as int)),
        decreases values@.len() - i,
    {
        let bits: u32 = values[i];
        let ghost earlier = result@;
        assert(values@.take(i + 1).drop_last() =~= values@.take(i as int));
        assert(values@.take(i + 1).last() == bits);
        proof {
            lemma_arranged(values@.take(i as int));
            lemma_below(earlier, bits);
        }
        let mut place: usize = 0;
        while place < result.len() && rank_of(result[place]) < rank_of(bits)
            invariant
                place <= result@.len(),
                result@ == earlier,
                place <= below(earlier, bits) <= earlier.len(),
                forall|k: int|
                    0 <= k < earlier.len() ==> (rank(#[trigger] earlier[k]) < rank(bits) <==> k
                        < below(earlier, bits)),
            ensures
                place == below(earlier, bits),
                result@ == earlier,
                place <= result@.len(),
            decreases result@.len() - place,
        {
            place = place + 1;
        }
        if place < result.len() && rank_of(result[place]) == rank_of(bits) {
            if bits == 0x8000_0000 {
                result.set(place, bits);
            }
        } else {
            result.insert(place, bits);
        }
        i = i + 1;
    }
    assert(values@.take(i as int) =~= values@);
    result
}

impl Function {
    /// All inputs at which this function and the functions within it change over, in order.
    pub fn stitching_bounds<A: Fn(Affine) -> u32>(&self, affine: &A) -> (result: Vec<u32>)
        requires
            is_stitched(self@),
            maps_all(*affine),
        ensures
            forall|r: spec_fn(Affine) -> u32| #[trigger]
                maps(*affine, r) ==> result@ == bounds_of(self@, r),
        decreases *self, 1nat,
    {
        match &self.0 {
            FunctionType::Type3(stitching) => {
                proof {
                    lemma_stitching_model(*stitching);
                }
                stitching.stitching_bounds(affine)
            },
            _ => {
                let none: Vec<u32> = Vec::new();
                assert forall|r: spec_fn(Affine) -> u32| #[trigger] maps(*affine, r) implies none@
                    == bounds_of(self@, r) by {
                    assert(none@ =~= Seq::empty());
                }
                none
            },
        }
    }

    /// Every nested stitching boundary in input-domain order.
    ///
    /// Renderers use this query before they interpret anything. One that cannot prove the
    /// curved boundary of a discontinuous patch function can reject it, and still take
    /// continuous functions of one input.
    pub fn stitching_boundaries<A: Fn(Affine) -> u32>(&self, affine: &A) -> (result: Vec<u32>)
        requires
            is_stitched(self@),
            maps_all(*affine),
        ensures
            forall|r: spec_fn(Affine) -> u32| #[trigger]
                maps(*affine, r) ==> result@ == bounds_of(self@, r),
    {
        self.stitching_bounds(affine)
    }
}

impl Type3 {
    fn stitching_bounds<A: Fn(Affine) -> u32>(&self, affine: &A) -> (result: Vec<u32>)
        requires
            is_stitched(Function(FunctionType::Type3(*self))@),
            maps_all(*affine),
        ensures
            forall|r: spec_fn(Affine) -> u32| #[trigger]
                maps(*affine, r) ==> result@ == bounds_of(
                    Function(FunctionType::Type3(*self))@,
                    r,
                ),
        decreases *self, 0nat,
    {
        let ghost models = function_models(self.functions@);
        let ghost internal = self.bounds@.subrange(1, self.bounds@.len() - 1);
        proof {
            lemma_stitching_model(*self);
        }
        let mut gathered: Vec<u32> = Vec::new();
        let mut k: usize = 1;
        assert(gathered@ =~= internal.take(0));
        while k < self.bounds.len() - 1
            invariant
                self.bounds@.len() >= 2,
                1 <= k <= self.bounds@.len() - 1,
                internal == self.bounds@.subrange(1, self.bounds@.len() - 1),
                gathered@ == internal.take(k - 1),
            decreases self.bounds@.len() - k,
        {
            gathered.push(self.bounds[k]);
            assert(gathered@ =~= internal.take(k as int));
            k = k + 1;
        }
        assert(gathered@ =~= internal);
        let mut i: usize = 0;
        assert(gathered@ =~= internal + Seq::<u32>::empty());
        while i < self.functions.len()
            invariant
                i <= self.functions@.len(),
                models == function_models(self.functions@),
                self.bounds@.len() == self.functions@.len() + 1,
                self.encode@.len() == self.functions@.len(),
                forall|j: int| 0 <= j < models.len() ==> is_stitched(#[trigger] models[j]),
                maps_all(*affine),
                forall|r: spec_fn(Affine) -> u32| #[trigger]
                    maps(*affine, r) ==> gathered@ == internal + nested_bounds(
                        models,
                        self.bounds@,
                        self.encode@,
                        r,
                        i as nat,
                    ),
            decreases self.functions@.len() - i,
        {
            let ghost before = gathered@;
            let map = self.encode[i];
            let last: usize = self.bounds.len() - 1;
            assert(i < last);
            let low: u32 = self.bounds[i];
            let high: u32 = self.bounds[i + 1];
            if rank_of(map.low) != rank_of(map.high) {
                assert(models[i as int] == self.functions@[i as int]@);
                assert(decreases_to!(*self => self.functions@[i as int]));
                let inner = self.functions[i].stitching_bounds(affine);
                let mut m: usize = 0;
                assert forall|r: spec_fn(Affine) -> u32| #[trigger]
                    maps(*affine, r) implies gathered@ == before + child_bounds(
                    inner@,
                    map,
                    low,
                    high,
                    r,
                    0,
                ) by {
                    assert(before =~= before + Seq::<u32>::empty());
                }
                while m < inner.len()
                    invariant
                        m <= inner@.len(),
                        maps_all(*affine),
                        forall|r: spec_fn(Affine) -> u32| #[trigger]
                            maps(*affine, r) ==> gathered@ == before + child_bounds(
                                inner@,
                                map,
                                low,
                                high,
                                r,
                                m as nat,
                            ),
                    decreases inner@.len() - m,
                {
                    let ghost so_far = gathered@;
                    let bound: u32 = affine(
                        Affine {
                            x: inner[m],
                            low: map.low,
                            high: map.high,
                            start: low,
                            end: high,
                        },
                    );
                    if rank_of(bound) > rank_of(low) && rank_of(bound) < rank_of(high) {
                        gathered.push(bound);
                    }
                    assert forall|r: spec_fn(Affine) -> u32| #[trigger]
                        maps(*affine, r) implies gathered@ == before + child_bounds(
                        inner@,
                        map,
                        low,
                        high,
                        r,
                        (m + 1) as nat,
                    ) by {
                        assert(so_far == before + child_bounds(inner@, map, low, high, r, m as nat));
                        assert(gathered@ =~= before + child_bounds(
                            inner@,
                            map,
                            low,
                            high,
                            r,
                            (m + 1) as nat,
                        ));
                    }
                    m = m + 1;
                }
                assert forall|r: spec_fn(Affine) -> u32| #[trigger]
                    maps(*affine, r) implies gathered@ == internal + nested_bounds(
                    models,
                    self.bounds@,
                    self.encode@,
                    r,
                    (i + 1) as nat,
                ) by {
                    assert(before == internal + nested_bounds(
                        models,
                        self.bounds@,
                        self.encode@,
                        r,
                        i as nat,
                    ));
                    assert(inner@ == bounds_of(models[i as int], r));
                    assert(gathered@ =~= internal + nested_bounds(
                        models,
                        self.bounds@,
                        self.encode@,
                        r,
                        (i + 1) as nat,
                    ));
                }
            }
            i = i + 1;
        }
        arrange(&gathered)
    }
}

} // verus!
