//! The samples that an output of a sampled function depends on.

use crate::function::type0::{entries, sampled_function, SampledCheck, Type0, Type0Model};
use crate::object::{Document, Stream};
use vstd::prelude::*;

verus! {

/// The table has a sample for every output at every place.
pub open spec fn is_complete(f: Type0Model) -> bool {
    let outputs = f.range.len() as int;
    &&& outputs >= 1
    &&& f.strides.len() == f.sizes.len()
    &&& forall|i: int| 0 <= i < f.sizes.len() ==> 1 <= #[trigger] f.sizes[i]
    &&& forall|i: int|
        0 <= i < f.strides.len() ==> #[trigger] f.strides[i] == entries(
            outputs,
            f.sizes,
            i as nat,
        )
    &&& f.table.len() == entries(outputs, f.sizes, f.sizes.len())
}

/// Where the samples at a place start, by its coordinates in the first `count` dimensions.
pub open spec fn offset(f: Type0Model, coordinates: Seq<usize>, count: nat) -> int
    decreases count,
{
    if count == 0 {
        0
    } else {
        offset(f, coordinates, (count - 1) as nat) + coordinates[count - 1] * f.strides[count - 1]
    }
}

/// Coordinates are within the table.
pub open spec fn is_place(f: Type0Model, coordinates: Seq<usize>) -> bool {
    &&& coordinates.len() == f.sizes.len()
    &&& forall|i: int|
        0 <= i < coordinates.len() ==> (#[trigger] coordinates[i]) < f.sizes[i]
}

proof fn lemma_offset_bound(f: Type0Model, coordinates: Seq<usize>, count: nat)
    requires
        is_complete(f),
        is_place(f, coordinates),
        count <= f.sizes.len(),
    ensures
        0 <= offset(f, coordinates, count),
        offset(f, coordinates, count) + f.range.len() <= entries(
            f.range.len() as int,
            f.sizes,
            count,
        ),
    decreases count,
{
    if count > 0 {
        lemma_offset_bound(f, coordinates, (count - 1) as nat);
        let e = entries(f.range.len() as int, f.sizes, (count - 1) as nat);
        let c = coordinates[count - 1] as int;
        let s = f.sizes[count - 1] as int;
        let before = offset(f, coordinates, (count - 1) as nat);
        assert(f.strides[count - 1] == e);
        assert(c < s);
        assert(before + c * e + f.range.len() <= e * s && 0 <= c * e) by (nonlinear_arith)
            requires
                before + f.range.len() <= e,
                0 <= c < s,
                e >= 0,
        ;
    }
}

/// The samples at every place are within the table.
pub proof fn lemma_samples_within_table(f: Type0Model, coordinates: Seq<usize>)
    requires
        is_complete(f),
        is_place(f, coordinates),
    ensures
        0 <= offset(f, coordinates, f.sizes.len()),
        offset(f, coordinates, f.sizes.len()) + f.range.len() <= f.table.len(),
{
    lemma_offset_bound(f, coordinates, f.sizes.len());
}

proof fn lemma_offset_grows(f: Type0Model, coordinates: Seq<usize>, count: nat, more: nat)
    requires
        is_complete(f),
        is_place(f, coordinates),
        count <= more <= f.sizes.len(),
    ensures
        offset(f, coordinates, count) <= offset(f, coordinates, more),
    decreases more,
{
    if count < more {
        lemma_offset_grows(f, coordinates, count, (more - 1) as nat);
        let c = coordinates[more - 1] as int;
        let s = f.strides[more - 1] as int;
        assert(0 <= c * s) by (nonlinear_arith)
            requires
                c >= 0,
                s >= 0,
        ;
    }
}

/// The places along a dimension that an output depends on, given the place below its coordinate
/// and whether the coordinate is there.
pub open spec fn places_along(lower: int, exact: bool, size: int, cubic: bool) -> Seq<int> {
    if exact {
        seq![lower]
    } else if !cubic || size < 4 {
        seq![lower, lower + 1]
    } else {
        seq![
            if lower == 0 {
                0
            } else {
                lower - 1
            },
            lower,
            lower + 1,
            if lower + 2 < size {
                lower + 2
            } else {
                size - 1
            },
        ]
    }
}

/// The places along a dimension that an output depends on.
///
/// Cubic interpolation repeats the samples at the boundary.
pub fn axis_places(lower: usize, exact: bool, size: usize, cubic: bool) -> (places: Vec<usize>)
    requires
        lower < size,
        !exact ==> lower + 1 < size,
    ensures
        places@.len() == places_along(lower as int, exact, size as int, cubic).len(),
        forall|i: int|
            0 <= i < places@.len() ==> {
                &&& #[trigger] places@[i] == places_along(lower as int, exact, size as int, cubic)[i]
                &&& places@[i] < size
            },
{
    let mut places: Vec<usize> = Vec::new();
    if exact {
        places.push(lower);
    } else if !cubic || size < 4 {
        places.push(lower);
        places.push(lower + 1);
    } else {
        places.push(
            if lower == 0 {
                0
            } else {
                lower - 1
            },
        );
        places.push(lower);
        places.push(lower + 1);
        places.push(
            if lower < size - 2 {
                lower + 2
            } else {
                size - 1
            },
        );
    }
    places
}

impl Type0 {
    /// Where the samples at a place start.
    pub fn sample_offset(&self, coordinates: &Vec<usize>) -> (start: usize)
        requires
            is_complete(self@),
            is_place(self@, coordinates@),
        ensures
            start == offset(self@, coordinates@, coordinates@.len()),
            start + self.range@.len() <= self.table@.len(),
    {
        let mut start: usize = 0;
        let mut i: usize = 0;
        proof {
            lemma_samples_within_table(self@, coordinates@);
        }
        let length: usize = self.table.len();
        while i < coordinates.len()
            invariant
                i <= coordinates@.len(),
                is_complete(self@),
                is_place(self@, coordinates@),
                length == self.table@.len(),
                start == offset(self@, coordinates@, i as nat),
                offset(self@, coordinates@, coordinates@.len()) <= length,
            decreases coordinates@.len() - i,
        {
            proof {
                lemma_offset_grows(self@, coordinates@, (i + 1) as nat, coordinates@.len());
                lemma_offset_bound(self@, coordinates@, i as nat);
                let c = coordinates@[i as int] as int;
                let s = self.strides@[i as int] as int;
                assert(0 <= c * s) by (nonlinear_arith)
                    requires
                        c >= 0,
                        s >= 0,
                ;
            }
            start = start + coordinates[i] * self.strides[i];
            i = i + 1;
        }
        start
    }
}

/// The table of a function that was read is complete.
pub proof fn lemma_read_complete(
    doc: Document,
    stream: Stream,
    precise: spec_fn(SampledCheck) -> bool,
)
    requires
        sampled_function(doc, stream, precise) is Some,
    ensures
        is_complete(sampled_function(doc, stream, precise)->0),
{
    let f = sampled_function(doc, stream, precise)->0;
    let outputs = f.range.len() as int;
    let dict = stream.dict;
    assert(f.range.len() >= 1);
    assert forall|i: int| 0 <= i < f.sizes.len() implies 1 <= #[trigger] f.sizes[i] by {
        let objects = crate::function::numeric::array_objects(
            doc,
            dict,
            "Size"@,
            crate::function::numeric::MAX_COMPONENTS as int,
        )->0;
        let object = objects[i];
    }
    assert forall|i: int| 0 <= i < f.strides.len() implies #[trigger] f.strides[i] == entries(
        outputs,
        f.sizes,
        i as nat,
    ) by {
        lemma_entries_bound(outputs, f.sizes, i as nat, f.sizes.len());
    }
    lemma_entries_bound(outputs, f.sizes, f.sizes.len(), f.sizes.len());
}

proof fn lemma_entries_bound(outputs: int, sizes: Seq<usize>, count: nat, more: nat)
    requires
        outputs >= 1,
        count <= more <= sizes.len(),
        forall|i: int| 0 <= i < sizes.len() ==> 1 <= #[trigger] sizes[i],
    ensures
        1 <= entries(outputs, sizes, count) <= entries(outputs, sizes, more),
    decreases more, count,
{
    if count < more {
        lemma_entries_bound(outputs, sizes, count, (more - 1) as nat);
        let e = entries(outputs, sizes, (more - 1) as nat);
        let s = sizes[more - 1] as int;
        assert(e <= e * s) by (nonlinear_arith)
            requires
                e >= 1,
                s >= 1,
        ;
    } else if count > 0 {
        lemma_entries_bound(outputs, sizes, (count - 1) as nat, (count - 1) as nat);
        let e = entries(outputs, sizes, (count - 1) as nat);
        let s = sizes[count - 1] as int;
        assert(1 <= e * s) by (nonlinear_arith)
            requires
                e >= 1,
                s >= 1,
        ;
    }
}

} // verus!
