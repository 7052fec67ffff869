//! Short lists of numbers, held inline.

use crate::list::copied;
use smallvec::SmallVec;
use vstd::prelude::*;

verus! {

/// A list of numbers, given by their bits in single precision.
///
/// A `smallvec::SmallVec` holds them, without an allocation where there are few.
#[verifier::external_body]
#[derive(Debug)]
pub struct SmallList {
    items: SmallVec<[u32; 4]>,
}

/// What a list holds.
pub uninterp spec fn small_items(list: SmallList) -> Seq<u32>;

impl View for SmallList {
    type V = Seq<u32>;

    open spec fn view(&self) -> Seq<u32> {
        small_items(*self)
    }
}

/// `SmallVec::from_vec` takes over the items of a `Vec`, in their order.
#[verifier::external_body]
fn take_over(items: Vec<u32>) -> (list: SmallList)
    ensures
        small_items(list) == items@,
{
    SmallList { items: SmallVec::from_vec(items) }
}

/// `SmallVec::as_slice` gives a slice of all items, in their order.
#[verifier::external_body]
fn slice_of(list: &SmallList) -> (items: &[u32])
    ensures
        items@ == small_items(*list),
{
    list.items.as_slice()
}

impl SmallList {
    /// A list of the items of a `Vec`.
    pub fn from_vec(items: Vec<u32>) -> (list: Self)
        ensures
            list@ == items@,
    {
        take_over(items)
    }

    /// All items.
    pub fn as_slice(&self) -> (items: &[u32])
        ensures
            items@ == self@,
    {
        slice_of(self)
    }
}

impl Clone for SmallList {
    fn clone(&self) -> (list: Self)
        ensures
            list@ == self@,
    {
        SmallList::from_vec(copied(self.as_slice()))
    }
}

} // verus!
