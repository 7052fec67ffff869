//! Lists of plain values.

use vstd::prelude::*;

verus! {

/// Append items to a list.
pub fn append<T: Copy>(list: &mut Vec<T>, items: &Vec<T>)
    ensures
        final(list)@ == old(list)@ + items@,
{
    let mut i: usize = 0;
    assert(list@ =~= old(list)@ + items@.take(0));
    while i < items.len()
        invariant
            i <= items@.len(),
            list@ == old(list)@ + items@.take(i as int),
        decreases items@.len() - i,
    {
        list.push(items[i]);
        assert(list@ =~= old(list)@ + items@.take(i + 1));
        i = i + 1;
    }
    assert(items@.take(i as int) =~= items@);
}

/// A copy of items.
pub fn copied<T: Copy>(items: &[T]) -> (copy: Vec<T>)
    ensures
        copy@ == items@,
{
    let mut copy: Vec<T> = Vec::new();
    let mut i: usize = 0;
    while i < items.len()
        invariant
            i <= items@.len(),
            copy@ == items@.take(i as int),
        decreases items@.len() - i,
    {
        copy.push(items[i]);
        assert(copy@ =~= items@.take(i + 1));
        i = i + 1;
    }
    assert(items@.take(i as int) =~= items@);
    copy
}

} // verus!
