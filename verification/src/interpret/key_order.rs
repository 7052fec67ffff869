//! The order of dictionary keys.

use crate::object::Entry;
use vstd::prelude::*;

verus! {

/// Bytes come before other bytes.
pub open spec fn comes_before(a: Seq<u8>, b: Seq<u8>) -> bool
    decreases a.len(),
{
    if b.len() == 0 {
        false
    } else if a.len() == 0 {
        true
    } else if a[0] != b[0] {
        a[0] < b[0]
    } else {
        comes_before(a.skip(1), b.skip(1))
    }
}

proof fn lemma_total(a: Seq<u8>, b: Seq<u8>)
    ensures
        comes_before(a, b) ==> !comes_before(b, a),
        !comes_before(a, b) && !comes_before(b, a) ==> a == b,
    decreases a.len(),
{
    if a.len() > 0 && b.len() > 0 && a[0] == b[0] {
        lemma_total(a.skip(1), b.skip(1));
        if !comes_before(a, b) && !comes_before(b, a) {
            assert(a =~= seq![a[0]] + a.skip(1));
            assert(b =~= seq![b[0]] + b.skip(1));
        }
    } else if a.len() == 0 && b.len() == 0 {
        assert(a =~= b);
    }
}

proof fn lemma_transitive(a: Seq<u8>, b: Seq<u8>, c: Seq<u8>)
    requires
        !comes_before(b, a),
        !comes_before(c, b),
    ensures
        !comes_before(c, a),
    decreases a.len(),
{
    if a.len() > 0 && b.len() > 0 && c.len() > 0 && a[0] == b[0] && b[0] == c[0] {
        lemma_transitive(a.skip(1), b.skip(1), c.skip(1));
    }
}

/// The number of leading entries that an entry does not come before.
pub open spec fn entries_before(entries: Seq<Entry>, order: Seq<int>, key: Seq<u8>) -> int
    decreases order.len(),
{
    if order.len() == 0 || comes_before(key, entries[order[0]].key@) {
        0
    } else {
        1 + entries_before(entries, order.skip(1), key)
    }
}

/// The places of the first `count` entries in the order of their keys.
pub open spec fn key_order(entries: Seq<Entry>, count: nat) -> Seq<int>
    decreases count,
{
    if count == 0 {
        Seq::empty()
    } else {
        let before = key_order(entries, (count - 1) as nat);
        before.insert(
            entries_before(entries, before, entries[count - 1].key@),
            count - 1,
        )
    }
}

/// Entries stand in the order of their keys.
pub open spec fn in_key_order(entries: Seq<Entry>, order: Seq<int>) -> bool {
    forall|i: int, j: int|
        0 <= i < j < order.len() ==> !comes_before(
            #[trigger] entries[order[j]].key@,
            #[trigger] entries[order[i]].key@,
        )
}

proof fn lemma_entries_before(entries: Seq<Entry>, order: Seq<int>, key: Seq<u8>)
    ensures
        0 <= entries_before(entries, order, key) <= order.len(),
        forall|i: int|
            0 <= i < entries_before(entries, order, key) ==> !comes_before(
                key,
                #[trigger] entries[order[i]].key@,
            ),
        entries_before(entries, order, key) < order.len() ==> comes_before(
            key,
            entries[order[entries_before(entries, order, key)]].key@,
        ),
    decreases order.len(),
{
    if order.len() > 0 && !comes_before(key, entries[order[0]].key@) {
        let rest = order.skip(1);
        lemma_entries_before(entries, rest, key);
        assert forall|i: int| 0 <= i < entries_before(entries, order, key) implies !comes_before(
            key,
            #[trigger] entries[order[i]].key@,
        ) by {
            if i > 0 {
                assert(rest[i - 1] == order[i]);
            }
        }
    }
}

/// Each of the first `count` entries has one place in the order, and the keys are in order.
pub proof fn lemma_key_order(entries: Seq<Entry>, count: nat)
    requires
        count <= entries.len(),
    ensures
        key_order(entries, count).len() == count,
        in_key_order(entries, key_order(entries, count)),
        forall|i: int|
            0 <= i < count ==> 0 <= #[trigger] key_order(entries, count)[i] < count,
        forall|i: int, j: int|
            0 <= i < j < count ==> #[trigger] key_order(entries, count)[i]
                != #[trigger] key_order(entries, count)[j],
        forall|k: int| 0 <= k < count ==> #[trigger] key_order(entries, count).contains(k),
    decreases count,
{
    if count > 0 {
        let before = key_order(entries, (count - 1) as nat);
        let key = entries[count - 1].key@;
        let place = entries_before(entries, before, key);
        let order = key_order(entries, count);
        lemma_key_order(entries, (count - 1) as nat);
        lemma_entries_before(entries, before, key);
        assert(order[place] == count - 1);
        assert forall|i: int, j: int| 0 <= i < j < order.len() implies !comes_before(
            #[trigger] entries[order[j]].key@,
            #[trigger] entries[order[i]].key@,
        ) by {
            if i < place {
                assert(order[i] == before[i]);
            } else if i > place {
                assert(order[i] == before[i - 1]);
            }
            if j < place {
                assert(order[j] == before[j]);
            } else if j > place {
                assert(order[j] == before[j - 1]);
            }
            if j == place {
                lemma_total(entries[before[i]].key@, key);
                assert(!comes_before(key, entries[before[i]].key@));
            } else if i == place {
                let first = entries[before[place]].key@;
                let other = entries[before[j - 1]].key@;
                lemma_total(key, first);
                if j - 1 > place {
                    assert(!comes_before(other, first));
                    lemma_transitive(key, first, other);
                }
            }
        }
        assert forall|k: int| 0 <= k < count implies #[trigger] order.contains(k) by {
            if k < count - 1 {
                assert(before.contains(k));
                let i = choose|i: int| 0 <= i < before.len() && before[i] == k;
                if i < place {
                    assert(order[i] == k);
                } else {
                    assert(order[i + 1] == k);
                }
            }
        }
    }
}

/// Whether bytes come before other bytes.
pub fn is_before(a: &Vec<u8>, b: &Vec<u8>) -> (result: bool)
    ensures
        result == comes_before(a@, b@),
{
    let mut i: usize = 0;
    assert(a@.skip(0) =~= a@);
    assert(b@.skip(0) =~= b@);
    while i < a.len() && i < b.len()
        invariant
            i <= a@.len(),
            i <= b@.len(),
            comes_before(a@, b@) == comes_before(a@.skip(i as int), b@.skip(i as int)),
        decreases a@.len() - i,
    {
        assert(a@.skip(i as int)[0] == a@[i as int]);
        assert(b@.skip(i as int)[0] == b@[i as int]);
        if a[i] != b[i] {
            return a[i] < b[i];
        }
        assert(a@.skip(i as int).skip(1) =~= a@.skip(i + 1));
        assert(b@.skip(i as int).skip(1) =~= b@.skip(i + 1));
        i = i + 1;
    }
    i < b.len()
}

/// The places of all entries in the order of their keys.
pub fn sorted_places(entries: &Vec<Entry>) -> (places: Vec<usize>)
    ensures
        places@.len() == entries@.len(),
        forall|i: int|
            0 <= i < places@.len() ==> #[trigger] places@[i] == key_order(
                entries@,
                entries@.len(),
            )[i],
        forall|i: int| 0 <= i < places@.len() ==> #[trigger] places@[i] < entries@.len(),
{
    let mut places: Vec<usize> = Vec::new();
    let mut n: usize = 0;
    while n < entries.len()
        invariant
            n <= entries@.len(),
            places@.len() == n == key_order(entries@, n as nat).len(),
            forall|i: int|
                0 <= i < n ==> #[trigger] places@[i] == key_order(entries@, n as nat)[i],
            forall|i: int| 0 <= i < n ==> #[trigger] places@[i] < n,
        decreases entries@.len() - n,
    {
        let ghost before = key_order(entries@, n as nat);
        let ghost key = entries@[n as int].key@;
        let mut place: usize = 0;
        assert(before.skip(0) =~= before);
        while place < places.len() && !is_before(&entries[n].key, &entries[places[place]].key)
            invariant
                n < entries@.len(),
                place <= places@.len() == before.len(),
                key == entries@[n as int].key@,
                forall|i: int| 0 <= i < places@.len() ==> #[trigger] places@[i] == before[i],
                forall|i: int| 0 <= i < places@.len() ==> #[trigger] places@[i] < n,
                entries_before(entries@, before, key) == place + entries_before(
                    entries@,
                    before.skip(place as int),
                    key,
                ),
            decreases places@.len() - place,
        {
            assert(before.skip(place as int)[0] == before[place as int]);
            assert(before.skip(place as int).skip(1) =~= before.skip(place + 1));
            place = place + 1;
        }
        if place < places.len() {
            assert(before.skip(place as int)[0] == before[place as int]);
        }
        assert(place == entries_before(entries@, before, key));
        places.insert(place, n);
        n = n + 1;
    }
    places
}

} // verus!
