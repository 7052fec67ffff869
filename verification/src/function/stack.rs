//! A stack with a bound on its depth.

use vstd::prelude::*;

verus! {

/// A stack of at most `C` items.
#[derive(Debug)]
pub struct ArgumentsStack<T, const C: usize> {
    stack: Vec<T>,
}

impl<T, const C: usize> View for ArgumentsStack<T, C> {
    type V = Seq<T>;

    closed spec fn view(&self) -> Seq<T> {
        self.stack@
    }
}

impl<T, const C: usize> ArgumentsStack<T, C> {
    #[verifier::type_invariant]
    spec fn wf(&self) -> bool {
        self.stack@.len() <= C
    }

    /// An empty stack.
    pub fn new() -> (stack: Self)
        ensures
            stack@ == Seq::<T>::empty(),
    {
        ArgumentsStack { stack: Vec::new() }
    }

    /// The number of items.
    pub fn len(&self) -> (len: usize)
        ensures
            len == self@.len(),
            len <= C,
    {
        proof {
            use_type_invariant(self);
        }
        self.stack.len()
    }

    /// Whether the stack has no items.
    pub fn is_empty(&self) -> (empty: bool)
        ensures
            empty == (self@.len() == 0),
    {
        self.stack.len() == 0
    }

    /// Push an item, unless the stack is full.
    pub fn push(&mut self, item: T) -> (result: Option<()>)
        ensures
            if old(self)@.len() < C {
                result is Some && final(self)@ == old(self)@.push(item)
            } else {
                result is None && final(self)@ == old(self)@
            },
    {
        proof {
            use_type_invariant(&*self);
        }
        if self.stack.len() == C {
            return None;
        }
        let mut stack: Vec<T> = Vec::new();
        std::mem::swap(&mut stack, &mut self.stack);
        stack.push(item);
        self.stack = stack;
        Some(())
    }

    /// The item at a place, counted from the bottom.
    pub fn at(&self, index: usize) -> (item: Option<&T>)
        ensures
            match item {
                Some(item) => index < self@.len() && *item == self@[index as int],
                None => index >= self@.len(),
            },
    {
        if index >= self.stack.len() {
            None
        } else {
            Some(&self.stack[index])
        }
    }

    /// The item on top.
    pub fn last(&self) -> (item: Option<&T>)
        ensures
            match item {
                Some(item) => self@.len() > 0 && *item == self@.last(),
                None => self@.len() == 0,
            },
    {
        if self.stack.len() == 0 {
            None
        } else {
            Some(&self.stack[self.stack.len() - 1])
        }
    }

    /// Take the item on top.
    pub fn pop(&mut self) -> (item: Option<T>)
        ensures
            if old(self)@.len() == 0 {
                item is None && final(self)@ == old(self)@
            } else {
                item == Some(old(self)@.last()) && final(self)@ == old(self)@.drop_last()
            },
    {
        proof {
            use_type_invariant(&*self);
        }
        let mut stack: Vec<T> = Vec::new();
        std::mem::swap(&mut stack, &mut self.stack);
        let item = stack.pop();
        self.stack = stack;
        item
    }

    /// The items from the bottom to the top.
    pub fn items(&self) -> (items: &[T])
        ensures
            items@ == self@,
    {
        self.stack.as_slice()
    }

    /// The items as they are moved: the ones from `start` on go up by `shift` places, those on
    /// top come back in at the place of the lowest.
    pub open spec fn rolled(items: Seq<T>, start: int, shift: int) -> Seq<T> {
        let count = items.len() - start;
        Seq::new(
            items.len(),
            |i: int|
                if i < start {
                    items[i]
                } else {
                    items[start + (i - start - shift) % count]
                },
        )
    }
}

impl<T: Copy, const C: usize> ArgumentsStack<T, C> {
    /// Move the items from `start` on by a number of places.
    pub fn roll(&mut self, start: usize, shift: i32)
        requires
            start < old(self)@.len(),
        ensures
            final(self)@ == ArgumentsStack::<T, C>::rolled(
                old(self)@,
                start as int,
                shift as int,
            ),
    {
        proof {
            use_type_invariant(&*self);
        }
        let len: usize = self.stack.len();
        let count: usize = len - start;
        // The place, from `start` on, of the item that becomes the lowest.
        let first: usize = Self::first_place(shift, count);
        let mut moved: Vec<T> = Vec::new();
        let mut i: usize = 0;
        while i < len
            invariant
                i <= len,
                len == self.stack@.len(),
                start < len,
                count == len - start,
                first < count,
                first == (-shift) % (count as int),
                moved@.len() == i,
                forall|k: int|
                    0 <= k < i ==> #[trigger] moved@[k] == (if k < start {
                        self.stack@[k]
                    } else {
                        self.stack@[start + (k - start - shift) % (count as int)]
                    }),
            decreases len - i,
        {
            if i < start {
                moved.push(self.stack[i]);
            } else {
                let offset: usize = i - start;
                let place: usize = if offset < count - first {
                    offset + first
                } else {
                    offset - (count - first)
                };
                proof {
                    vstd::arithmetic::div_mod::lemma_add_mod_noop_right(
                        offset as int,
                        -shift as int,
                        count as int,
                    );
                    assert((offset + first) % (count as int) == (offset - shift) % (count as int));
                    if offset + first < count {
                        vstd::arithmetic::div_mod::lemma_small_mod(
                            (offset + first) as nat,
                            count as nat,
                        );
                    } else {
                        vstd::arithmetic::div_mod::lemma_mod_add_multiples_vanish(
                            offset + first - count,
                            count as int,
                        );
                        vstd::arithmetic::div_mod::lemma_small_mod(
                            (offset + first - count) as nat,
                            count as nat,
                        );
                    }
                    assert(place == (offset - shift) % (count as int));
                }
                moved.push(self.stack[start + place]);
            }
            i = i + 1;
        }
        proof {
            assert(moved@ =~= ArgumentsStack::<T, C>::rolled(
                self.stack@,
                start as int,
                shift as int,
            ));
        }
        self.stack = moved;
    }

    fn first_place(shift: i32, count: usize) -> (first: usize)
        requires
            count > 0,
        ensures
            first < count,
            first == (-shift) % (count as int),
    {
        if shift <= 0 {
            let distance: u64 = (-(shift as i64)) as u64;
            (distance % count as u64) as usize
        } else {
            let remainder: u64 = shift as u64 % count as u64;
            proof {
                let n = count as int;
                let s = shift as int;
                let r = remainder as int;
                vstd::arithmetic::div_mod::lemma_fundamental_div_mod(s, n);
                let q = s / n;
                if r == 0 {
                    assert(-s == n * (-q)) by (nonlinear_arith)
                        requires
                            s == n * q,
                    ;
                    vstd::arithmetic::div_mod::lemma_fundamental_div_mod_converse(-s, n, -q, 0);
                } else {
                    assert(-s == n * (-q - 1) + (n - r)) by (nonlinear_arith)
                        requires
                            s == n * q + r,
                    ;
                    vstd::arithmetic::div_mod::lemma_fundamental_div_mod_converse(
                        -s,
                        n,
                        -q - 1,
                        n - r,
                    );
                }
            }
            if remainder == 0 {
                0
            } else {
                count - remainder as usize
            }
        }
    }
}

} // verus!
