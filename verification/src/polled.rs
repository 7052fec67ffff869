//! Questions to a host.

use vstd::prelude::*;

verus! {

/// A host's function that answers yes or no, and what it has answered so far.
///
/// Only a call of the function adds an answer.
pub struct Polled<C: Fn() -> bool> {
    ask: C,
    answers: Ghost<Seq<bool>>,
}

impl<C: Fn() -> bool> Polled<C> {
    /// The function of the host.
    pub closed spec fn host(&self) -> C {
        self.ask
    }

    /// The answers of the host, in turn.
    pub closed spec fn answers(&self) -> Seq<bool> {
        self.answers@
    }

    /// The function may be asked.
    #[verifier::type_invariant]
    spec fn wf(&self) -> bool {
        call_requires(self.ask, ())
    }

    /// A host that has not been asked yet.
    pub fn new(ask: C) -> (polled: Self)
        requires
            call_requires(ask, ()),
        ensures
            polled.host() == ask,
            polled.answers() == Seq::<bool>::empty(),
    {
        Polled { ask, answers: Ghost(Seq::empty()) }
    }

    /// Ask the host.
    pub fn poll(&mut self) -> (answer: bool)
        ensures
            final(self).host() == old(self).host(),
            final(self).answers() == old(self).answers().push(answer),
            call_ensures(old(self).host(), (), answer),
    {
        proof {
            use_type_invariant(&*self);
        }
        let answer = (self.ask)();
        self.answers = Ghost(self.answers@.push(answer));
        answer
    }
}

/// The answers that were added to earlier ones.
pub open spec fn added(before: Seq<bool>, after: Seq<bool>) -> Seq<bool> {
    after.skip(before.len() as int)
}

/// A host may have been asked more, and has given the answers that were added.
pub open spec fn is_polled_more<C: Fn() -> bool>(
    before: Polled<C>,
    after: Polled<C>,
) -> bool {
    &&& after.host() == before.host()
    &&& before.answers().is_prefix_of(after.answers())
    &&& forall|i: int|
        before.answers().len() <= i < after.answers().len() ==> call_ensures(
            before.host(),
            (),
            #[trigger] after.answers()[i],
        )
}

/// Questions follow each other.
pub proof fn lemma_polled_more<C: Fn() -> bool>(
    before: Polled<C>,
    between: Polled<C>,
    after: Polled<C>,
)
    requires
        is_polled_more(before, between),
        is_polled_more(between, after),
    ensures
        is_polled_more(before, after),
        forall|i: int|
            0 <= i < between.answers().len() ==> #[trigger] after.answers()[i]
                == between.answers()[i],
{
    let answers = between.answers();
    assert forall|i: int| 0 <= i < answers.len() implies #[trigger] after.answers()[i]
        == answers[i] by {
        assert(after.answers().subrange(0, answers.len() as int)[i] == answers[i]);
    }
    assert(before.answers() =~= after.answers().subrange(0, before.answers().len() as int)) by {
        assert(before.answers() =~= answers.subrange(0, before.answers().len() as int));
    }
}

} // verus!
