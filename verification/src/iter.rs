//! The read-only forward cursor over a sequence.

use vstd::prelude::*;

verus! {

/// A cursor over the elements that a sequence held when the cursor was made.
///
/// It borrows the sequence's store for as long as it, or any reference it
/// has yielded, is alive, so the sequence cannot be changed meanwhile.
pub struct Iter<'vec, T> {
    elements: &'vec Vec<T>,
    len: usize,
    pos: usize,
}

impl<'vec, T> Iter<'vec, T> {
    /// Every slot of the borrowed store.
    pub closed spec fn source(&self) -> Seq<T> {
        self.elements@
    }

    /// The number of elements the sequence held when the cursor was made.
    pub closed spec fn spec_len(&self) -> nat {
        self.len as nat
    }

    /// The number of elements yielded so far.
    pub closed spec fn position(&self) -> nat {
        self.pos as nat
    }

    /// The elements the cursor runs over, in the order it yields them.
    pub open spec fn items(&self) -> Seq<T> {
        self.source().take(self.spec_len() as int)
    }

    /// The elements still to come.
    pub open spec fn remaining(&self) -> Seq<T> {
        self.items().skip(self.position() as int)
    }

    /// The position lies within the elements, and these within the store.
    pub open spec fn wf(&self) -> bool {
        self.position() <= self.spec_len() <= self.source().len()
    }

    /// `self` and `yielded` are what one step from `before` leaves: the
    /// element at the position, with the position moved on by one, or
    /// nothing, with the cursor unchanged, once every element has come.
    pub open spec fn is_next_of(&self, before: &Self, yielded: Option<&T>) -> bool {
        &&& self.wf()
        &&& self.items() =~= before.items()
        &&& if before.position() < before.items().len() {
            &&& yielded == Some(&before.items()[before.position() as int])
            &&& self.position() == before.position() + 1
        } else {
            &&& yielded is None
            &&& self.position() == before.position()
        }
    }

    /// A cursor at the start of the low `len` slots of `elements`.
    pub(crate) fn over(elements: &'vec Vec<T>, len: usize) -> (it: Self)
        requires
            len <= elements@.len(),
        ensures
            it.wf(),
            it.items() == elements@.take(len as int),
            it.position() == 0,
    {
        Iter { elements, len, pos: 0 }
    }

    /// Yields the next element, or `None` once every element has come, and
    /// every time thereafter.
    pub fn next(&mut self) -> (yielded: Option<&'vec T>)
        requires
            old(self).wf(),
        ensures
            final(self).is_next_of(old(self), yielded),
    {
        if self.pos >= self.len {
            None
        } else {
            let res = Some(&self.elements[self.pos]);
            self.pos += 1;
            res
        }
    }

    /// `cursors` are the states that successive steps lead through, and
    /// `yields` what each step returned.
    pub open spec fn is_step_chain(cursors: Seq<Self>, yields: Seq<Option<&'vec T>>) -> bool {
        &&& cursors.len() == yields.len() + 1
        &&& forall|i: int|
            #![trigger yields[i]]
            0 <= i < yields.len() ==> cursors[i + 1].is_next_of(&cursors[i], yields[i])
    }

    /// A cursor at its start yields its elements in their order, one per
    /// step, and then nothing at every further step.
    pub proof fn lemma_steps_yield_in_order(cursors: Seq<Self>, yields: Seq<Option<&'vec T>>)
        requires
            cursors[0].wf(),
            cursors[0].position() == 0,
            Self::is_step_chain(cursors, yields),
        ensures
            cursors.last().items() == cursors[0].items(),
            cursors.last().position() == if yields.len() <= cursors[0].items().len() {
                yields.len()
            } else {
                cursors[0].items().len()
            },
            forall|i: int|
                #![trigger yields[i]]
                0 <= i < yields.len() ==> yields[i] == if i < cursors[0].items().len() {
                    Some(&cursors[0].items()[i])
                } else {
                    None
                },
        decreases yields.len(),
    {
        if yields.len() > 0 {
            let done = yields.len() - 1;
            Self::lemma_steps_yield_in_order(cursors.drop_last(), yields.drop_last());
            assert(cursors.drop_last().last() == cursors[done]);
            assert(cursors.last().is_next_of(&cursors[done], yields[done]));
            assert forall|i: int| 0 <= i < yields.len() implies #[trigger] yields[i] == if i
                < cursors[0].items().len() {
                Some(&cursors[0].items()[i])
            } else {
                None
            } by {
                if i < done {
                    assert(yields[i] == yields.drop_last()[i]);
                }
            }
        }
    }
}

} // verus!
