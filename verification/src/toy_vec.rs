//! The container: construction, access, append and remove-last.

use vstd::prelude::*;

use crate::growth::{
    capacity_after_push, capacity_after_pushes, grown_capacity, is_least_power_of_two_at_least,
    lemma_capacity_after_pushes,
};
use crate::iter::Iter;

verus! {

/// A growable sequence of `T`.
///
/// The backing store is always fully initialised. Its low `len` slots hold
/// the elements, in the order they were pushed; every slot above them holds
/// a value that `T::default()` produced.
pub struct ToyVec<T> {
    elements: Vec<T>,
    len: usize,
}

/// `value` is a possible result of `T::default()`.
pub open spec fn is_default<T: Default>(value: T) -> bool {
    call_ensures(T::default, (), value)
}

impl<T> ToyVec<T> {
    /// Every slot of the backing store, the spare ones included.
    pub closed spec fn storage(&self) -> Seq<T> {
        self.elements@
    }

    /// The number of elements held.
    pub closed spec fn spec_len(&self) -> nat {
        self.len as nat
    }

    /// The number of slots in the backing store.
    pub open spec fn spec_capacity(&self) -> nat {
        self.storage().len()
    }
}

impl<T> View for ToyVec<T> {
    type V = Seq<T>;

    /// The elements held, oldest first: the low slots of the store.
    open spec fn view(&self) -> Seq<T> {
        self.storage().take(self.spec_len() as int)
    }
}

impl<T: Default> ToyVec<T> {
    /// The elements fit in the store, and every spare slot holds a default.
    pub open spec fn wf(&self) -> bool {
        &&& self.spec_len() <= self.spec_capacity()
        &&& forall|i: int|
            self.spec_len() <= i < self.spec_capacity() ==> is_default(#[trigger] self.storage()[i])
    }

    /// A well-formed sequence that holds nothing, in a store of `capacity`
    /// slots.
    pub open spec fn is_fresh(&self, capacity: nat) -> bool {
        &&& self.wf()
        &&& self.spec_len() == 0
        &&& self.spec_capacity() == capacity
    }

    /// What `get` returns for `index`.
    pub open spec fn spec_get(&self, index: usize) -> Option<&T> {
        if index < self@.len() {
            Some(&self@[index as int])
        } else {
            None
        }
    }

    /// What `get_or` returns for `index` and `default`.
    pub open spec fn spec_get_or<'a>(&'a self, index: usize, default: &'a T) -> &'a T {
        if index < self@.len() {
            &self@[index as int]
        } else {
            default
        }
    }

    /// `self` is what pushing `element` onto `before` leaves: the element
    /// stands behind those of `before`, and the store has grown if and only
    /// if `before` was full. Where it has not grown, the element has taken
    /// the first spare slot and no other slot has changed.
    pub open spec fn is_push_of(&self, before: &Self, element: T) -> bool {
        &&& self.wf()
        &&& self@ =~= before@.push(element)
        &&& self.spec_capacity() == capacity_after_push(before.spec_len(), before.spec_capacity())
        &&& before.spec_len() < before.spec_capacity() ==> self.storage()
            =~= before.storage().update(before.spec_len() as int, element)
    }

    /// `self` and `popped` are what a pop from `before` leaves. From an
    /// empty sequence nothing comes and nothing changes. Otherwise the last
    /// element comes out, and its slot, now spare, holds a default; no
    /// other slot changes.
    pub open spec fn is_pop_of(&self, before: &Self, popped: Option<T>) -> bool {
        &&& self.wf()
        &&& if before.spec_len() == 0 {
            &&& popped is None
            &&& self@ =~= before@
            &&& self.storage() =~= before.storage()
        } else {
            let last = before.spec_len() - 1;
            &&& popped == Some(before@.last())
            &&& self@ =~= before@.drop_last()
            &&& self.storage() =~= before.storage().update(last, self.storage()[last])
        }
    }

    /// A store of `size` slots, each holding a default value.
    fn allocate_in_heap(size: usize) -> (store: Vec<T>)
        ensures
            store@.len() == size,
            forall|i: int| 0 <= i < size ==> is_default(#[trigger] store@[i]),
    {
        let mut store: Vec<T> = Vec::new();
        let mut filled: usize = 0;
        while filled < size
            invariant
                filled <= size,
                store@.len() == filled,
                forall|i: int| 0 <= i < filled ==> is_default(#[trigger] store@[i]),
            decreases size - filled,
        {
            store.push(T::default());
            filled += 1;
        }
        store
    }

    /// An empty sequence whose store has exactly `capacity` slots.
    pub fn with_capacity(capacity: usize) -> (v: Self)
        ensures
            v.is_fresh(capacity as nat),
    {
        Self { elements: Self::allocate_in_heap(capacity), len: 0 }
    }

    /// An empty sequence with no store at all.
    pub fn new() -> (v: Self)
        ensures
            v.is_fresh(0),
    {
        Self::with_capacity(0)
    }

    /// The number of elements held.
    pub fn len(&self) -> (n: usize)
        requires
            self.wf(),
        ensures
            n == self.spec_len(),
            n == self@.len(),
            n <= self.spec_capacity(),
    {
        self.len
    }

    /// The number of slots in the backing store.
    pub fn capacity(&self) -> (c: usize)
        requires
            self.wf(),
        ensures
            c == self.spec_capacity(),
            self.spec_len() <= c,
    {
        self.elements.len()
    }

    /// Appends `element` as the new last element, growing the store first
    /// when it is full.
    ///
    /// The grown store must still have a size that the machine can count.
    pub fn push(&mut self, element: T)
        requires
            old(self).wf(),
            capacity_after_push(old(self).spec_len(), old(self).spec_capacity()) <= usize::MAX,
        ensures
            final(self).is_push_of(old(self), element),
    {
        if self.len == self.capacity() {
            self.grow();
        }
        self.elements[self.len] = element;
        self.len += 1;
    }

    /// The element at `index`, or `None` when `index` is out of range.
    pub fn get(&self, index: usize) -> (r: Option<&T>)
        requires
            self.wf(),
        ensures
            r == self.spec_get(index),
    {
        if index < self.len {
            Some(&self.elements[index])
        } else {
            None
        }
    }

    /// The element at `index`, or `default` when `index` is out of range.
    pub fn get_or<'a>(&'a self, index: usize, default: &'a T) -> (r: &'a T)
        requires
            self.wf(),
        ensures
            r == self.spec_get_or(index, default),
    {
        self.get(index).unwrap_or(default)
    }

    /// Replaces the store by a larger one and moves every slot of the old
    /// store, in order, into the low slots of the new one.
    fn grow(&mut self)
        requires
            old(self).wf(),
            grown_capacity(old(self).spec_capacity()) <= usize::MAX,
        ensures
            final(self).wf(),
            final(self).spec_len() == old(self).spec_len(),
            final(self).spec_capacity() == grown_capacity(old(self).spec_capacity()),
            final(self).storage().take(old(self).spec_capacity() as int) == old(self).storage(),
    {
        if self.capacity() == 0 {
            self.elements = Self::allocate_in_heap(1);
        } else {
            let mut old_elements = Self::allocate_in_heap(self.capacity() * 2);
            core::mem::swap(&mut self.elements, &mut old_elements);
            let ghost moved = old_elements@;
            let mut i: usize = 0;
            for elem in it: old_elements.into_iter()
                invariant
                    i == it.index(),
                    it.seq() == moved,
                    self.len == old(self).len,
                    self.len <= moved.len(),
                    self.elements@.len() == 2 * moved.len() <= usize::MAX,
                    forall|j: int| 0 <= j < i ==> #[trigger] self.elements@[j] == moved[j],
                    forall|j: int|
                        i <= j < self.elements@.len() ==> is_default(#[trigger] self.elements@[j]),
            {
                self.elements[i] = elem;
                i += 1;
            }
        }
    }

    /// Removes the last element and returns it, or returns `None` when the
    /// sequence is empty. The vacated slot is refilled with a default value.
    pub fn pop(&mut self) -> (popped: Option<T>)
        requires
            old(self).wf(),
        ensures
            final(self).is_pop_of(old(self), popped),
    {
        if self.len == 0 {
            None
        } else {
            self.len -= 1;
            let mut elem = T::default();
            core::mem::swap(&mut self.elements[self.len], &mut elem);
            Some(elem)
        }
    }

    /// A cursor over the elements held now, oldest first.
    pub fn iter<'vec>(&'vec self) -> (it: Iter<'vec, T>)
        requires
            self.wf(),
        ensures
            it.wf(),
            it.items() == self@,
            it.position() == 0,
    {
        Iter::over(&self.elements, self.len)
    }
}

impl<T: Default> ToyVec<T> {
    /// `states` are the sequences that pushing `elements`, one after the
    /// other and with no pop between, leads through.
    pub open spec fn is_push_chain(states: Seq<Self>, elements: Seq<T>) -> bool {
        &&& states.len() == elements.len() + 1
        &&& forall|i: int|
            #![trigger elements[i]]
            0 <= i < elements.len() ==> states[i + 1].is_push_of(&states[i], elements[i])
    }

    /// A well-formed sequence never holds more elements than its store has
    /// slots, and its view has exactly the elements it holds.
    pub proof fn lemma_len_le_capacity(&self)
        requires
            self.wf(),
        ensures
            self@.len() == self.spec_len(),
            self@.len() <= self.spec_capacity(),
    {
    }

    /// A pop straight after a push returns the element pushed and leaves
    /// the elements and their number as they were before the push. Where
    /// the sequence was not full, the capacity is as before too.
    pub proof fn lemma_pop_undoes_push(
        before: &Self,
        element: T,
        pushed: &Self,
        popped: Option<T>,
        after: &Self,
    )
        requires
            before.wf(),
            pushed.is_push_of(before, element),
            after.is_pop_of(pushed, popped),
        ensures
            popped == Some(element),
            after@ == before@,
            after.spec_len() == before.spec_len(),
            after.spec_capacity() == pushed.spec_capacity(),
            before.spec_len() < before.spec_capacity() ==> after.spec_capacity()
                == before.spec_capacity(),
    {
        assert(pushed@.len() == before@.len() + 1);
        assert(after@ =~= pushed@.drop_last());
    }

    /// A sequence that was empty holds, after any number of pushes, the
    /// elements pushed, in the order they were pushed.
    pub proof fn lemma_pushes_keep_order(states: Seq<Self>, elements: Seq<T>)
        requires
            states[0].is_fresh(states[0].spec_capacity()),
            Self::is_push_chain(states, elements),
        ensures
            states.last()@ == elements,
        decreases elements.len(),
    {
        if elements.len() == 0 {
            assert(states.last()@ =~= elements);
        } else {
            let held = elements.len() - 1;
            Self::lemma_pushes_keep_order(states.drop_last(), elements.drop_last());
            assert(states.drop_last().last() == states[held]);
            assert(states.last().is_push_of(&states[held], elements[held]));
            assert(states.last()@ =~= elements);
        }
    }

    /// After `elements.len()` pushes without a pop onto a sequence that
    /// started with no slots, the capacity is the smallest of 1, 2, 4, 8,
    /// ... that is not below that number, and 0 where nothing was pushed.
    pub proof fn lemma_pushes_double_capacity(states: Seq<Self>, elements: Seq<T>)
        requires
            states[0].is_fresh(0),
            Self::is_push_chain(states, elements),
        ensures
            states.last().spec_capacity() == capacity_after_pushes(elements.len()),
            elements.len() == 0 ==> states.last().spec_capacity() == 0,
            elements.len() > 0 ==> is_least_power_of_two_at_least(
                states.last().spec_capacity(),
                elements.len(),
            ),
        decreases elements.len(),
    {
        if elements.len() > 0 {
            let held = elements.len() - 1;
            Self::lemma_pushes_double_capacity(states.drop_last(), elements.drop_last());
            Self::lemma_pushes_keep_order(states.drop_last(), elements.drop_last());
            assert(states.drop_last().last() == states[held]);
            assert(states.last().is_push_of(&states[held], elements[held]));
        }
        lemma_capacity_after_pushes(elements.len());
    }

    /// A sequence in which nothing was pushed yet has no element at any
    /// index, whatever its capacity.
    pub proof fn lemma_fresh_holds_nothing(&self, capacity: nat, index: usize, default: &T)
        requires
            self.is_fresh(capacity),
        ensures
            self.spec_get(index) is None,
            self.spec_get_or(index, default) == default,
    {
    }
}

} // verus!
