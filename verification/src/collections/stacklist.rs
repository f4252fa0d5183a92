//! A list which can be pushed to, popped from and iterated through, and
//! which is stored entirely on the stack. The maximum capacity and the
//! contained type are fixed at compile time. Pushing past the capacity is
//! reported as an error; nothing is ever reallocated.
//!
//! The list is modelled by the sequence of its items, oldest first
//! (`list@`). The contract of every operation is stated over that sequence,
//! and the laws at the end of the module are proved from those contracts.
//! That a list never holds more than its capacity is part of its type
//! invariant, so no operation asks anything of its caller.

use vstd::prelude::*;

verus! {

/// The ways in which an operation on a list can fail.
#[derive(Debug, Clone, Copy, PartialEq, Eq, Structural)]
pub enum ListError {
    /// Raised when attempting to push an item to a list that is at capacity.
    ListFull,
}

impl ListError {
    /// The text of [`ListError::message`].
    pub open spec fn spec_message(self) -> Seq<char> {
        match self {
            ListError::ListFull => "the list is full"@,
        }
    }

    /// A human-readable description of the error.
    pub fn message(&self) -> (text: &'static str)
        ensures
            text@ == self.spec_message(),
    {
        match self {
            ListError::ListFull => "the list is full",
        }
    }
}

/// The items of a list after pushing `item` onto one that holds `items` and
/// has room for `capacity`: the item is appended unless the list is full.
pub open spec fn pushed<T>(items: Seq<T>, capacity: nat, item: T) -> Seq<T> {
    if items.len() < capacity {
        items.push(item)
    } else {
        items
    }
}

/// What pushing onto a list that holds `items` and has room for `capacity`
/// returns: success unless the list is full.
pub open spec fn push_result<T>(items: Seq<T>, capacity: nat) -> Result<(), ListError> {
    if items.len() < capacity {
        Ok(())
    } else {
        Err(ListError::ListFull)
    }
}

/// The items of a list after popping from one that holds `items`: the
/// newest item is gone unless the list was empty.
pub open spec fn popped<T>(items: Seq<T>) -> Seq<T> {
    if items.len() > 0 {
        items.drop_last()
    } else {
        items
    }
}

/// What popping from a list that holds `items` returns: the newest item,
/// or `None` if there is none.
pub open spec fn pop_result<T>(items: Seq<T>) -> Option<T> {
    if items.len() > 0 {
        Some(items.last())
    } else {
        None
    }
}

/// The steps that push each of `items` in turn.
pub open spec fn pushes<T>(items: Seq<T>) -> Seq<Option<T>> {
    Seq::new(items.len(), |i: int| Some(items[i]))
}

/// The items of a list after a run of operations on one that holds `items`
/// and has room for `capacity`. Each step `Some(item)` pushes `item` and
/// each step `None` pops.
pub open spec fn after_steps<T>(items: Seq<T>, capacity: nat, steps: Seq<Option<T>>) -> Seq<T>
    decreases steps.len(),
{
    if steps.len() == 0 {
        items
    } else {
        let before = after_steps(items, capacity, steps.drop_last());
        match steps.last() {
            Some(item) => pushed(before, capacity, item),
            None => popped(before),
        }
    }
}

/// Everything an iterator hands out, in order, when `next` is called until
/// it is exhausted, starting with `remaining` still to come.
pub open spec fn yields<T>(remaining: Seq<T>) -> Seq<T>
    decreases remaining.len(),
{
    if remaining.len() == 0 {
        Seq::empty()
    } else {
        seq![remaining.first()] + yields(remaining.drop_first())
    }
}

/// A storage slot that holds no item.
fn vacant<T>(_index: usize) -> (slot: Option<T>)
    ensures
        slot is None,
{
    None
}

/// Builds the backing array with `core::array::from_fn`, which fills slot
/// `i` with what the function it is given returns for `i`. That function
/// is [`vacant`], so every slot of the array is `None`.
#[verifier::external_body]
fn vacant_slots<T, const S: usize>() -> (slots: [Option<T>; S])
    ensures
        forall|i: int| 0 <= i < S ==> slots@[i] is None,
{
    core::array::from_fn(|index| vacant(index))
}

/// Puts `item` into the slot at the write position and moves the write
/// position past it.
fn write_slot<T, const S: usize>(data: &mut [Option<T>; S], writer_index: &mut usize, item: T)
    requires
        *old(writer_index) < S,
    ensures
        *final(writer_index) == *old(writer_index) + 1,
        final(data)@ == old(data)@.update(*old(writer_index) as int, Some(item)),
    no_unwind
{
    data[*writer_index] = Some(item);
    *writer_index += 1;
}

/// Moves the write position back by one and empties the slot it then
/// stands on.
fn take_slot<T, const S: usize>(data: &mut [Option<T>; S], writer_index: &mut usize) -> (slot:
    Option<T>)
    requires
        0 < *old(writer_index) <= S,
    ensures
        *final(writer_index) == *old(writer_index) - 1,
        slot == old(data)@[*final(writer_index) as int],
        final(data)@ == old(data)@.update(*final(writer_index) as int, None),
    no_unwind
{
    *writer_index -= 1;
    let mut slot: Option<T> = None;
    core::mem::swap(&mut data[*writer_index], &mut slot);
    slot
}

/// A list stored on the stack of type `T` up to a maximum number of items
/// `S`.
pub struct StackList<T, const S: usize> {
    data: [Option<T>; S],
    writer_index: usize,
}

impl<T, const S: usize> View for StackList<T, S> {
    type V = Seq<T>;

    /// The items of the list, oldest first.
    closed spec fn view(&self) -> Seq<T> {
        Seq::new(self.writer_index as nat, |i: int| self.data@[i].unwrap())
    }
}

impl<T, const S: usize> StackList<T, S> {
    /// The storage discipline: the write position is within the capacity,
    /// every slot below it holds an item and every slot from it on is
    /// vacant.
    #[verifier::type_invariant]
    spec fn wf(&self) -> bool {
        &&& self.writer_index <= S
        &&& forall|i: int| 0 <= i < self.writer_index ==> self.data@[i] is Some
        &&& forall|i: int| self.writer_index <= i < S ==> self.data@[i] is None
    }

    /// Whether the list holds as many items as it has room for.
    pub open spec fn spec_is_full(&self) -> bool {
        self@.len() == S
    }

    /// Whether the list holds no item.
    pub open spec fn spec_is_empty(&self) -> bool {
        self@.len() == 0
    }

    /// Push an item to the end of the list.
    ///
    /// A full list refuses the item with [`ListError::ListFull`] and stays
    /// exactly as it was.
    pub fn push(&mut self, item: T) -> (res: Result<(), ListError>)
        ensures
            final(self)@ == pushed(old(self)@, S as nat, item),
            res == push_result(old(self)@, S as nat),
            final(self)@.len() <= S,
            old(self)@.len() >= S ==> *final(self) == *old(self),
    {
        proof {
            use_type_invariant(&*self);
        }
        if self.is_full() {
            return Err(ListError::ListFull);
        }
        write_slot(&mut self.data, &mut self.writer_index, item);
        Ok(())
    }

    /// Return the item at the top of the stack. `None` if empty, in which
    /// case the list stays exactly as it was.
    pub fn pop(&mut self) -> (res: Option<T>)
        ensures
            final(self)@ == popped(old(self)@),
            res == pop_result(old(self)@),
            final(self)@.len() <= S,
            old(self)@.len() == 0 ==> *final(self) == *old(self),
    {
        proof {
            use_type_invariant(&*self);
        }
        if self.is_empty() {
            None
        } else {
            take_slot(&mut self.data, &mut self.writer_index)
        }
    }

    /// Returns true if the list is full.
    #[verifier::when_used_as_spec(spec_is_full)]
    pub fn is_full(&self) -> (full: bool)
        ensures
            full == self.spec_is_full(),
            self@.len() <= S,
    {
        proof {
            use_type_invariant(self);
        }
        self.writer_index == S
    }

    /// Returns true if the list is empty.
    #[verifier::when_used_as_spec(spec_is_empty)]
    pub fn is_empty(&self) -> (empty: bool)
        ensures
            empty == self.spec_is_empty(),
            self@.len() <= S,
    {
        proof {
            use_type_invariant(self);
        }
        self.writer_index == 0
    }

    /// Get an iterator over the items in the stack.
    /// Iterates FIFO.
    pub fn iter(&self) -> (it: StackListIter<'_, T, S>)
        ensures
            it.list() == *self,
            it.position() == 0,
            it@ == self@,
            self@.len() <= S,
    {
        proof {
            use_type_invariant(self);
        }
        StackListIter { list: self, reader_index: 0 }
    }

    /// Initialize an empty list on the stack.
    pub fn new() -> (list: Self)
        ensures
            list@ == Seq::<T>::empty(),
    {
        StackList { data: vacant_slots(), writer_index: 0 }
    }

    /// Consume the list and produce an iterator.
    /// Iterates LIFO.
    pub fn into_iter(self) -> (it: IntoIter<T, S>)
        ensures
            it@ == self@.reverse(),
    {
        IntoIter(self)
    }

    /// A list with room for at least one item is never empty and full at
    /// once, and one that holds some items but fewer than its capacity is
    /// neither.
    pub proof fn lemma_empty_full_exclusive(&self)
        ensures
            S > 0 ==> !(self.spec_is_empty() && self.spec_is_full()),
            0 < self@.len() < S ==> !self.spec_is_empty() && !self.spec_is_full(),
    {
    }
}

/// An iterator over references to the items in the list, oldest first.
pub struct StackListIter<'a, T, const S: usize> {
    list: &'a StackList<T, S>,
    reader_index: usize,
}

impl<'a, T, const S: usize> View for StackListIter<'a, T, S> {
    type V = Seq<T>;

    /// The items still to come, in the order in which they will come.
    open spec fn view(&self) -> Seq<T> {
        self.list()@.skip(self.position() as int)
    }
}

impl<'a, T, const S: usize> StackListIter<'a, T, S> {
    /// The list that is iterated over.
    pub closed spec fn list(&self) -> StackList<T, S> {
        *self.list
    }

    /// How many items have been handed out.
    pub closed spec fn position(&self) -> nat {
        self.reader_index as nat
    }

    /// The iterator has not run past the end of the list.
    #[verifier::type_invariant]
    spec fn wf(&self) -> bool {
        self.reader_index <= self.list.writer_index
    }

    /// Hand out the next item, or `None` once every item has been handed
    /// out.
    pub fn next(&mut self) -> (res: Option<&'a T>)
        ensures
            final(self).list() == old(self).list(),
            final(self).position() <= final(self).list()@.len(),
            old(self)@.len() > 0 ==> res == Some(&old(self)@.first()),
            old(self)@.len() > 0 ==> final(self)@ == old(self)@.drop_first(),
            old(self)@.len() > 0 ==> final(self).position() == old(self).position() + 1,
            old(self)@.len() == 0 ==> res is None,
            old(self)@.len() == 0 ==> *final(self) == *old(self),
    {
        proof {
            use_type_invariant(&*self);
            use_type_invariant(self.list);
        }
        if self.reader_index == self.list.writer_index {
            // End of list reached.
            None
        } else {
            let ret = &self.list.data[self.reader_index];
            self.reader_index += 1;
            match ret {
                Some(item) => Some(item),
                None => None,
            }
        }
    }

    /// The number of items still to come, as a lower and an upper bound.
    /// Both are exact.
    pub fn size_hint(&self) -> (hint: (usize, Option<usize>))
        ensures
            hint.0 == self@.len(),
            hint.1 == Some(hint.0),
            self.position() <= self.list()@.len(),
    {
        proof {
            use_type_invariant(self);
        }
        let remaining: usize = self.list.writer_index - self.reader_index;
        (remaining, Some(remaining))
    }
}

/// An iterator that owns a list and hands out its items, newest first.
pub struct IntoIter<T, const S: usize>(StackList<T, S>);

impl<T, const S: usize> View for IntoIter<T, S> {
    type V = Seq<T>;

    /// The items still to come, in the order in which they will come.
    closed spec fn view(&self) -> Seq<T> {
        self.0@.reverse()
    }
}

impl<T, const S: usize> IntoIter<T, S> {
    /// Hand out the next item, or `None` once the list is used up.
    pub fn next(&mut self) -> (res: Option<T>)
        ensures
            old(self)@.len() > 0 ==> res == Some(old(self)@.first()),
            old(self)@.len() > 0 ==> final(self)@ == old(self)@.drop_first(),
            old(self)@.len() == 0 ==> res is None,
            old(self)@.len() == 0 ==> *final(self) == *old(self),
    {
        self.0.pop()
    }
}

/// Pushes that fit all succeed: starting from `start`, pushing `items` one
/// after the other leaves `start` followed by `items`, so each push added
/// exactly one item. Once the list holds `capacity` items the next push
/// fails with [`ListError::ListFull`] and changes nothing.
pub proof fn lemma_pushes_until_full<T>(start: Seq<T>, capacity: nat, items: Seq<T>, extra: T)
    requires
        start.len() + items.len() <= capacity,
    ensures
        after_steps(start, capacity, pushes(items)) == start + items,
        forall|k: int|
            0 <= k < items.len() ==> push_result(#[trigger] (start + items.take(k)), capacity)
                is Ok,
        start.len() + items.len() == capacity ==> push_result(start + items, capacity)
            == Err::<(), ListError>(ListError::ListFull),
        start.len() + items.len() == capacity ==> pushed(start + items, capacity, extra)
            == start + items,
    decreases items.len(),
{
    if items.len() > 0 {
        let front = items.drop_last();
        lemma_pushes_until_full(start, capacity, front, extra);
        assert(pushes(items).drop_last() =~= pushes(front));
    }
}

/// Popping right after a successful push gives back the pushed item and
/// leaves the list as it was before the push.
pub proof fn lemma_push_then_pop<T>(items: Seq<T>, capacity: nat, item: T)
    requires
        items.len() < capacity,
    ensures
        push_result(items, capacity) is Ok,
        pop_result(pushed(items, capacity, item)) == Some(item),
        popped(pushed(items, capacity, item)) == items,
{
}

/// Popping from an empty list any number of times changes nothing.
pub proof fn lemma_pop_empty_idempotent<T>(items: Seq<T>)
    requires
        items.len() == 0,
    ensures
        pop_result(items) is None,
        popped(items) == items,
        popped(popped(items)) == items,
{
}

/// However pushes and pops are interleaved, a list that starts within its
/// capacity stays within it.
pub proof fn lemma_steps_within_capacity<T>(items: Seq<T>, capacity: nat, steps: Seq<Option<T>>)
    requires
        items.len() <= capacity,
    ensures
        after_steps(items, capacity, steps).len() <= capacity,
    decreases steps.len(),
{
    if steps.len() > 0 {
        lemma_steps_within_capacity(items, capacity, steps.drop_last());
    }
}

/// A push that succeeds adds exactly one item and one that fails adds none;
/// a pop from a list that holds something removes exactly one item and a
/// pop from an empty list removes none.
pub proof fn lemma_step_changes_len_by_one<T>(items: Seq<T>, capacity: nat, item: T)
    ensures
        items.len() < capacity ==> pushed(items, capacity, item).len() == items.len() + 1,
        items.len() >= capacity ==> pushed(items, capacity, item).len() == items.len(),
        items.len() > 0 ==> popped(items).len() == items.len() - 1,
        items.len() == 0 ==> popped(items).len() == 0,
{
}

/// An iterator that is run until it is exhausted hands out exactly the
/// items that were still to come, in their order. For [`StackList::iter`]
/// these are the items of the list, oldest first.
pub proof fn lemma_yields_remaining<T>(remaining: Seq<T>)
    ensures
        yields(remaining) == remaining,
    decreases remaining.len(),
{
    if remaining.len() > 0 {
        lemma_yields_remaining(remaining.drop_first());
    }
}

/// Consuming a list that holds `items` hands out every item once, newest
/// first.
pub proof fn lemma_consuming_yields_newest_first<T>(items: Seq<T>)
    ensures
        yields(items.reverse()).len() == items.len(),
        forall|i: int|
            0 <= i < items.len() ==> #[trigger] yields(items.reverse())[i] == items[items.len() - 1
                - i],
{
    lemma_yields_remaining(items.reverse());
}

} // verus!
