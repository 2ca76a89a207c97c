//! Merges the messages of several streams into one queue, with the memory that the waiting ones
//! take accounted for.
use std::collections::VecDeque;
use vstd::prelude::*;

use crate::memory_footprint::{reservation_size, MemoryFootPrint};

verus! {

/// The memory that is reserved for the first `n` messages of a list.
pub open spec fn total_reserved<M: MemoryFootPrint, E>(
    messages: Seq<Result<M, E>>,
    n: nat,
) -> nat
    decreases n,
{
    if n == 0 || n > messages.len() {
        0
    } else {
        total_reserved(messages, (n - 1) as nat) + crate::memory_footprint::reserved_for(
            messages[n - 1],
        ) as nat
    }
}

/// The messages of several streams that are waiting to be read, in the order in which they came,
/// and the number of streams that have not ended.
pub struct MergedStreams<M, E> {
    pub waiting: VecDeque<Result<M, E>>,
    pub open: usize,
}

/// What [`MergedStreams`] amounts to.
#[verifier::reject_recursive_types(M)]
#[verifier::reject_recursive_types(E)]
#[verifier::ext_equal]
pub struct MergedView<M, E> {
    pub waiting: Seq<Result<M, E>>,
    pub open: nat,
}

impl<M, E> View for MergedStreams<M, E> {
    type V = MergedView<M, E>;

    open spec fn view(&self) -> MergedView<M, E> {
        MergedView { waiting: self.waiting@, open: self.open as nat }
    }
}

impl<M: MemoryFootPrint, E> MergedView<M, E> {
    /// Whether the memory of every message that is waiting can be counted.
    pub open spec fn is_countable(self) -> bool {
        forall|i: int|
            #![trigger self.waiting[i]]
            0 <= i < self.waiting.len() ==> crate::memory_footprint::reserved_for(self.waiting[i])
                <= usize::MAX
    }

    /// The memory that is reserved for the messages that are waiting.
    pub open spec fn reserved(self) -> nat {
        total_reserved(self.waiting, self.waiting.len())
    }
}

/// What the reader of merged streams gets.
#[derive(Debug, PartialEq, Eq)]
pub enum Merged<M, E> {
    /// The next message, and how much of the memory that was reserved for it is free again.
    Message { message: Result<M, E>, release: usize },
    /// Nothing yet: there are streams that may bring more.
    Pending,
    /// Nothing any more: all streams have ended.
    End,
}

impl<M: MemoryFootPrint, E> MergedStreams<M, E> {
    /// Merged streams of which nothing has come yet.
    pub fn new(streams: usize) -> (merged: Self)
        ensures
            merged@ == (MergedView::<M, E> { waiting: Seq::empty(), open: streams as nat }),
            merged@.reserved() == 0,
            merged@.is_countable(),
    {
        MergedStreams { waiting: VecDeque::new(), open: streams }
    }

    /// Takes in a message, or the failure of a stream, and tells how much memory to reserve for it:
    /// its size, and nothing for a failure.
    pub fn arrive(&mut self, message: Result<M, E>) -> (reserve: usize)
        requires
            old(self)@.is_countable(),
            crate::memory_footprint::reserved_for(message) <= usize::MAX,
        ensures
            final(self)@.is_countable(),
            reserve == crate::memory_footprint::reserved_for(message),
            final(self)@ == (MergedView {
                waiting: old(self)@.waiting.push(message),
                ..old(self)@
            }),
            final(self)@.reserved() == old(self)@.reserved() + reserve,
    {
        let reserve: usize = reservation_size(&message);
        self.waiting.push_back(message);
        proof {
            lemma_same_total(self.waiting@, old(self)@.waiting, old(self)@.waiting.len());
        }
        reserve
    }

    /// Takes in that one of the streams has ended.
    pub fn end(&mut self)
        requires
            old(self)@.open > 0,
        ensures
            final(self)@ == (MergedView { open: (old(self)@.open - 1) as nat, ..old(self)@ }),
    {
        self.open = self.open - 1;
    }

    /// Hands out the message that has waited longest.
    pub fn take(&mut self) -> (taken: Merged<M, E>)
        requires
            old(self)@.is_countable(),
        ensures
            final(self)@.is_countable(),
            if old(self)@.waiting.len() > 0 {
                &&& taken matches Merged::Message { message, release }
                &&& message == old(self)@.waiting.first()
                &&& release == crate::memory_footprint::reserved_for(message)
                &&& final(self)@ == (MergedView {
                    waiting: old(self)@.waiting.drop_first(),
                    ..old(self)@
                })
                &&& final(self)@.reserved() == old(self)@.reserved() - release
            } else {
                &&& final(self)@ == old(self)@
                &&& taken == (if old(self)@.open > 0 {
                    Merged::<M, E>::Pending
                } else {
                    Merged::<M, E>::End
                })
            },
    {
        match self.waiting.pop_front() {
            Some(message) => {
                let release: usize = reservation_size(&message);
                proof {
                    lemma_total_without_first(old(self)@.waiting, old(self)@.waiting.len());
                    assert(self@.waiting =~= old(self)@.waiting.drop_first());
                }
                Merged::Message { message, release }
            },
            None => if self.open > 0 {
                Merged::Pending
            } else {
                Merged::End
            },
        }
    }
}

/// The memory for the first messages does not depend on the others.
proof fn lemma_same_total<M: MemoryFootPrint, E>(
    a: Seq<Result<M, E>>,
    b: Seq<Result<M, E>>,
    n: nat,
)
    requires
        n <= a.len(),
        n <= b.len(),
        forall|i: int| #![trigger a[i]] 0 <= i < n ==> a[i] == b[i],
    ensures
        total_reserved(a, n) == total_reserved(b, n),
    decreases n,
{
    if n > 0 {
        lemma_same_total(a, b, (n - 1) as nat);
        assert(a[n - 1] == b[n - 1]);
    }
}

proof fn lemma_total_without_first<M: MemoryFootPrint, E>(messages: Seq<Result<M, E>>, n: nat)
    requires
        0 < n <= messages.len(),
    ensures
        total_reserved(messages, n) == total_reserved(messages.drop_first(), (n - 1) as nat)
            + crate::memory_footprint::reserved_for(messages.first()) as nat,
    decreases n,
{
    if n > 1 {
        lemma_total_without_first(messages, (n - 1) as nat);
        assert(messages.drop_first()[n - 2] == messages[n - 1]);
    } else {
        assert(total_reserved(messages, 0) == 0);
    }
}

}
