//! The in-process event bus.
//!
//! Subscribers register callbacks (by token) under an event name; publish
//! order per event is subscription order.  Invoking the callbacks is the
//! owner's work.
use vstd::prelude::*;

use crate::task::{retain_live, TaskManager};

verus! {

/// The subscription table: callback tokens per event name.
pub struct EventBus {
    pub subscribers: TaskManager,
}

impl EventBus {
    /// The table is well formed.
    pub open spec fn wf(self) -> bool {
        self.subscribers.wf()
    }

    /// The callbacks under `event`, in subscription order.
    pub open spec fn callbacks_of(self, event: Seq<char>) -> Seq<u64> {
        self.subscribers.handles_of(event)
    }

    /// An empty bus.
    pub fn new() -> (b: Self)
        ensures
            b.wf(),
            forall|e: Seq<char>| #[trigger] b.callbacks_of(e) == Seq::<u64>::empty(),
    {
        let b = EventBus { subscribers: TaskManager::new() };
        proof {
            assert forall|e: Seq<char>| #[trigger] b.callbacks_of(e) == Seq::<u64>::empty() by {
                assert(!b.subscribers.has_tag(e));
            }
        }
        b
    }

    /// Registers one more callback under `event`, behind the earlier ones.
    pub fn subscribe(&mut self, event: &str, callback: u64)
        requires
            old(self).wf(),
        ensures
            final(self).wf(),
            final(self).callbacks_of(event@) == old(self).callbacks_of(event@).push(callback),
            forall|e: Seq<char>|
                e != event@ ==> #[trigger] final(self).callbacks_of(e) == old(self).callbacks_of(
                    e,
                ),
    {
        let n = self.subscribers.count(event);
        let mask: Vec<bool> = vec_false(n);
        proof {
            assert(self.subscribers.wf());
            assert(mask@.len() == self.subscribers.handles_of(event@).len());
            lemma_retain_all_live(old(self).callbacks_of(event@), mask@);
        }
        let _pruned = self.subscribers.add(event, callback, &mask);
    }

    /// Drops every callback under `event`; the returned tokens are the
    /// dropped ones, whose pending deliveries the owner also cancels.
    pub fn unsubscribe(&mut self, event: &str) -> (dropped: Vec<u64>)
        requires
            old(self).wf(),
        ensures
            final(self).wf(),
            dropped@ == old(self).callbacks_of(event@),
            final(self).callbacks_of(event@) == Seq::<u64>::empty(),
            forall|e: Seq<char>|
                e != event@ ==> #[trigger] final(self).callbacks_of(e) == old(self).callbacks_of(
                    e,
                ),
    {
        self.subscribers.dispose(event)
    }

    /// The callbacks a publish of `event` must invoke, in order; empty when
    /// nobody subscribed.
    pub fn get_callbacks(&self, event: &str) -> (r: Vec<u64>)
        requires
            self.wf(),
        ensures
            r@ == self.callbacks_of(event@),
    {
        self.subscribers.get(event)
    }
}

/// A mask of `n` entries, none finished.
fn vec_false(n: usize) -> (v: Vec<bool>)
    ensures
        v@.len() == n,
        forall|i: int| 0 <= i < n ==> !(#[trigger] v@[i]),
{
    let mut v: Vec<bool> = Vec::new();
    let mut i: usize = 0;
    while i < n
        invariant
            v@.len() == i <= n,
            forall|j: int| 0 <= j < i ==> !(#[trigger] v@[j]),
        decreases n - i,
    {
        v.push(false);
        i = i + 1;
    }
    v
}

/// Pruning with an all-false mask keeps everything.
proof fn lemma_retain_all_live(hs: Seq<u64>, fin: Seq<bool>)
    requires
        hs.len() == fin.len(),
        forall|i: int| 0 <= i < fin.len() ==> !(#[trigger] fin[i]),
    ensures
        retain_live(hs, fin) == hs,
    decreases hs.len(),
{
    if hs.len() > 0 {
        assert(!fin.last());
        assert forall|i: int|
            0 <= i < fin.drop_last().len() implies !(#[trigger] fin.drop_last()[i]) by {
            assert(fin.drop_last()[i] == fin[i]);
        }
        lemma_retain_all_live(hs.drop_last(), fin.drop_last());
        assert(retain_live(hs, fin) =~= hs);
    } else {
        assert(retain_live(hs, fin) =~= hs);
    }
}

} // verus!
