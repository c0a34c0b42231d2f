//! The ordered queue of pending indrabase claims.
//!
//! Each entry is pre-assigned a core offset among the indrabase-multiplexer
//! cores when it is enqueued, round-robin in arrival order. The offset is a
//! function only of arrival order — never of the claim's content or the
//! claimant's identity — so a claimant cannot choose which core or validator
//! group will service it.

use vstd::prelude::*;

use crate::types::{IndrabaseEntry, QueuedIndrabase};

verus! {

/// The queue of all indrabase claims.
#[derive(Clone, PartialEq, Eq, Debug)]
pub struct IndrabaseClaimQueue {
    /// The queued claims, in arrival order.
    pub queue: Vec<QueuedIndrabase>,
    /// The core offset the next enqueued entry receives; kept below the
    /// number of indrabase cores while that number is positive and unchanged.
    pub next_core_offset: u32,
}

/// The queue contents and rotating offset after one entry is enqueued with
/// `n_indrabase_cores` multiplexer cores configured.
pub open spec fn spec_enqueue(
    queue: Seq<QueuedIndrabase>,
    next_core_offset: u32,
    entry: IndrabaseEntry,
    n_indrabase_cores: u32,
) -> (Seq<QueuedIndrabase>, u32)
    recommends
        n_indrabase_cores > 0,
{
    (
        queue.push(QueuedIndrabase { claim: entry, core_offset: next_core_offset }),
        (((next_core_offset as int + 1) % (n_indrabase_cores as int)) as u32),
    )
}

/// The position of the first queued entry with the given core offset, or -1
/// if there is none.
pub open spec fn spec_first_on_core(queue: Seq<QueuedIndrabase>, core_offset: u32) -> int
    decreases queue.len(),
{
    if queue.len() == 0 {
        -1
    } else if queue[0].core_offset == core_offset {
        0
    } else {
        let r = spec_first_on_core(queue.skip(1), core_offset);
        if r == -1 {
            -1
        } else {
            r + 1
        }
    }
}

/// The first queued entry with the given core offset, if any.
pub open spec fn spec_peek_on_core(queue: Seq<QueuedIndrabase>, core_offset: u32) -> Option<
    IndrabaseEntry,
> {
    let r = spec_first_on_core(queue, core_offset);
    if r == -1 {
        None
    } else {
        Some(queue[r].claim)
    }
}

/// `spec_first_on_core` finds exactly the least position whose entry carries
/// the given core offset, and -1 exactly when no entry does.
pub proof fn lemma_first_on_core(queue: Seq<QueuedIndrabase>, core_offset: u32)
    ensures
        spec_first_on_core(queue, core_offset) == -1 ==> forall|i: int|
            0 <= i < queue.len() ==> queue[i].core_offset != core_offset,
        spec_first_on_core(queue, core_offset) != -1 ==> {
            let r = spec_first_on_core(queue, core_offset);
            &&& 0 <= r < queue.len()
            &&& queue[r].core_offset == core_offset
            &&& forall|i: int| 0 <= i < r ==> queue[i].core_offset != core_offset
        },
    decreases queue.len(),
{
    if queue.len() > 0 && queue[0].core_offset != core_offset {
        lemma_first_on_core(queue.skip(1), core_offset);
        let r = spec_first_on_core(queue.skip(1), core_offset);
        if r == -1 {
            assert forall|i: int|
                0 <= i < queue.len() implies queue[i].core_offset != core_offset by {
                if i >= 1 {
                    assert(queue.skip(1)[i - 1] == queue[i]);
                }
            }
        } else {
            assert(queue.skip(1)[r] == queue[r + 1]);
            assert forall|i: int| 0 <= i < r + 1 implies queue[i].core_offset != core_offset by {
                if i >= 1 {
                    assert(queue.skip(1)[i - 1] == queue[i]);
                }
            }
        }
    }
}

impl IndrabaseClaimQueue {
    /// Queue an indrabase entry to be processed.
    ///
    /// Provide the entry and the number of indrabase cores, which must be
    /// greater than 0.
    pub fn enqueue_entry(&mut self, entry: IndrabaseEntry, n_indrabase_cores: u32)
        requires
            n_indrabase_cores > 0,
        ensures
            (final(self).queue@, final(self).next_core_offset) == spec_enqueue(
                old(self).queue@,
                old(self).next_core_offset,
                entry,
                n_indrabase_cores,
            ),
    {
        let core_offset = self.next_core_offset;
        self.next_core_offset = ((self.next_core_offset as u64 + 1) % (
        n_indrabase_cores as u64)) as u32;
        self.queue.push(QueuedIndrabase { claim: entry, core_offset });
    }

    /// The position of the first queued entry with the given core offset.
    fn find_on_core(&self, core_offset: u32) -> (r: Option<usize>)
        ensures
            match r {
                Some(i) => i == spec_first_on_core(self.queue@, core_offset) && i
                    < self.queue@.len(),
                None => spec_first_on_core(self.queue@, core_offset) == -1,
            },
    {
        proof {
            lemma_first_on_core(self.queue@, core_offset);
        }
        let mut i: usize = 0;
        while i < self.queue.len()
            invariant
                i <= self.queue@.len(),
                forall|j: int| 0 <= j < i ==> self.queue@[j].core_offset != core_offset,
            decreases self.queue@.len() - i,
        {
            if self.queue[i].core_offset == core_offset {
                proof {
                    lemma_first_on_core(self.queue@, core_offset);
                }
                return Some(i);
            }
            i = i + 1;
        }
        None
    }

    /// Take next queued entry with given core offset, if any.
    pub fn take_next_on_core(&mut self, core_offset: u32) -> (r: Option<IndrabaseEntry>)
        ensures
            final(self).next_core_offset == old(self).next_core_offset,
            r == spec_peek_on_core(old(self).queue@, core_offset),
            match r {
                Some(_) => final(self).queue@ == old(self).queue@.remove(
                    spec_first_on_core(old(self).queue@, core_offset),
                ),
                None => final(self).queue@ == old(self).queue@,
            },
    {
        match self.find_on_core(core_offset) {
            Some(i) => Some(self.queue.remove(i).claim),
            None => None,
        }
    }

    /// Get the next queued entry with given core offset, if any.
    pub fn get_next_on_core(&self, core_offset: u32) -> (r: Option<IndrabaseEntry>)
        ensures
            r == spec_peek_on_core(self.queue@, core_offset),
    {
        match self.find_on_core(core_offset) {
            Some(i) => Some(self.queue[i].claim),
            None => None,
        }
    }
}

impl Default for IndrabaseClaimQueue {
    /// The empty queue.
    fn default() -> (r: IndrabaseClaimQueue)
        ensures
            r.queue@ == Seq::<QueuedIndrabase>::empty(),
            r.next_core_offset == 0,
    {
        IndrabaseClaimQueue { queue: Vec::new(), next_core_offset: 0 }
    }
}

/// Law: enqueueing an entry on an otherwise-empty queue and immediately
/// taking the next entry at the offset it was placed on returns the same
/// entry unchanged and leaves the queue empty again.
pub proof fn lemma_enqueue_take_roundtrip(
    next_core_offset: u32,
    entry: IndrabaseEntry,
    n_indrabase_cores: u32,
)
    requires
        n_indrabase_cores > 0,
    ensures
        ({
            let (q1, _next1) = spec_enqueue(
                Seq::<QueuedIndrabase>::empty(),
                next_core_offset,
                entry,
                n_indrabase_cores,
            );
            &&& spec_peek_on_core(q1, next_core_offset) == Some(entry)
            &&& spec_first_on_core(q1, next_core_offset) == 0
            &&& q1.remove(0) =~= Seq::<QueuedIndrabase>::empty()
        }),
{
    let (q1, _next1) = spec_enqueue(
        Seq::<QueuedIndrabase>::empty(),
        next_core_offset,
        entry,
        n_indrabase_cores,
    );
    assert(q1.len() == 1);
    assert(q1[0].core_offset == next_core_offset);
}

} // verus!
