//! Mathematical models of the scheduler's state transitions.
//!
//! Every mutating entry point of the scheduler is specified against a
//! recursive function in this module or in `fill`; the well-formedness
//! preservation lemmas are proved here by induction on those functions, so
//! the executable code only has to establish that it computes the model.

use vstd::prelude::*;

use crate::queue::spec_enqueue;
use crate::types::{
    AssignmentKind, CoreAssignment, CoreIndex, CoreOccupied, FreedReason, IndraId, QueuedIndrabase,
};

verus! {

// ---------------------------------------------------------------------------
// Counting live claims per workload.
// ---------------------------------------------------------------------------

/// How many queued entries claim workload `id`.
pub open spec fn count_in_queue(q: Seq<QueuedIndrabase>, id: IndraId) -> int
    decreases q.len(),
{
    if q.len() == 0 {
        0
    } else {
        (if q[0].claim.claim.0 == id {
            1int
        } else {
            0int
        }) + count_in_queue(q.skip(1), id)
    }
}

/// How many occupied cores hold an indrabase claim on workload `id`.
pub open spec fn count_in_cores(cores: Seq<Option<CoreOccupied>>, id: IndraId) -> int
    decreases cores.len(),
{
    if cores.len() == 0 {
        0
    } else {
        (match cores[0] {
            Some(CoreOccupied::Indrabase(e)) => if e.claim.0 == id {
                1int
            } else {
                0int
            },
            _ => 0int,
        }) + count_in_cores(cores.skip(1), id)
    }
}

/// How many scheduled assignments carry an indrabase claim on workload `id`.
pub open spec fn count_in_scheduled(s: Seq<CoreAssignment>, id: IndraId) -> int
    decreases s.len(),
{
    if s.len() == 0 {
        0
    } else {
        (match s[0].kind {
            AssignmentKind::Indrabase(_, _) => if s[0].indra_id == id {
                1int
            } else {
                0int
            },
            _ => 0int,
        }) + count_in_scheduled(s.skip(1), id)
    }
}

/// How many live claims on workload `id` exist anywhere: queued, occupying a
/// core, or scheduled.
pub open spec fn live_count(
    cores: Seq<Option<CoreOccupied>>,
    s: Seq<CoreAssignment>,
    q: Seq<QueuedIndrabase>,
    id: IndraId,
) -> int {
    count_in_cores(cores, id) + count_in_scheduled(s, id) + count_in_queue(q, id)
}

pub proof fn lemma_count_in_queue_nonneg(q: Seq<QueuedIndrabase>, id: IndraId)
    ensures
        0 <= count_in_queue(q, id) <= q.len(),
    decreases q.len(),
{
    if q.len() > 0 {
        lemma_count_in_queue_nonneg(q.skip(1), id);
    }
}

pub proof fn lemma_count_in_cores_nonneg(cores: Seq<Option<CoreOccupied>>, id: IndraId)
    ensures
        0 <= count_in_cores(cores, id) <= cores.len(),
    decreases cores.len(),
{
    if cores.len() > 0 {
        lemma_count_in_cores_nonneg(cores.skip(1), id);
    }
}

pub proof fn lemma_count_in_scheduled_nonneg(s: Seq<CoreAssignment>, id: IndraId)
    ensures
        0 <= count_in_scheduled(s, id) <= s.len(),
    decreases s.len(),
{
    if s.len() > 0 {
        lemma_count_in_scheduled_nonneg(s.skip(1), id);
    }
}

/// Appending an entry adds its claim to the queue count.
pub proof fn lemma_count_in_queue_push(q: Seq<QueuedIndrabase>, e: QueuedIndrabase, id: IndraId)
    ensures
        count_in_queue(q.push(e), id) == count_in_queue(q, id) + (if e.claim.claim.0 == id {
            1int
        } else {
            0int
        }),
    decreases q.len(),
{
    if q.len() == 0 {
        assert(q.push(e)[0] == e);
        assert(q.push(e).skip(1) =~= Seq::<QueuedIndrabase>::empty());
        assert(count_in_queue(q.push(e), id) == (if e.claim.claim.0 == id {
            1int
        } else {
            0int
        }) + count_in_queue(q.push(e).skip(1), id));
    } else {
        assert(q.push(e)[0] == q[0]);
        assert(q.push(e).skip(1) =~= q.skip(1).push(e));
        lemma_count_in_queue_push(q.skip(1), e, id);
        assert(count_in_queue(q.push(e), id) == (if q[0].claim.claim.0 == id {
            1int
        } else {
            0int
        }) + count_in_queue(q.skip(1).push(e), id));
    }
}

/// Removing an entry removes its claim from the queue count.
pub proof fn lemma_count_in_queue_remove(q: Seq<QueuedIndrabase>, i: int, id: IndraId)
    requires
        0 <= i < q.len(),
    ensures
        count_in_queue(q.remove(i), id) == count_in_queue(q, id) - (
        if q[i].claim.claim.0 == id {
            1int
        } else {
            0int
        }),
    decreases q.len(),
{
    if i == 0 {
        assert(q.remove(0) =~= q.skip(1));
    } else {
        assert(q.remove(i).skip(1) =~= q.skip(1).remove(i - 1));
        lemma_count_in_queue_remove(q.skip(1), i - 1, id);
    }
}

/// Updating one core shifts the occupancy count by the occupants exchanged.
pub proof fn lemma_count_in_cores_update(
    cores: Seq<Option<CoreOccupied>>,
    i: int,
    v: Option<CoreOccupied>,
    id: IndraId,
)
    requires
        0 <= i < cores.len(),
    ensures
        count_in_cores(cores.update(i, v), id) == count_in_cores(cores, id) - (
        match cores[i] {
            Some(CoreOccupied::Indrabase(e)) => if e.claim.0 == id {
                1int
            } else {
                0int
            },
            _ => 0int,
        }) + (match v {
            Some(CoreOccupied::Indrabase(e)) => if e.claim.0 == id {
                1int
            } else {
                0int
            },
            _ => 0int,
        }),
    decreases cores.len(),
{
    if i == 0 {
        assert(cores.update(0, v).skip(1) =~= cores.skip(1));
        assert(cores.update(0, v)[0] == v);
    } else {
        assert(cores.update(i, v).skip(1) =~= cores.skip(1).update(i - 1, v));
        assert(cores.update(i, v)[0] == cores[0]);
        lemma_count_in_cores_update(cores.skip(1), i - 1, v, id);
    }
}

/// Prepending an assignment adds its claim, if any, to the scheduled count.
pub proof fn lemma_count_in_scheduled_cons(x: CoreAssignment, s: Seq<CoreAssignment>, id: IndraId)
    ensures
        count_in_scheduled(seq![x] + s, id) == count_in_scheduled(s, id) + (match x.kind {
            AssignmentKind::Indrabase(_, _) => if x.indra_id == id {
                1int
            } else {
                0int
            },
            _ => 0int,
        }),
{
    assert((seq![x] + s).skip(1) =~= s);
    assert((seq![x] + s)[0] == x);
}

// ---------------------------------------------------------------------------
// Well-formedness predicates.
// ---------------------------------------------------------------------------

/// No queued entry is pre-assigned to this core offset.
pub open spec fn none_on_core(queue: Seq<QueuedIndrabase>, core_offset: u32) -> bool {
    forall|i: int| 0 <= i < queue.len() ==> queue[i].core_offset != core_offset
}

/// A scheduled entry for this core exists.
pub open spec fn has_core(s: Seq<CoreAssignment>, core: int) -> bool {
    exists|i: int| 0 <= i < s.len() && s[i].core == core
}

/// Scheduled assignments are strictly sorted by core index.
pub open spec fn sorted_by_core(s: Seq<CoreAssignment>) -> bool {
    forall|i: int, j: int| 0 <= i < j < s.len() ==> s[i].core < s[j].core
}

/// The claim index is strictly sorted (hence duplicate-free).
pub open spec fn ids_sorted(index: Seq<IndraId>) -> bool {
    forall|i: int, j: int| 0 <= i < j < index.len() ==> index[i] < index[j]
}

/// No scheduled assignment names a core that is currently occupied.
pub open spec fn scheduled_cores_free(
    s: Seq<CoreAssignment>,
    cores: Seq<Option<CoreOccupied>>,
) -> bool {
    forall|i: int|
        0 <= i < s.len() && s[i].core < cores.len() ==> cores[#[trigger] s[i].core as int] is None
}

/// Every workload has at most one live claim anywhere.
pub open spec fn claims_unique(
    cores: Seq<Option<CoreOccupied>>,
    s: Seq<CoreAssignment>,
    q: Seq<QueuedIndrabase>,
) -> bool {
    forall|id: IndraId| #[trigger] live_count(cores, s, q, id) <= 1
}

/// Every live claim's workload is recorded in the claim index.
pub open spec fn claims_indexed(
    cores: Seq<Option<CoreOccupied>>,
    s: Seq<CoreAssignment>,
    q: Seq<QueuedIndrabase>,
    index: Seq<IndraId>,
) -> bool {
    forall|id: IndraId| #[trigger] live_count(cores, s, q, id) >= 1 ==> index.contains(id)
}

// ---------------------------------------------------------------------------
// The sorted claim index.
// ---------------------------------------------------------------------------

/// The position of `id` in the index, or -1 if it is absent.
pub open spec fn spec_first_id(index: Seq<IndraId>, id: IndraId) -> int
    decreases index.len(),
{
    if index.len() == 0 {
        -1
    } else if index[0] == id {
        0
    } else {
        let r = spec_first_id(index.skip(1), id);
        if r == -1 {
            -1
        } else {
            r + 1
        }
    }
}

/// `spec_first_id` finds exactly the least position holding `id`, and -1
/// exactly when no position does.
pub proof fn lemma_first_id(index: Seq<IndraId>, id: IndraId)
    ensures
        spec_first_id(index, id) == -1 ==> forall|i: int|
            0 <= i < index.len() ==> index[i] != id,
        spec_first_id(index, id) != -1 ==> {
            let r = spec_first_id(index, id);
            &&& 0 <= r < index.len()
            &&& index[r] == id
            &&& forall|i: int| 0 <= i < r ==> index[i] != id
        },
    decreases index.len(),
{
    if index.len() > 0 && index[0] != id {
        lemma_first_id(index.skip(1), id);
        let r = spec_first_id(index.skip(1), id);
        if r == -1 {
            assert forall|i: int| 0 <= i < index.len() implies index[i] != id by {
                if i >= 1 {
                    assert(index.skip(1)[i - 1] == index[i]);
                }
            }
        } else {
            assert(index.skip(1)[r] == index[r + 1]);
            assert forall|i: int| 0 <= i < r + 1 implies index[i] != id by {
                if i >= 1 {
                    assert(index.skip(1)[i - 1] == index[i]);
                }
            }
        }
    }
}

/// The index with the record of `id` removed; an index without such a record
/// is unchanged.
pub open spec fn spec_index_remove(index: Seq<IndraId>, id: IndraId) -> Seq<IndraId> {
    let r = spec_first_id(index, id);
    if r == -1 {
        index
    } else {
        index.remove(r)
    }
}

/// Removing a record keeps the index sorted, drops exactly that record, and
/// keeps every other record.
pub proof fn lemma_index_remove(index: Seq<IndraId>, id: IndraId)
    requires
        ids_sorted(index),
    ensures
        ids_sorted(spec_index_remove(index, id)),
        !spec_index_remove(index, id).contains(id),
        forall|x: IndraId|
            x != id ==> (spec_index_remove(index, id).contains(x) <==> index.contains(x)),
{
    lemma_first_id(index, id);
    let r = spec_first_id(index, id);
    if r == -1 {
        assert(!index.contains(id)) by {
            if index.contains(id) {
                let w = choose|w: int| 0 <= w < index.len() && index[w] == id;
                assert(index[w] != id);
            }
        }
    } else {
        let out = index.remove(r);
        // strict sortedness means `id` occurs only at position r
        assert forall|i: int| 0 <= i < out.len() implies out[i] != id by {
            if i < r {
                assert(out[i] == index[i]);
            } else {
                assert(out[i] == index[i + 1]);
            }
        }
        assert(!out.contains(id)) by {
            if out.contains(id) {
                let w = choose|w: int| 0 <= w < out.len() && out[w] == id;
                assert(out[w] != id);
            }
        }
        assert forall|x: IndraId| x != id && index.contains(x) implies out.contains(x) by {
            let w = choose|w: int| 0 <= w < index.len() && index[w] == x;
            if w < r {
                assert(out[w] == x);
            } else {
                assert(w > r);
                assert(out[w - 1] == x);
            }
        }
        assert forall|x: IndraId| x != id && out.contains(x) implies index.contains(x) by {
            let w = choose|w: int| 0 <= w < out.len() && out[w] == x;
            if w < r {
                assert(index[w] == x);
            } else {
                assert(index[w + 1] == x);
            }
        }
        assert forall|i: int, j: int| 0 <= i < j < out.len() implies out[i] < out[j] by {
            if j < r {
            } else if i < r {
                assert(out[j] == index[j + 1]);
            } else {
                assert(out[i] == index[i + 1]);
                assert(out[j] == index[j + 1]);
            }
        }
    }
}

/// The position at which `id` belongs in a sorted index: the first position
/// holding a value not below `id`.
pub open spec fn spec_insert_pos(index: Seq<IndraId>, id: IndraId) -> int
    decreases index.len(),
{
    if index.len() == 0 {
        0
    } else if index[0] >= id {
        0
    } else {
        1 + spec_insert_pos(index.skip(1), id)
    }
}

/// `spec_insert_pos` splits the index into records below `id` and records
/// not below it.
pub proof fn lemma_insert_pos(index: Seq<IndraId>, id: IndraId)
    requires
        ids_sorted(index),
    ensures
        0 <= spec_insert_pos(index, id) <= index.len(),
        forall|j: int| 0 <= j < spec_insert_pos(index, id) ==> index[j] < id,
        forall|j: int| spec_insert_pos(index, id) <= j < index.len() ==> index[j] >= id,
    decreases index.len(),
{
    if index.len() > 0 && index[0] < id {
        lemma_insert_pos(index.skip(1), id);
        let p = spec_insert_pos(index.skip(1), id);
        assert forall|j: int| 0 <= j < p + 1 implies index[j] < id by {
            if j >= 1 {
                assert(index.skip(1)[j - 1] == index[j]);
            }
        }
        assert forall|j: int| p + 1 <= j < index.len() implies index[j] >= id by {
            assert(index.skip(1)[j - 1] == index[j]);
        }
    }
}

/// The index with a record of `id` inserted at its sorted position.
pub open spec fn spec_index_insert(index: Seq<IndraId>, id: IndraId) -> Seq<IndraId> {
    index.insert(spec_insert_pos(index, id), id)
}

/// Inserting a fresh record keeps the index sorted and adds exactly that
/// record.
pub proof fn lemma_index_insert(index: Seq<IndraId>, id: IndraId)
    requires
        ids_sorted(index),
        !index.contains(id),
    ensures
        ids_sorted(spec_index_insert(index, id)),
        spec_index_insert(index, id).contains(id),
        forall|x: IndraId|
            x != id ==> (spec_index_insert(index, id).contains(x) <==> index.contains(x)),
        spec_index_insert(index, id).len() == index.len() + 1,
{
    lemma_insert_pos(index, id);
    let p = spec_insert_pos(index, id);
    let out = index.insert(p, id);
    assert(out[p] == id);
    assert forall|j: int| 0 <= j < index.len() implies index[j] != id by {
        if index[j] == id {
            assert(index.contains(id));
        }
    }
    assert forall|i: int, j: int| 0 <= i < j < out.len() implies out[i] < out[j] by {
        if j < p {
        } else if i < p && j == p {
            assert(out[i] == index[i]);
        } else if i < p {
            assert(out[i] == index[i]);
            assert(out[j] == index[j - 1]);
        } else if i == p {
            assert(out[j] == index[j - 1]);
            assert(index[j - 1] >= id);
            assert(index[j - 1] != id);
        } else {
            assert(out[i] == index[i - 1]);
            assert(out[j] == index[j - 1]);
        }
    }
    assert forall|x: IndraId| x != id && index.contains(x) implies out.contains(x) by {
        let w = choose|w: int| 0 <= w < index.len() && index[w] == x;
        if w < p {
            assert(out[w] == x);
        } else {
            assert(out[w + 1] == x);
        }
    }
    assert forall|x: IndraId| x != id && out.contains(x) implies index.contains(x) by {
        let w = choose|w: int| 0 <= w < out.len() && out[w] == x;
        if w < p {
            assert(index[w] == x);
        } else {
            assert(w != p);
            assert(index[w - 1] == x);
        }
    }
}

// ---------------------------------------------------------------------------
// Freeing cores.
// ---------------------------------------------------------------------------

/// The state components after one core is freed: an out-of-range index or an
/// unoccupied core has no effect; a concluded indrabase claim leaves the
/// index (so the workload may claim again); a timed-out indrabase claim is
/// re-enqueued unchanged, unless no indrabase cores are configured, in which
/// case the claim is dropped outright and also leaves the index.
pub open spec fn spec_free_one(
    cores: Seq<Option<CoreOccupied>>,
    q: Seq<QueuedIndrabase>,
    next: u32,
    index: Seq<IndraId>,
    freed_core: CoreIndex,
    reason: FreedReason,
    n_indrabase_cores: u32,
) -> (Seq<Option<CoreOccupied>>, Seq<QueuedIndrabase>, u32, Seq<IndraId>) {
    if freed_core < cores.len() {
        match cores[freed_core as int] {
            None => (cores, q, next, index),
            Some(CoreOccupied::Indracore) => (cores.update(freed_core as int, None), q, next, index),
            Some(CoreOccupied::Indrabase(entry)) => {
                let cores1 = cores.update(freed_core as int, None);
                match reason {
                    FreedReason::Concluded => (
                        cores1,
                        q,
                        next,
                        spec_index_remove(index, entry.claim.0),
                    ),
                    FreedReason::TimedOut => {
                        if n_indrabase_cores > 0 {
                            let (q1, next1) = spec_enqueue(q, next, entry, n_indrabase_cores);
                            (cores1, q1, next1, index)
                        } else {
                            (cores1, q, next, spec_index_remove(index, entry.claim.0))
                        }
                    },
                }
            },
        }
    } else {
        (cores, q, next, index)
    }
}

/// The state components after the listed cores are freed, in order.
pub open spec fn spec_free_cores(
    cores: Seq<Option<CoreOccupied>>,
    q: Seq<QueuedIndrabase>,
    next: u32,
    index: Seq<IndraId>,
    freed: Seq<(CoreIndex, FreedReason)>,
    n_indrabase_cores: u32,
) -> (Seq<Option<CoreOccupied>>, Seq<QueuedIndrabase>, u32, Seq<IndraId>)
    decreases freed.len(),
{
    if freed.len() == 0 {
        (cores, q, next, index)
    } else {
        let (c1, q1, n1, i1) = spec_free_cores(cores, q, next, index, freed.drop_last(),
            n_indrabase_cores);
        spec_free_one(c1, q1, n1, i1, freed.last().0, freed.last().1, n_indrabase_cores)
    }
}

/// Freeing one core preserves well-formedness: the scheduled list is
/// untouched, cores only become unoccupied, claim uniqueness and index
/// coverage carry over.
pub proof fn lemma_free_one_preserves(
    cores: Seq<Option<CoreOccupied>>,
    q: Seq<QueuedIndrabase>,
    next: u32,
    index: Seq<IndraId>,
    freed_core: CoreIndex,
    reason: FreedReason,
    n_indrabase_cores: u32,
    s: Seq<CoreAssignment>,
)
    requires
        ids_sorted(index),
        claims_unique(cores, s, q),
    ensures
        ({
            let (c1, q1, n1, i1) = spec_free_one(cores, q, next, index, freed_core, reason,
                n_indrabase_cores);
            &&& c1.len() == cores.len()
            &&& forall|k: int| 0 <= k < cores.len() && cores[k] is None ==> c1[k] is None
            &&& ids_sorted(i1)
            &&& claims_unique(c1, s, q1)
            &&& (claims_indexed(cores, s, q, index) ==> claims_indexed(c1, s, q1, i1))
            &&& scheduled_cores_free(s, cores) ==> scheduled_cores_free(s, c1)
        }),
{
    let (c1, q1, n1, i1) = spec_free_one(cores, q, next, index, freed_core, reason,
        n_indrabase_cores);
    if freed_core < cores.len() {
        match cores[freed_core as int] {
            None => {},
            Some(CoreOccupied::Indracore) => {
                assert forall|id: IndraId| #[trigger] live_count(c1, s, q1, id) <= 1 by {
                    lemma_count_in_cores_update(cores, freed_core as int, None, id);
                    assert(live_count(cores, s, q, id) <= 1);
                }
                assert(claims_indexed(cores, s, q, index) ==> claims_indexed(c1, s, q1, i1)) by {
                    if claims_indexed(cores, s, q, index) {
                        assert forall|id: IndraId|
                            #[trigger] live_count(c1, s, q1, id) >= 1 implies i1.contains(id) by {
                            lemma_count_in_cores_update(cores, freed_core as int, None, id);
                            assert(live_count(cores, s, q, id) >= 1);
                        }
                    }
                }
            },
            Some(CoreOccupied::Indrabase(entry)) => {
                let eid = entry.claim.0;
                match reason {
                    FreedReason::Concluded => {
                        lemma_index_remove(index, eid);
                        assert forall|id: IndraId| #[trigger] live_count(c1, s, q1, id) <= 1 by {
                            lemma_count_in_cores_update(cores, freed_core as int, None, id);
                            assert(live_count(cores, s, q, id) <= 1);
                        }
                        assert(claims_indexed(cores, s, q, index) ==> claims_indexed(
                            c1,
                            s,
                            q1,
                            i1,
                        )) by {
                            if claims_indexed(cores, s, q, index) {
                                assert forall|id: IndraId|
                                    #[trigger] live_count(c1, s, q1, id) >= 1 implies i1.contains(
                                    id,
                                ) by {
                                    lemma_count_in_cores_update(cores, freed_core as int, None, id);
                                    assert(live_count(cores, s, q, id) >= 1);
                                    if id == eid {
                                        // the freed occupant was the only live claim on eid
                                        lemma_count_in_cores_nonneg(c1, id);
                                        lemma_count_in_queue_nonneg(q1, id);
                                        lemma_count_in_scheduled_nonneg(s, id);
                                        assert(live_count(cores, s, q, id) >= 2);
                                        assert(false);
                                    } else {
                                        assert(index.contains(id));
                                    }
                                }
                            }
                        }
                    },
                    FreedReason::TimedOut => {
                        if n_indrabase_cores > 0 {
                            assert forall|id: IndraId|
                                #[trigger] live_count(c1, s, q1, id) <= 1 by {
                                lemma_count_in_cores_update(cores, freed_core as int, None, id);
                                lemma_count_in_queue_push(
                                    q,
                                    QueuedIndrabase { claim: entry, core_offset: next },
                                    id,
                                );
                                assert(live_count(cores, s, q, id) <= 1);
                            }
                            assert(claims_indexed(cores, s, q, index) ==> claims_indexed(
                                c1,
                                s,
                                q1,
                                i1,
                            )) by {
                                if claims_indexed(cores, s, q, index) {
                                    assert forall|id: IndraId|
                                        #[trigger] live_count(c1, s, q1, id)
                                        >= 1 implies i1.contains(id) by {
                                        lemma_count_in_cores_update(
                                            cores,
                                            freed_core as int,
                                            None,
                                            id,
                                        );
                                        lemma_count_in_queue_push(
                                            q,
                                            QueuedIndrabase { claim: entry, core_offset: next },
                                            id,
                                        );
                                        assert(live_count(cores, s, q, id) >= 1);
                                    }
                                }
                            }
                        } else {
                            lemma_index_remove(index, eid);
                            assert forall|id: IndraId|
                                #[trigger] live_count(c1, s, q1, id) <= 1 by {
                                lemma_count_in_cores_update(cores, freed_core as int, None, id);
                                assert(live_count(cores, s, q, id) <= 1);
                            }
                            assert(claims_indexed(cores, s, q, index) ==> claims_indexed(
                                c1,
                                s,
                                q1,
                                i1,
                            )) by {
                                if claims_indexed(cores, s, q, index) {
                                    assert forall|id: IndraId|
                                        #[trigger] live_count(c1, s, q1, id)
                                        >= 1 implies i1.contains(id) by {
                                        lemma_count_in_cores_update(
                                            cores,
                                            freed_core as int,
                                            None,
                                            id,
                                        );
                                        assert(live_count(cores, s, q, id) >= 1);
                                        if id == eid {
                                            // the dropped occupant was the only live claim on eid
                                            lemma_count_in_cores_nonneg(c1, id);
                                            lemma_count_in_queue_nonneg(q1, id);
                                            lemma_count_in_scheduled_nonneg(s, id);
                                            assert(live_count(cores, s, q, id) >= 2);
                                            assert(false);
                                        } else {
                                            assert(index.contains(id));
                                        }
                                    }
                                }
                            }
                        }
                    },
                }
            },
        }
    }
}

/// Freeing any list of cores preserves well-formedness.
pub proof fn lemma_free_cores_preserves(
    cores: Seq<Option<CoreOccupied>>,
    q: Seq<QueuedIndrabase>,
    next: u32,
    index: Seq<IndraId>,
    freed: Seq<(CoreIndex, FreedReason)>,
    n_indrabase_cores: u32,
    s: Seq<CoreAssignment>,
)
    requires
        ids_sorted(index),
        claims_unique(cores, s, q),
    ensures
        ({
            let (c1, q1, n1, i1) = spec_free_cores(cores, q, next, index, freed,
                n_indrabase_cores);
            &&& c1.len() == cores.len()
            &&& forall|k: int| 0 <= k < cores.len() && cores[k] is None ==> c1[k] is None
            &&& ids_sorted(i1)
            &&& claims_unique(c1, s, q1)
            &&& (claims_indexed(cores, s, q, index) ==> claims_indexed(c1, s, q1, i1))
            &&& scheduled_cores_free(s, cores) ==> scheduled_cores_free(s, c1)
        }),
    decreases freed.len(),
{
    if freed.len() > 0 {
        lemma_free_cores_preserves(cores, q, next, index, freed.drop_last(), n_indrabase_cores, s);
        let (c1, q1, n1, i1) = spec_free_cores(cores, q, next, index, freed.drop_last(),
            n_indrabase_cores);
        lemma_free_one_preserves(c1, q1, n1, i1, freed.last().0, freed.last().1,
            n_indrabase_cores, s);
    }
}

// ---------------------------------------------------------------------------
// Noting cores as occupied.
// ---------------------------------------------------------------------------

/// The scheduled list and cores after the listed cores are noted occupied:
/// each scheduled entry whose core heads the occupied list is removed and
/// installed on its core as the corresponding occupant; every other entry is
/// kept.
pub open spec fn spec_occupied(
    sched: Seq<CoreAssignment>,
    cores: Seq<Option<CoreOccupied>>,
    occ: Seq<CoreIndex>,
) -> (Seq<CoreAssignment>, Seq<Option<CoreOccupied>>)
    decreases sched.len(),
{
    if sched.len() == 0 {
        (sched, cores)
    } else if occ.len() > 0 && occ[0] == sched[0].core {
        spec_occupied(
            sched.skip(1),
            cores.update(sched[0].core as int, Some(sched[0].spec_to_core_occupied())),
            occ.skip(1),
        )
    } else {
        let (s1, c1) = spec_occupied(sched.skip(1), cores, occ);
        (seq![sched[0]] + s1, c1)
    }
}

/// Noting cores occupied preserves well-formedness: the entries move from
/// the scheduled list onto their cores, cores change only at scheduled
/// positions, and claim uniqueness and index coverage carry over.
pub proof fn lemma_occupied_preserves(
    sched: Seq<CoreAssignment>,
    cores: Seq<Option<CoreOccupied>>,
    occ: Seq<CoreIndex>,
    q: Seq<QueuedIndrabase>,
    index: Seq<IndraId>,
)
    requires
        sorted_by_core(sched),
        scheduled_cores_free(sched, cores),
        claims_unique(cores, sched, q),
        forall|i: int| 0 <= i < occ.len() ==> occ[i] < cores.len(),
    ensures
        ({
            let (s1, c1) = spec_occupied(sched, cores, occ);
            &&& c1.len() == cores.len()
            &&& forall|p: int| 0 <= p < cores.len() && c1[p] != cores[p] ==> has_core(sched, p)
            &&& sorted_by_core(s1)
            &&& (sched.len() > 0 ==> forall|k: int|
                0 <= k < s1.len() ==> s1[k].core >= sched[0].core)
            &&& scheduled_cores_free(s1, c1)
            &&& claims_unique(c1, s1, q)
            &&& (claims_indexed(cores, sched, q, index) ==> claims_indexed(c1, s1, q, index))
        }),
    decreases sched.len(),
{
    let (s1, c1) = spec_occupied(sched, cores, occ);
    if sched.len() == 0 {
    } else if occ.len() > 0 && occ[0] == sched[0].core {
        let a = sched[0];
        let cores2 = cores.update(a.core as int, Some(a.spec_to_core_occupied()));
        assert(cores[a.core as int] is None);
        assert(sorted_by_core(sched.skip(1))) by {
            assert forall|i: int, j: int|
                0 <= i < j < sched.skip(1).len() implies sched.skip(1)[i].core < sched.skip(
                1,
            )[j].core by {
                assert(sched.skip(1)[i] == sched[i + 1]);
                assert(sched.skip(1)[j] == sched[j + 1]);
            }
        }
        assert(scheduled_cores_free(sched.skip(1), cores2)) by {
            assert forall|i: int|
                0 <= i < sched.skip(1).len() && sched.skip(1)[i].core
                    < cores2.len() implies cores2[#[trigger] sched.skip(1)[i].core as int]
                is None by {
                assert(sched.skip(1)[i] == sched[i + 1]);
                assert(sched[i + 1].core > a.core);
            }
        }
        assert(claims_unique(cores2, sched.skip(1), q)) by {
            assert forall|id: IndraId|
                #[trigger] live_count(cores2, sched.skip(1), q, id) <= 1 by {
                lemma_count_in_cores_update(cores, a.core as int, Some(a.spec_to_core_occupied()),
                    id);
                assert(seq![a] + sched.skip(1) =~= sched);
                lemma_count_in_scheduled_cons(a, sched.skip(1), id);
                assert(live_count(cores, sched, q, id) <= 1);
            }
        }
        lemma_occupied_preserves(sched.skip(1), cores2, occ.skip(1), q, index);
        assert forall|p: int| 0 <= p < cores.len() && c1[p] != cores[p] implies has_core(
            sched,
            p,
        ) by {
            if cores2[p] != cores[p] {
                assert(p == a.core as int);
                assert(sched[0].core == p);
            } else {
                assert(has_core(sched.skip(1), p));
                let w = choose|w: int| 0 <= w < sched.skip(1).len() && sched.skip(1)[w].core == p;
                assert(sched[w + 1] == sched.skip(1)[w]);
            }
        }
        if sched.skip(1).len() > 0 {
            assert(sched.skip(1)[0] == sched[1]);
        }
        assert(claims_indexed(cores, sched, q, index) ==> claims_indexed(c1, s1, q, index)) by {
            if claims_indexed(cores, sched, q, index) {
                assert(claims_indexed(cores2, sched.skip(1), q, index)) by {
                    assert forall|id: IndraId|
                        #[trigger] live_count(cores2, sched.skip(1), q, id) >= 1 implies
                        index.contains(id) by {
                        lemma_count_in_cores_update(cores, a.core as int,
                            Some(a.spec_to_core_occupied()), id);
                        assert(seq![a] + sched.skip(1) =~= sched);
                        lemma_count_in_scheduled_cons(a, sched.skip(1), id);
                        assert(live_count(cores, sched, q, id) >= 1);
                    }
                }
            }
        }
    } else {
        assert(sorted_by_core(sched.skip(1))) by {
            assert forall|i: int, j: int|
                0 <= i < j < sched.skip(1).len() implies sched.skip(1)[i].core < sched.skip(
                1,
            )[j].core by {
                assert(sched.skip(1)[i] == sched[i + 1]);
                assert(sched.skip(1)[j] == sched[j + 1]);
            }
        }
        assert(scheduled_cores_free(sched.skip(1), cores)) by {
            assert forall|i: int|
                0 <= i < sched.skip(1).len() && sched.skip(1)[i].core
                    < cores.len() implies cores[#[trigger] sched.skip(1)[i].core as int]
                is None by {
                assert(sched.skip(1)[i] == sched[i + 1]);
            }
        }
        assert(claims_unique(cores, sched.skip(1), q)) by {
            assert forall|id: IndraId|
                #[trigger] live_count(cores, sched.skip(1), q, id) <= 1 by {
                assert(seq![sched[0]] + sched.skip(1) =~= sched);
                lemma_count_in_scheduled_cons(sched[0], sched.skip(1), id);
                lemma_count_in_scheduled_nonneg(sched.skip(1), id);
                assert(live_count(cores, sched, q, id) <= 1);
            }
        }
        lemma_occupied_preserves(sched.skip(1), cores, occ, q, index);
        let (s2, c2) = spec_occupied(sched.skip(1), cores, occ);
        assert forall|p: int| 0 <= p < cores.len() && c1[p] != cores[p] implies has_core(
            sched,
            p,
        ) by {
            assert(has_core(sched.skip(1), p));
            let w = choose|w: int| 0 <= w < sched.skip(1).len() && sched.skip(1)[w].core == p;
            assert(sched[w + 1] == sched.skip(1)[w]);
        }
        if sched.skip(1).len() > 0 {
            assert(sched.skip(1)[0] == sched[1]);
        }
        assert(sorted_by_core(s1)) by {
            assert forall|i: int, j: int| 0 <= i < j < s1.len() implies s1[i].core < s1[j].core by {
                if i > 0 {
                    assert(s1[i] == s2[i - 1]);
                    assert(s1[j] == s2[j - 1]);
                } else {
                    assert(s1[j] == s2[j - 1]);
                }
            }
        }
        assert(scheduled_cores_free(s1, c1)) by {
            assert forall|i: int|
                0 <= i < s1.len() && s1[i].core < c1.len() implies c1[#[trigger] s1[i].core
                as int] is None by {
                if i > 0 {
                    assert(s1[i] == s2[i - 1]);
                } else {
                    assert(s1[0] == sched[0]);
                    if c1[sched[0].core as int] != cores[sched[0].core as int] {
                        assert(has_core(sched.skip(1), sched[0].core as int));
                        let w = choose|w: int|
                            0 <= w < sched.skip(1).len() && sched.skip(1)[w].core
                                == sched[0].core as int;
                        assert(sched[w + 1] == sched.skip(1)[w]);
                        assert(sched[0].core < sched[w + 1].core);
                        assert(false);
                    }
                }
            }
        }
        assert(claims_unique(c1, s1, q)) by {
            assert forall|id: IndraId| #[trigger] live_count(c1, s1, q, id) <= 1 by {
                lemma_count_in_scheduled_cons(sched[0], s2, id);
                assert(live_count(c2, s2, q, id) <= 1);
                assert(seq![sched[0]] + sched.skip(1) =~= sched);
                lemma_count_in_scheduled_cons(sched[0], sched.skip(1), id);
                lemma_count_in_cores_nonneg(c2, id);
                lemma_count_in_queue_nonneg(q, id);
                lemma_count_in_scheduled_nonneg(s2, id);
                if (match sched[0].kind {
                    AssignmentKind::Indrabase(_, _) => sched[0].indra_id == id,
                    _ => false,
                }) {
                    // the head claim stays scheduled; it cannot also be live
                    // in the processed remainder
                    assert(live_count(cores, sched, q, id) <= 1);
                    assert(count_in_scheduled(sched.skip(1), id) + count_in_queue(q, id)
                        + count_in_cores(cores, id) <= 0) by {
                        lemma_count_in_scheduled_nonneg(sched.skip(1), id);
                        lemma_count_in_cores_nonneg(cores, id);
                        lemma_count_in_queue_nonneg(q, id);
                    }
                    lemma_occupied_conserves(sched.skip(1), cores, occ, id);
                }
            }
        }
        assert(claims_indexed(cores, sched, q, index) ==> claims_indexed(c1, s1, q, index)) by {
            if claims_indexed(cores, sched, q, index) {
                assert(claims_indexed(cores, sched.skip(1), q, index)) by {
                    assert forall|id: IndraId|
                        #[trigger] live_count(cores, sched.skip(1), q, id) >= 1 implies
                        index.contains(id) by {
                        assert(seq![sched[0]] + sched.skip(1) =~= sched);
                        lemma_count_in_scheduled_cons(sched[0], sched.skip(1), id);
                        lemma_count_in_scheduled_nonneg(sched.skip(1), id);
                        assert(live_count(cores, sched, q, id) >= 1);
                    }
                }
                assert forall|id: IndraId| #[trigger] live_count(c1, s1, q, id) >= 1 implies
                    index.contains(id) by {
                    lemma_count_in_scheduled_cons(sched[0], s2, id);
                    if live_count(c2, s2, q, id) >= 1 {
                    } else {
                        assert(seq![sched[0]] + sched.skip(1) =~= sched);
                        lemma_count_in_scheduled_cons(sched[0], sched.skip(1), id);
                        lemma_count_in_scheduled_nonneg(sched.skip(1), id);
                        lemma_count_in_cores_nonneg(cores, id);
                        lemma_count_in_queue_nonneg(q, id);
                        assert(live_count(cores, sched, q, id) >= 1);
                    }
                }
            }
        }
    }
}

/// Noting cores occupied moves claims between the scheduled list and the
/// cores without creating or destroying any.
pub proof fn lemma_occupied_conserves(
    sched: Seq<CoreAssignment>,
    cores: Seq<Option<CoreOccupied>>,
    occ: Seq<CoreIndex>,
    id: IndraId,
)
    requires
        scheduled_cores_free(sched, cores),
        sorted_by_core(sched),
        forall|i: int| 0 <= i < occ.len() ==> occ[i] < cores.len(),
    ensures
        ({
            let (s1, c1) = spec_occupied(sched, cores, occ);
            count_in_scheduled(s1, id) + count_in_cores(c1, id) == count_in_scheduled(sched, id)
                + count_in_cores(cores, id)
        }),
    decreases sched.len(),
{
    let (s1, c1) = spec_occupied(sched, cores, occ);
    if sched.len() == 0 {
    } else if occ.len() > 0 && occ[0] == sched[0].core {
        let a = sched[0];
        let cores2 = cores.update(a.core as int, Some(a.spec_to_core_occupied()));
        assert(cores[a.core as int] is None);
        assert(sorted_by_core(sched.skip(1))) by {
            assert forall|i: int, j: int|
                0 <= i < j < sched.skip(1).len() implies sched.skip(1)[i].core < sched.skip(
                1,
            )[j].core by {
                assert(sched.skip(1)[i] == sched[i + 1]);
                assert(sched.skip(1)[j] == sched[j + 1]);
            }
        }
        assert(scheduled_cores_free(sched.skip(1), cores2)) by {
            assert forall|i: int|
                0 <= i < sched.skip(1).len() && sched.skip(1)[i].core
                    < cores2.len() implies cores2[#[trigger] sched.skip(1)[i].core as int]
                is None by {
                assert(sched.skip(1)[i] == sched[i + 1]);
                assert(sched[i + 1].core > a.core);
            }
        }
        lemma_occupied_conserves(sched.skip(1), cores2, occ.skip(1), id);
        lemma_count_in_cores_update(cores, a.core as int, Some(a.spec_to_core_occupied()), id);
        assert(seq![a] + sched.skip(1) =~= sched);
        lemma_count_in_scheduled_cons(a, sched.skip(1), id);
    } else {
        assert(sorted_by_core(sched.skip(1))) by {
            assert forall|i: int, j: int|
                0 <= i < j < sched.skip(1).len() implies sched.skip(1)[i].core < sched.skip(
                1,
            )[j].core by {
                assert(sched.skip(1)[i] == sched[i + 1]);
                assert(sched.skip(1)[j] == sched[j + 1]);
            }
        }
        assert(scheduled_cores_free(sched.skip(1), cores)) by {
            assert forall|i: int|
                0 <= i < sched.skip(1).len() && sched.skip(1)[i].core
                    < cores.len() implies cores[#[trigger] sched.skip(1)[i].core as int]
                is None by {
                assert(sched.skip(1)[i] == sched[i + 1]);
            }
        }
        lemma_occupied_conserves(sched.skip(1), cores, occ, id);
        let (s2, c2) = spec_occupied(sched.skip(1), cores, occ);
        lemma_count_in_scheduled_cons(sched[0], s2, id);
        assert(seq![sched[0]] + sched.skip(1) =~= sched);
        lemma_count_in_scheduled_cons(sched[0], sched.skip(1), id);
    }
}


// ---------------------------------------------------------------------------
// Clearing the scheduled list.
// ---------------------------------------------------------------------------

/// A sequence decomposes at its back for the scheduled count.
pub proof fn lemma_count_in_scheduled_unlast(s: Seq<CoreAssignment>, id: IndraId)
    requires
        s.len() > 0,
    ensures
        count_in_scheduled(s, id) == count_in_scheduled(s.drop_last(), id) + (match s.last().kind {
            AssignmentKind::Indrabase(_, _) => if s.last().indra_id == id {
                1int
            } else {
                0int
            },
            _ => 0int,
        }),
    decreases s.len(),
{
    if s.len() == 1 {
        assert(s.drop_last() =~= Seq::<CoreAssignment>::empty());
        assert(s[0] == s.last());
        assert(s.skip(1) =~= Seq::<CoreAssignment>::empty());
    } else {
        assert(s.skip(1).drop_last() =~= s.drop_last().skip(1));
        assert(s.drop_last()[0] == s[0]);
        assert(s.skip(1).last() == s.last());
        lemma_count_in_scheduled_unlast(s.skip(1), id);
        assert(count_in_scheduled(s, id) == (match s[0].kind {
            AssignmentKind::Indrabase(_, _) => if s[0].indra_id == id {
                1int
            } else {
                0int
            },
            _ => 0int,
        }) + count_in_scheduled(s.skip(1), id));
        assert(s.drop_last().len() > 0);
        assert(count_in_scheduled(s.drop_last(), id) == (match s[0].kind {
            AssignmentKind::Indrabase(_, _) => if s[0].indra_id == id {
                1int
            } else {
                0int
            },
            _ => 0int,
        }) + count_in_scheduled(s.drop_last().skip(1), id));
    }
}

/// The queue, rotating offset and claim index after the scheduled list is
/// cleared: every scheduled indrabase claim whose workload is still live
/// re-enters the queue with its retries incremented; a claim that is dropped
/// instead — its workload deregistered, its incremented retries over the
/// limit, or no indrabase cores configured — has no outstanding claim left,
/// so its id also leaves the claim index. Indracore assignments are simply
/// discarded (they are recomputed by the next `schedule`).
pub open spec fn spec_clear(
    sched: Seq<CoreAssignment>,
    q: Seq<QueuedIndrabase>,
    next: u32,
    index: Seq<IndraId>,
    live: Seq<IndraId>,
    retry_limit: u32,
    n_indrabase_cores: u32,
) -> (Seq<QueuedIndrabase>, u32, Seq<IndraId>)
    decreases sched.len(),
{
    if sched.len() == 0 {
        (q, next, index)
    } else {
        let (q1, n1, i1) = spec_clear(sched.drop_last(), q, next, index, live, retry_limit,
            n_indrabase_cores);
        let a = sched.last();
        match a.kind {
            AssignmentKind::Indrabase(collator, retries) => {
                if live.contains(a.indra_id) && retries < retry_limit && n_indrabase_cores > 0 {
                    let (q2, n2) = spec_enqueue(
                        q1,
                        n1,
                        crate::types::IndrabaseEntry {
                            claim: crate::types::IndrabaseClaim(a.indra_id, collator),
                            retries: (retries + 1) as u32,
                        },
                        n_indrabase_cores,
                    );
                    (q2, n2, i1)
                } else {
                    (q1, n1, spec_index_remove(i1, a.indra_id))
                }
            },
            AssignmentKind::Indracore => (q1, n1, i1),
        }
    }
}

/// Clearing keeps the claim index sorted: records are only ever removed.
pub proof fn lemma_clear_index_sorted(
    sched: Seq<CoreAssignment>,
    q: Seq<QueuedIndrabase>,
    next: u32,
    index: Seq<IndraId>,
    live: Seq<IndraId>,
    retry_limit: u32,
    n_indrabase_cores: u32,
)
    requires
        ids_sorted(index),
    ensures
        ids_sorted(spec_clear(sched, q, next, index, live, retry_limit, n_indrabase_cores).2),
        forall|id: IndraId|
            spec_clear(sched, q, next, index, live, retry_limit, n_indrabase_cores).2.contains(id)
                ==> index.contains(id),
    decreases sched.len(),
{
    if sched.len() > 0 {
        lemma_clear_index_sorted(sched.drop_last(), q, next, index, live, retry_limit,
            n_indrabase_cores);
        let (qp, np, ip) = spec_clear(sched.drop_last(), q, next, index, live, retry_limit,
            n_indrabase_cores);
        let a = sched.last();
        match a.kind {
            AssignmentKind::Indrabase(collator, retries) => {
                if !(live.contains(a.indra_id) && retries < retry_limit && n_indrabase_cores
                    > 0) {
                    lemma_index_remove(ip, a.indra_id);
                }
            },
            AssignmentKind::Indracore => {},
        }
    }
}

/// Clearing moves scheduled claims into the queue or drops them: per
/// workload, the cleared queue holds at most the claims that were scheduled
/// or queued before.
pub proof fn lemma_clear_bounds(
    sched: Seq<CoreAssignment>,
    q: Seq<QueuedIndrabase>,
    next: u32,
    index: Seq<IndraId>,
    live: Seq<IndraId>,
    retry_limit: u32,
    n_indrabase_cores: u32,
    id: IndraId,
)
    ensures
        ({
            let (q1, n1, i1) = spec_clear(sched, q, next, index, live, retry_limit,
                n_indrabase_cores);
            count_in_queue(q1, id) <= count_in_queue(q, id) + count_in_scheduled(sched, id)
        }),
    decreases sched.len(),
{
    if sched.len() > 0 {
        lemma_clear_bounds(sched.drop_last(), q, next, index, live, retry_limit,
            n_indrabase_cores, id);
        lemma_count_in_scheduled_unlast(sched, id);
        let (qp, np, ip) = spec_clear(sched.drop_last(), q, next, index, live, retry_limit,
            n_indrabase_cores);
        let a = sched.last();
        match a.kind {
            AssignmentKind::Indrabase(collator, retries) => {
                if live.contains(a.indra_id) && retries < retry_limit && n_indrabase_cores > 0 {
                    lemma_count_in_queue_push(
                        qp,
                        QueuedIndrabase {
                            claim: crate::types::IndrabaseEntry {
                                claim: crate::types::IndrabaseClaim(a.indra_id, collator),
                                retries: (retries + 1) as u32,
                            },
                            core_offset: np,
                        },
                        id,
                    );
                } else {
                    lemma_count_in_scheduled_nonneg(sched.drop_last(), id);
                }
            },
            AssignmentKind::Indracore => {
                lemma_count_in_scheduled_nonneg(sched.drop_last(), id);
            },
        }
    }
}

/// Clearing removes only the records of claims it drops, and every dropped
/// claim was scheduled: a workload with no scheduled claim keeps its record.
pub proof fn lemma_clear_never_scheduled(
    sched: Seq<CoreAssignment>,
    q: Seq<QueuedIndrabase>,
    next: u32,
    index: Seq<IndraId>,
    live: Seq<IndraId>,
    retry_limit: u32,
    n_indrabase_cores: u32,
    id: IndraId,
)
    requires
        ids_sorted(index),
    ensures
        ({
            let (q1, n1, i1) = spec_clear(sched, q, next, index, live, retry_limit,
                n_indrabase_cores);
            index.contains(id) && count_in_scheduled(sched, id) == 0 ==> i1.contains(id)
        }),
    decreases sched.len(),
{
    if sched.len() > 0 {
        lemma_clear_never_scheduled(sched.drop_last(), q, next, index, live, retry_limit,
            n_indrabase_cores, id);
        lemma_clear_index_sorted(sched.drop_last(), q, next, index, live, retry_limit,
            n_indrabase_cores);
        lemma_count_in_scheduled_unlast(sched, id);
        lemma_count_in_scheduled_nonneg(sched.drop_last(), id);
        let (qp, np, ip) = spec_clear(sched.drop_last(), q, next, index, live, retry_limit,
            n_indrabase_cores);
        let a = sched.last();
        match a.kind {
            AssignmentKind::Indrabase(collator, retries) => {
                if !(live.contains(a.indra_id) && retries < retry_limit && n_indrabase_cores
                    > 0) {
                    lemma_index_remove(ip, a.indra_id);
                    if index.contains(id) && count_in_scheduled(sched, id) == 0 {
                        assert(id != a.indra_id);
                    }
                }
            },
            AssignmentKind::Indracore => {},
        }
    }
}

/// A workload whose claim is still outstanding after a clear — occupying a
/// core, or back in the queue — keeps its claim-index record: clearing drops
/// a record only together with the last claim on its workload.
pub proof fn lemma_clear_keeps_outstanding(
    sched: Seq<CoreAssignment>,
    q: Seq<QueuedIndrabase>,
    next: u32,
    index: Seq<IndraId>,
    live: Seq<IndraId>,
    retry_limit: u32,
    n_indrabase_cores: u32,
    cores: Seq<Option<CoreOccupied>>,
    id: IndraId,
)
    requires
        ids_sorted(index),
        claims_unique(cores, sched, q),
    ensures
        ({
            let (q1, n1, i1) = spec_clear(sched, q, next, index, live, retry_limit,
                n_indrabase_cores);
            index.contains(id) && (count_in_cores(cores, id) >= 1 || count_in_queue(q1, id) >= 1)
                ==> i1.contains(id)
        }),
    decreases sched.len(),
{
    let (q1, n1, i1) = spec_clear(sched, q, next, index, live, retry_limit, n_indrabase_cores);
    if sched.len() > 0 {
        assert(claims_unique(cores, sched.drop_last(), q)) by {
            assert forall|x: IndraId|
                #[trigger] live_count(cores, sched.drop_last(), q, x) <= 1 by {
                lemma_count_in_scheduled_unlast(sched, x);
                assert(live_count(cores, sched, q, x) <= 1);
            }
        }
        lemma_clear_keeps_outstanding(sched.drop_last(), q, next, index, live, retry_limit,
            n_indrabase_cores, cores, id);
        lemma_clear_index_sorted(sched.drop_last(), q, next, index, live, retry_limit,
            n_indrabase_cores);
        let (qp, np, ip) = spec_clear(sched.drop_last(), q, next, index, live, retry_limit,
            n_indrabase_cores);
        let a = sched.last();
        let aid = a.indra_id;
        match a.kind {
            AssignmentKind::Indrabase(collator, retries) => {
                // the cleared assignment holds the only claim on its workload
                assert(count_in_scheduled(sched.drop_last(), aid) == 0) by {
                    lemma_count_in_scheduled_unlast(sched, aid);
                    lemma_count_in_scheduled_nonneg(sched.drop_last(), aid);
                    lemma_count_in_queue_nonneg(q, aid);
                    lemma_count_in_cores_nonneg(cores, aid);
                    assert(live_count(cores, sched, q, aid) <= 1);
                }
                if live.contains(aid) && retries < retry_limit && n_indrabase_cores > 0 {
                    let entry = QueuedIndrabase {
                        claim: crate::types::IndrabaseEntry {
                            claim: crate::types::IndrabaseClaim(aid, collator),
                            retries: (retries + 1) as u32,
                        },
                        core_offset: np,
                    };
                    assert(q1 == qp.push(entry));
                    lemma_count_in_queue_push(qp, entry, id);
                    if index.contains(id) && (count_in_cores(cores, id) >= 1 || count_in_queue(
                        q1,
                        id,
                    ) >= 1) {
                        if count_in_cores(cores, id) >= 1 || count_in_queue(qp, id) >= 1 {
                        } else {
                            // only the re-enqueued claim itself is new in the
                            // queue, and its record was never removed
                            assert(id == aid);
                            lemma_clear_never_scheduled(sched.drop_last(), q, next, index, live,
                                retry_limit, n_indrabase_cores, aid);
                        }
                    }
                } else {
                    assert(q1 == qp);
                    assert(i1 == spec_index_remove(ip, aid));
                    lemma_index_remove(ip, aid);
                    if index.contains(id) && (count_in_cores(cores, id) >= 1 || count_in_queue(
                        q1,
                        id,
                    ) >= 1) {
                        if id == aid {
                            // the dropped claim was the only live one on its
                            // workload, so it cannot still be held anywhere
                            lemma_clear_bounds(sched.drop_last(), q, next, index, live,
                                retry_limit, n_indrabase_cores, aid);
                            lemma_count_in_queue_nonneg(q, aid);
                            lemma_count_in_cores_nonneg(cores, aid);
                            lemma_count_in_scheduled_unlast(sched, aid);
                            assert(live_count(cores, sched, q, aid) >= 2);
                            assert(false);
                        } else {
                            assert(ip.contains(id));
                        }
                    }
                }
            },
            AssignmentKind::Indracore => {},
        }
    }
}

// ---------------------------------------------------------------------------
// Session change: collecting occupants, pruning, re-affinitizing.
// ---------------------------------------------------------------------------

/// A sequence decomposes at its back for the queue count.
pub proof fn lemma_count_in_queue_unlast(q: Seq<QueuedIndrabase>, id: IndraId)
    requires
        q.len() > 0,
    ensures
        count_in_queue(q, id) == count_in_queue(q.drop_last(), id) + (
        if q.last().claim.claim.0 == id {
            1int
        } else {
            0int
        }),
{
    assert(q =~= q.drop_last().push(q.last()));
    lemma_count_in_queue_push(q.drop_last(), q.last(), id);
}

/// A sequence decomposes at its back for the occupancy count.
pub proof fn lemma_count_in_cores_unlast(cores: Seq<Option<CoreOccupied>>, id: IndraId)
    requires
        cores.len() > 0,
    ensures
        count_in_cores(cores, id) == count_in_cores(cores.drop_last(), id) + (
        match cores.last() {
            Some(CoreOccupied::Indrabase(e)) => if e.claim.0 == id {
                1int
            } else {
                0int
            },
            _ => 0int,
        }),
    decreases cores.len(),
{
    if cores.len() == 1 {
        assert(cores.drop_last() =~= Seq::<Option<CoreOccupied>>::empty());
        assert(cores[0] == cores.last());
        assert(cores.skip(1) =~= Seq::<Option<CoreOccupied>>::empty());
    } else {
        assert(cores.skip(1).drop_last() =~= cores.drop_last().skip(1));
        assert(cores.drop_last()[0] == cores[0]);
        assert(cores.skip(1).last() == cores.last());
        lemma_count_in_cores_unlast(cores.skip(1), id);
        assert(count_in_cores(cores, id) == (match cores[0] {
            Some(CoreOccupied::Indrabase(e)) => if e.claim.0 == id {
                1int
            } else {
                0int
            },
            _ => 0int,
        }) + count_in_cores(cores.skip(1), id));
        assert(cores.drop_last().len() > 0);
        assert(count_in_cores(cores.drop_last(), id) == (match cores[0] {
            Some(CoreOccupied::Indrabase(e)) => if e.claim.0 == id {
                1int
            } else {
                0int
            },
            _ => 0int,
        }) + count_in_cores(cores.drop_last().skip(1), id));
    }
}

/// The queue count distributes over concatenation.
pub proof fn lemma_count_in_queue_concat(a: Seq<QueuedIndrabase>, b: Seq<QueuedIndrabase>, id: IndraId)
    ensures
        count_in_queue(a + b, id) == count_in_queue(a, id) + count_in_queue(b, id),
    decreases a.len(),
{
    if a.len() == 0 {
        assert(a + b =~= b);
    } else {
        assert((a + b)[0] == a[0]);
        assert((a + b).skip(1) =~= a.skip(1) + b);
        lemma_count_in_queue_concat(a.skip(1), b, id);
    }
}

/// Unoccupied cores hold no claims.
pub proof fn lemma_count_in_cores_all_none(cores: Seq<Option<CoreOccupied>>, id: IndraId)
    requires
        forall|k: int| 0 <= k < cores.len() ==> cores[k] is None,
    ensures
        count_in_cores(cores, id) == 0,
    decreases cores.len(),
{
    if cores.len() > 0 {
        assert forall|k: int| 0 <= k < cores.skip(1).len() implies cores.skip(1)[k] is None by {
            assert(cores.skip(1)[k] == cores[k + 1]);
        }
        lemma_count_in_cores_all_none(cores.skip(1), id);
    }
}

/// The queue entries made from the indrabase claims occupying cores, in core
/// order; their offsets are placeholders to be fixed by the re-affinitization.
pub open spec fn spec_collect(cores: Seq<Option<CoreOccupied>>) -> Seq<QueuedIndrabase>
    decreases cores.len(),
{
    if cores.len() == 0 {
        Seq::<QueuedIndrabase>::empty()
    } else {
        spec_collect(cores.drop_last()) + (match cores.last() {
            Some(CoreOccupied::Indrabase(e)) => seq![QueuedIndrabase { claim: e, core_offset: 0 }],
            _ => Seq::<QueuedIndrabase>::empty(),
        })
    }
}

/// Collecting the occupants moves each core claim into the queue exactly once.
pub proof fn lemma_collect_counts(cores: Seq<Option<CoreOccupied>>, id: IndraId)
    ensures
        count_in_queue(spec_collect(cores), id) == count_in_cores(cores, id),
    decreases cores.len(),
{
    if cores.len() > 0 {
        lemma_collect_counts(cores.drop_last(), id);
        lemma_count_in_cores_unlast(cores, id);
        match cores.last() {
            Some(CoreOccupied::Indrabase(e)) => {
                lemma_count_in_queue_concat(spec_collect(cores.drop_last()),
                    seq![QueuedIndrabase { claim: e, core_offset: 0 }], id);
                let single = seq![QueuedIndrabase { claim: e, core_offset: 0 }];
                assert(single.skip(1) =~= Seq::<QueuedIndrabase>::empty());
                assert(single[0] == QueuedIndrabase { claim: e, core_offset: 0 });
                assert(single[0].claim.claim.0 == e.claim.0);
                assert(count_in_queue(single, id) == (if single[0].claim.claim.0 == id {
                    1int
                } else {
                    0int
                }) + count_in_queue(single.skip(1), id));
            },
            _ => {
                lemma_count_in_queue_concat(spec_collect(cores.drop_last()),
                    Seq::<QueuedIndrabase>::empty(), id);
            },
        }
    }
}

/// The kept queue and the index after pruning: an entry beyond the retry
/// limit, or whose workload is no longer a live indrabase, is dropped and its
/// id removed from the index.
pub open spec fn spec_prune(
    q: Seq<QueuedIndrabase>,
    index: Seq<IndraId>,
    live: Seq<IndraId>,
    retry_limit: u32,
) -> (Seq<QueuedIndrabase>, Seq<IndraId>)
    decreases q.len(),
{
    if q.len() == 0 {
        (Seq::<QueuedIndrabase>::empty(), index)
    } else {
        let (k1, i1) = spec_prune(q.drop_last(), index, live, retry_limit);
        let e = q.last();
        if e.claim.retries <= retry_limit && live.contains(e.claim.claim.0) {
            (k1.push(e), i1)
        } else {
            (k1, spec_index_remove(i1, e.claim.claim.0))
        }
    }
}

/// Pruning keeps the index sorted, never grows a count, and keeps every id
/// that either survives in the queue or had no queued entry at all.
pub proof fn lemma_prune_preserves(
    q: Seq<QueuedIndrabase>,
    index: Seq<IndraId>,
    live: Seq<IndraId>,
    retry_limit: u32,
    id: IndraId,
)
    requires
        ids_sorted(index),
        forall|x: IndraId| #[trigger] count_in_queue(q, x) <= 1,
    ensures
        ({
            let (k1, i1) = spec_prune(q, index, live, retry_limit);
            &&& ids_sorted(i1)
            &&& count_in_queue(k1, id) <= count_in_queue(q, id)
            &&& (!index.contains(id) ==> !i1.contains(id))
            &&& (index.contains(id) && count_in_queue(q, id) == 0 ==> i1.contains(id))
            &&& (index.contains(id) && count_in_queue(k1, id) >= 1 ==> i1.contains(id))
        }),
    decreases q.len(),
{
    if q.len() > 0 {
        assert forall|x: IndraId| #[trigger] count_in_queue(q.drop_last(), x) <= 1 by {
            lemma_count_in_queue_unlast(q, x);
        }
        lemma_prune_preserves(q.drop_last(), index, live, retry_limit, id);
        let (k1, i1) = spec_prune(q.drop_last(), index, live, retry_limit);
        let e = q.last();
        let eid = e.claim.claim.0;
        lemma_count_in_queue_unlast(q, id);
        lemma_count_in_queue_nonneg(q.drop_last(), id);
        lemma_count_in_queue_nonneg(k1, id);
        if e.claim.retries <= retry_limit && live.contains(eid) {
            lemma_count_in_queue_push(k1, e, id);
        } else {
            // proving index facts for every id requires the recursive facts
            // for the dropped id too
            lemma_prune_preserves(q.drop_last(), index, live, retry_limit, eid);
            lemma_index_remove(i1, eid);
            lemma_count_in_queue_unlast(q, eid);
            lemma_count_in_queue_nonneg(q.drop_last(), eid);
            lemma_count_in_queue_nonneg(k1, eid);
            if id != eid {
            } else {
                assert(count_in_queue(q, eid) >= 1);
            }
        }
    }
}

/// The queue re-affinitized after a session change: the entry at position k
/// is assigned core offset k mod the number of indrabase cores, by position
/// alone, never by content.
pub open spec fn spec_rebalance(q: Seq<QueuedIndrabase>, n_indrabase_cores: u32) -> Seq<
    QueuedIndrabase,
>
    recommends
        n_indrabase_cores > 0,
    decreases q.len(),
{
    if q.len() == 0 {
        Seq::<QueuedIndrabase>::empty()
    } else {
        spec_rebalance(q.drop_last(), n_indrabase_cores).push(
            QueuedIndrabase {
                claim: q.last().claim,
                core_offset: (((q.len() - 1) as int) % (n_indrabase_cores as int)) as u32,
            },
        )
    }
}

/// Re-affinitizing keeps each entry's claim, in order, and only rewrites its
/// core offset.
pub proof fn lemma_rebalance_shape(q: Seq<QueuedIndrabase>, n_indrabase_cores: u32)
    ensures
        ({
            let r = spec_rebalance(q, n_indrabase_cores);
            &&& r.len() == q.len()
            &&& forall|i: int|
                0 <= i < q.len() ==> (#[trigger] r[i]).claim == q[i].claim && r[i].core_offset == (
                (i % (n_indrabase_cores as int)) as u32)
        }),
    decreases q.len(),
{
    if q.len() > 0 {
        lemma_rebalance_shape(q.drop_last(), n_indrabase_cores);
    }
}

/// Re-affinitizing does not change which claims are queued.
pub proof fn lemma_rebalance_counts(q: Seq<QueuedIndrabase>, n_indrabase_cores: u32, id: IndraId)
    ensures
        count_in_queue(spec_rebalance(q, n_indrabase_cores), id) == count_in_queue(q, id),
    decreases q.len(),
{
    if q.len() > 0 {
        lemma_rebalance_counts(q.drop_last(), n_indrabase_cores, id);
        lemma_count_in_queue_unlast(q, id);
        lemma_count_in_queue_push(
            spec_rebalance(q.drop_last(), n_indrabase_cores),
            QueuedIndrabase {
                claim: q.last().claim,
                core_offset: (((q.len() - 1) as int) % (n_indrabase_cores as int)) as u32,
            },
            id,
        );
    }
}

} // verus!



