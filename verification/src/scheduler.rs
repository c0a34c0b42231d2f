//! The scheduler state machine.
//!
//! All scheduler state lives in one aggregate value owned by the
//! block-execution driver and threaded explicitly through the entry points:
//! `initializer_on_new_session` rebuilds cores and groups, `free_cores` and
//! `schedule` run each block before `occupied` notes backed candidates, and
//! `clear` returns scheduled-but-unbacked indrabase claims to the queue. The
//! workload registry (which indracores and indrabases are live) and the
//! configuration snapshot are consumed as plain inputs.

use vstd::prelude::*;

use crate::fill::{
    lemma_fill_conserves_claims, lemma_fill_cores_free, lemma_fill_sorted, spec_fill,
};
use crate::model::{
    claims_indexed, claims_unique, count_in_queue, count_in_scheduled, has_core,
    ids_sorted, lemma_clear_bounds, lemma_clear_index_sorted, lemma_clear_keeps_outstanding,
    lemma_collect_counts, lemma_count_in_cores_all_none,
    lemma_count_in_queue_concat, lemma_occupied_preserves, lemma_prune_preserves,
    lemma_index_remove, lemma_rebalance_counts, spec_clear, spec_collect, spec_occupied,
    spec_prune, spec_rebalance,
    lemma_count_in_cores_nonneg, lemma_count_in_queue_nonneg, lemma_count_in_queue_push,
    lemma_count_in_scheduled_nonneg, lemma_first_id, lemma_free_cores_preserves,
    lemma_index_insert, lemma_insert_pos, live_count, scheduled_cores_free, sorted_by_core,
    spec_free_cores, spec_index_insert, spec_index_remove, spec_insert_pos, spec_first_id,
};
use crate::queue::{spec_enqueue, spec_peek_on_core, IndrabaseClaimQueue};
use crate::rotation::{
    group_index_at, spec_group_for_core, spec_saturating_sub, AvailabilityTimeoutPredicate,
};
use crate::types::{
    AssignmentKind, BlockNumber, CoreAssignment, CoreIndex, CoreOccupied, FreedReason, GroupIndex,
    GroupRotationInfo, HostConfiguration, IndraId, IndrabaseClaim, IndrabaseEntry, ScheduledCore,
    SessionChangeNotification, ValidatorIndex,
};

verus! {

/// The whole scheduler state for one chain: rebuilt on session changes and
/// stepped deterministically once per block.
pub struct Scheduler {
    /// All the validator groups, one for each core. Members are positions in
    /// the session's active-validator list.
    pub validator_groups: Vec<Vec<ValidatorIndex>>,
    /// A queue of upcoming claims and which core offset they are mapped onto.
    pub indrabase_queue: IndrabaseClaimQueue,
    /// One entry for each availability core; `None` if the core is free.
    /// The i'th indracore is bound to the i'th core, the remaining cores are
    /// indrabase multiplexers.
    pub availability_cores: Vec<Option<CoreOccupied>>,
    /// The sorted workload ids with an outstanding claim, queued or occupying
    /// a core: at most one live claim per indrabase.
    pub indrabase_claim_index: Vec<IndraId>,
    /// The first block of the current session: the rotation epoch origin.
    pub session_start_block: BlockNumber,
    /// Currently scheduled cores — free but up to be occupied — strictly
    /// sorted by core index.
    pub scheduled: Vec<CoreAssignment>,
}

/// Search a sorted index for `id`: its position, or the position where it
/// would be inserted.
fn index_search(index: &Vec<IndraId>, id: IndraId) -> (r: Result<usize, usize>)
    requires
        ids_sorted(index@),
    ensures
        match r {
            Ok(i) => i < index@.len() && index@[i as int] == id,
            Err(i) => !index@.contains(id) && i == spec_insert_pos(index@, id),
        },
{
    proof {
        lemma_insert_pos(index@, id);
    }
    let mut lo: usize = 0;
    let mut hi: usize = index.len();
    while lo < hi
        invariant
            ids_sorted(index@),
            lo <= hi <= index@.len(),
            forall|j: int| 0 <= j < lo ==> index@[j] < id,
            forall|j: int| hi <= j < index@.len() ==> index@[j] > id,
        decreases hi - lo,
    {
        let mid: usize = lo + (hi - lo) / 2;
        if index[mid] < id {
            lo = mid + 1;
        } else if index[mid] > id {
            hi = mid;
        } else {
            return Ok(mid);
        }
    }
    proof {
        assert(!index@.contains(id)) by {
            if index@.contains(id) {
                let w = choose|w: int| 0 <= w < index@.len() && index@[w] == id;
                assert(index@[w] != id);
            }
        }
        lemma_insert_pos(index@, id);
        let p = spec_insert_pos(index@, id);
        if p < lo as int {
            assert(index@[p] < id);
            assert(index@[p] >= id);
        } else if p > lo as int {
            assert(index@[lo as int] < id);
            assert(index@[lo as int] > id);
        }
    }
    Err(lo)
}

/// Whether `v` holds `id`.
fn contains_id(v: &Vec<IndraId>, id: IndraId) -> (r: bool)
    ensures
        r == v@.contains(id),
{
    let mut i: usize = 0;
    while i < v.len()
        invariant
            i <= v@.len(),
            forall|j: int| 0 <= j < i ==> v@[j] != id,
        decreases v@.len() - i,
    {
        if v[i] == id {
            assert(v@[i as int] == id);
            return true;
        }
        i = i + 1;
    }
    proof {
        if v@.contains(id) {
            let w = choose|w: int| 0 <= w < v@.len() && v@[w] == id;
            assert(v@[w] != id);
        }
    }
    false
}

/// The number of availability cores of a session: enough for every live
/// indracore plus the configured indrabase multiplexers, or the validator
/// count divided by `max_validators_per_core` if that is set, nonzero and
/// larger.
pub open spec fn spec_n_cores(
    n_indracores: int,
    config: HostConfiguration,
    n_validators: int,
) -> int {
    let base = n_indracores + config.indrabase_cores;
    let cap = match config.max_validators_per_core {
        Some(x) => if x != 0 {
            n_validators / (x as int)
        } else {
            0
        },
        None => 0,
    };
    if base >= cap {
        base
    } else {
        cap
    }
}


/// Remove the record of `id` from a sorted claim index; an absent id leaves
/// the index unchanged.
fn remove_claim_index_record(index: &mut Vec<IndraId>, id: IndraId)
    requires
        ids_sorted(old(index)@),
    ensures
        final(index)@ == spec_index_remove(old(index)@, id),
{
    proof {
        lemma_first_id(index@, id);
    }
    match index_search(index, id) {
        Ok(pos) => {
            proof {
                let ix = index@;
                let r = spec_first_id(ix, id);
                assert(ix[pos as int] == id);
                if r == -1 {
                    assert(ix[pos as int] != id);
                } else if r < pos as int {
                    assert(ix[r] == ix[pos as int]);
                } else if r > pos as int {
                    assert(ix[pos as int] != id);
                }
                assert(r == pos as int);
            }
            index.remove(pos);
        },
        Err(_) => {
            proof {
                let ix = index@;
                let r = spec_first_id(ix, id);
                if r != -1 {
                    assert(ix.contains(id));
                }
                assert(spec_index_remove(ix, id) == ix);
            }
        },
    }
}

impl Scheduler {
    /// Structural invariants of the scheduler state: the scheduled list is
    /// strictly sorted by core and never names an occupied core, the claim
    /// index is sorted, every workload has at most one live claim, groups
    /// either match the cores one-to-one or are absent (degenerate session),
    /// and core indices fit the index type.
    pub open spec fn wf(self) -> bool {
        &&& sorted_by_core(self.scheduled@)
        &&& scheduled_cores_free(self.scheduled@, self.availability_cores@)
        &&& ids_sorted(self.indrabase_claim_index@)
        &&& claims_unique(self.availability_cores@, self.scheduled@, self.indrabase_queue.queue@)
        &&& (self.validator_groups@.len() == 0 || self.validator_groups@.len()
            == self.availability_cores@.len())
        &&& self.availability_cores@.len() <= u32::MAX
    }

    /// Every live claim's workload is recorded in the claim index, so a
    /// competing claim is rejected. This holds everywhere except after a
    /// session change that configures zero indrabase cores while stale
    /// indrabase assignments are still scheduled.
    pub open spec fn fully_indexed(self) -> bool {
        claims_indexed(
            self.availability_cores@,
            self.scheduled@,
            self.indrabase_queue.queue@,
            self.indrabase_claim_index@,
        )
    }

    /// The freshly initialized scheduler: no cores, no groups, no claims.
    pub fn new() -> (r: Scheduler)
        ensures
            r.wf(),
            r.fully_indexed(),
            r.validator_groups@.len() == 0,
            r.indrabase_queue.queue@.len() == 0,
            r.indrabase_queue.next_core_offset == 0,
            r.availability_cores@.len() == 0,
            r.indrabase_claim_index@.len() == 0,
            r.session_start_block == 0,
            r.scheduled@.len() == 0,
    {
        Scheduler {
            validator_groups: Vec::new(),
            indrabase_queue: IndrabaseClaimQueue { queue: Vec::new(), next_core_offset: 0 },
            availability_cores: Vec::new(),
            indrabase_claim_index: Vec::new(),
            session_start_block: 0,
            scheduled: Vec::new(),
        }
    }

    /// Called to note that a new session has started: resize the cores to the
    /// new session's count, converting every occupied indrabase core into a
    /// queued claim and dropping indracore occupants; partition the new
    /// validator list into one group per core; prune queued claims that are
    /// beyond the retry limit or whose workload is no longer live, removing
    /// their ids from the claim index; re-affinitize the surviving queue by
    /// position alone; and set the rotation epoch origin to the next block.
    /// With no indrabase cores configured, the queue and index are wiped.
    #[verifier::loop_isolation(false)]
    #[verifier::spinoff_prover]
    #[verifier::rlimit(50)]
    pub fn initializer_on_new_session(
        &mut self,
        notification: &SessionChangeNotification,
        indracores: &Vec<IndraId>,
        live_indrabases: &Vec<IndraId>,
        now: BlockNumber,
    )
        requires
            old(self).wf(),
            now < u32::MAX,
            notification.validators@.len() <= u32::MAX,
            indracores@.len() + notification.new_config.indrabase_cores <= u32::MAX,
        ensures
            final(self).wf(),
            ({
                let no_scheduled_claims = forall|id: IndraId|
                    #[trigger] count_in_scheduled(old(self).scheduled@, id) == 0;
                (old(self).fully_indexed() && (notification.new_config.indrabase_cores > 0
                    || no_scheduled_claims)) ==> final(self).fully_indexed()
            }),
            final(self).session_start_block == now + 1,
            final(self).scheduled == old(self).scheduled,
            ({
                let cfg = notification.new_config;
                let n_cores = spec_n_cores(
                    indracores@.len() as int,
                    cfg,
                    notification.validators@.len() as int,
                );
                &&& final(self).availability_cores@.len() == n_cores
                &&& forall|k: int|
                    0 <= k < n_cores ==> final(self).availability_cores@[k] is None
                &&& if n_cores == 0 || notification.validators@.len() == 0 {
                    final(self).validator_groups@.len() == 0
                } else {
                    final(self).validator_groups@.len() == n_cores && forall|i: int|
                        0 <= i < n_cores ==> final(self).validator_groups@[i]@
                            == crate::groups::spec_make_groups(
                            notification.validators@.len() as int,
                            n_cores,
                        )[i]
                }
                &&& ({
                    let q1 = old(self).indrabase_queue.queue@ + spec_collect(
                        old(self).availability_cores@,
                    );
                    if cfg.indrabase_cores == 0 {
                        &&& final(self).indrabase_queue.queue@.len() == 0
                        &&& final(self).indrabase_queue.next_core_offset == 0
                        &&& final(self).indrabase_claim_index@.len() == 0
                    } else {
                        let (k1, i1) = spec_prune(
                            q1,
                            old(self).indrabase_claim_index@,
                            live_indrabases@,
                            cfg.indrabase_retries,
                        );
                        &&& final(self).indrabase_queue.queue@ == spec_rebalance(
                            k1,
                            cfg.indrabase_cores,
                        )
                        &&& final(self).indrabase_queue.next_core_offset == ((k1.len() as int) % (
                        cfg.indrabase_cores as int)) as u32
                        &&& final(self).indrabase_claim_index@ == i1
                    }
                })
            }),
    {
        let cfg = &notification.new_config;
        let ghost cores0 = self.availability_cores@;
        let ghost q0 = self.indrabase_queue.queue@;
        let ghost index0 = self.indrabase_claim_index@;
        let ghost sched0 = self.scheduled@;
        let ghost live = live_indrabases@;

        // convert occupied indrabase cores into queued claims
        let mut i: usize = 0;
        while i < self.availability_cores.len()
            invariant
                i <= cores0.len(),
                self.availability_cores@ == cores0,
                self.scheduled == old(self).scheduled,
                self.scheduled@ == sched0,
                self.indrabase_claim_index@ == index0,
                self.indrabase_queue.next_core_offset == old(
                    self,
                ).indrabase_queue.next_core_offset,
                self.validator_groups == old(self).validator_groups,
                self.session_start_block == old(self).session_start_block,
                self.indrabase_queue.queue@ == q0 + spec_collect(cores0.take(i as int)),
            decreases cores0.len() - i,
        {
            proof {
                assert(cores0.take(i as int + 1).drop_last() =~= cores0.take(i as int));
                assert(cores0.take(i as int + 1).last() == cores0[i as int]);
            }
            match self.availability_cores[i] {
                Some(CoreOccupied::Indrabase(entry)) => {
                    let queued = crate::types::QueuedIndrabase { claim: entry, core_offset: 0 };
                    proof {
                        assert(q0 + spec_collect(cores0.take(i as int + 1)) =~= (q0
                            + spec_collect(cores0.take(i as int))).push(queued));
                    }
                    self.indrabase_queue.queue.push(queued);
                },
                _ => {
                    proof {
                        assert(q0 + spec_collect(cores0.take(i as int + 1)) =~= q0 + spec_collect(
                            cores0.take(i as int),
                        ));
                    }
                },
            }
            i = i + 1;
        }
        proof {
            assert(cores0.take(cores0.len() as int) =~= cores0);
        }
        let ghost q1 = self.indrabase_queue.queue@;

        // the new session's core count
        let n_indracores: u32 = indracores.len() as u32;
        let base: u32 = n_indracores + cfg.indrabase_cores;
        let cap: u32 = match cfg.max_validators_per_core {
            Some(x) => if x != 0 {
                (notification.validators.len() as u32) / x
            } else {
                0
            },
            None => 0,
        };
        let n_cores: u32 = if base >= cap {
            base
        } else {
            cap
        };
        assert(n_cores as int == spec_n_cores(indracores@.len() as int, *cfg,
            notification.validators@.len() as int));

        // all cores start the session unoccupied
        let mut new_cores: Vec<Option<CoreOccupied>> = Vec::new();
        let mut k: usize = 0;
        while k < n_cores as usize
            invariant
                k <= n_cores as usize,
                new_cores@.len() == k,
                forall|t: int| 0 <= t < k ==> new_cores@[t] is None,
            decreases n_cores as usize - k,
        {
            new_cores.push(None);
            k = k + 1;
        }
        self.availability_cores = new_cores;
        let ghost cores1g = self.availability_cores@;

        // partition the validators into one group per core
        if n_cores == 0 || notification.validators.len() == 0 {
            self.validator_groups = Vec::new();
        } else {
            self.validator_groups = crate::groups::make_groups(
                notification.validators.len(),
                n_cores,
            );
        }
        let ghost groupsg = self.validator_groups;

        if cfg.indrabase_cores == 0 {
            // no multiplexing capacity: wipe all indrabase metadata
            self.indrabase_queue = IndrabaseClaimQueue { queue: Vec::new(), next_core_offset: 0 };
            self.indrabase_claim_index = Vec::new();
        } else {
            // prune dead and exhausted claims, then re-affinitize by position
            let ghost limit = cfg.indrabase_retries;
            let ghost n_ib = cfg.indrabase_cores;
            let mut kept: Vec<crate::types::QueuedIndrabase> = Vec::new();
            let mut t: usize = 0;
            proof {
                assert(q1.take(0) =~= Seq::<crate::types::QueuedIndrabase>::empty());
            }
            while t < self.indrabase_queue.queue.len()
                invariant
                    t <= q1.len(),
                    self.indrabase_queue.queue@ == q1,
                    self.indrabase_queue.next_core_offset == old(
                        self,
                    ).indrabase_queue.next_core_offset,
                    self.scheduled == old(self).scheduled,
                    self.scheduled@ == sched0,
                    self.session_start_block == old(self).session_start_block,
                    self.availability_cores@ == cores1g,
                    self.validator_groups == groupsg,
                    ids_sorted(self.indrabase_claim_index@),
                    ({
                        let (pk, pi) = spec_prune(q1.take(t as int), index0, live, limit);
                        &&& kept@ == spec_rebalance(pk, n_ib)
                        &&& kept@.len() == pk.len()
                        &&& self.indrabase_claim_index@ == pi
                    }),
                decreases q1.len() - t,
            {
                let e = self.indrabase_queue.queue[t];
                proof {
                    assert(q1.take(t as int + 1).drop_last() =~= q1.take(t as int));
                    assert(q1.take(t as int + 1).last() == q1[t as int]);
                }
                if e.claim.retries <= cfg.indrabase_retries && contains_id(
                    live_indrabases,
                    e.claim.claim.0,
                ) {
                    let ghost pk = spec_prune(q1.take(t as int), index0, live, limit).0;
                    proof {
                        assert(pk.push(e).drop_last() =~= pk);
                        let m = (pk.len() as int) % (n_ib as int);
                        assert(0 <= m < n_ib as int);
                    }
                    let off: u32 = ((kept.len() as u64) % (cfg.indrabase_cores as u64)) as u32;
                    kept.push(crate::types::QueuedIndrabase { claim: e.claim, core_offset: off });
                } else {
                    let eid = e.claim.claim.0;
                    proof {
                        lemma_index_remove(self.indrabase_claim_index@, eid);
                    }
                    remove_claim_index_record(&mut self.indrabase_claim_index, eid);
                }
                t = t + 1;
            }
            proof {
                assert(q1.take(q1.len() as int) =~= q1);
            }
            let next: u32 = ((kept.len() as u64) % (cfg.indrabase_cores as u64)) as u32;
            self.indrabase_queue.queue = kept;
            self.indrabase_queue.next_core_offset = next;
        }

        self.session_start_block = now + 1;

        proof {
            let cores1 = self.availability_cores@;
            let qf = self.indrabase_queue.queue@;
            let ixf = self.indrabase_claim_index@;
            let (k1, i1) = spec_prune(q1, index0, live, cfg.indrabase_retries);
            assert forall|x: IndraId| #[trigger] count_in_queue(q1, x) <= 1 by {
                lemma_count_in_queue_concat(q0, spec_collect(cores0), x);
                lemma_collect_counts(cores0, x);
                lemma_count_in_scheduled_nonneg(sched0, x);
                assert(live_count(cores0, sched0, q0, x) <= 1);
            }
            assert forall|id: IndraId|
                #[trigger] live_count(cores1, sched0, qf, id) <= 1 by {
                lemma_count_in_cores_all_none(cores1, id);
                lemma_count_in_queue_concat(q0, spec_collect(cores0), id);
                lemma_collect_counts(cores0, id);
                lemma_count_in_queue_nonneg(q0, id);
                lemma_count_in_cores_nonneg(cores0, id);
                lemma_count_in_scheduled_nonneg(sched0, id);
                assert(live_count(cores0, sched0, q0, id) <= 1);
                if cfg.indrabase_cores == 0 {
                    assert(count_in_queue(qf, id) == 0);
                } else {
                    lemma_prune_preserves(q1, index0, live, cfg.indrabase_retries, id);
                    lemma_rebalance_counts(k1, cfg.indrabase_cores, id);
                }
            }
            if cfg.indrabase_cores > 0 {
                assert(ids_sorted(ixf)) by {
                    lemma_prune_preserves(q1, index0, live, cfg.indrabase_retries, 0);
                }
            }
            if old(self).fully_indexed() && (cfg.indrabase_cores > 0 || forall|id: IndraId|
                #[trigger] count_in_scheduled(sched0, id) == 0) {
                assert forall|id: IndraId|
                    #[trigger] live_count(cores1, sched0, qf, id) >= 1 implies ixf.contains(
                    id,
                ) by {
                    lemma_count_in_cores_all_none(cores1, id);
                    lemma_count_in_queue_concat(q0, spec_collect(cores0), id);
                    lemma_collect_counts(cores0, id);
                    lemma_count_in_queue_nonneg(q0, id);
                    lemma_count_in_queue_nonneg(qf, id);
                    lemma_count_in_scheduled_nonneg(sched0, id);
                    lemma_count_in_cores_nonneg(cores0, id);
                    if cfg.indrabase_cores == 0 {
                        assert(count_in_queue(qf, id) == 0);
                        assert(count_in_scheduled(sched0, id) == 0);
                        assert(false);
                    } else {
                        lemma_prune_preserves(q1, index0, live, cfg.indrabase_retries, id);
                        lemma_rebalance_counts(k1, cfg.indrabase_cores, id);
                        if count_in_scheduled(sched0, id) >= 1 {
                            // the scheduled claim was the only live one, so no
                            // queue entry named it and the prune kept its record
                            assert(live_count(cores0, sched0, q0, id) >= 1);
                            assert(index0.contains(id));
                            assert(count_in_queue(q1, id) == 0);
                        } else {
                            assert(count_in_queue(qf, id) >= 1);
                            assert(count_in_queue(k1, id) >= 1);
                            assert(count_in_queue(q1, id) >= 1);
                            assert(live_count(cores0, sched0, q0, id) >= 1);
                            assert(index0.contains(id));
                        }
                    }
                }
            }
        }
    }

    /// Free unassigned cores. Provide a list of cores that should be
    /// considered newly-freed along with the reason for them being freed.
    /// Freeing drops the core's occupant; a concluded indrabase claim leaves
    /// the claim index so the workload may claim again, a timed-out one is
    /// re-enqueued unchanged (a timeout is not the collator's fault) — or,
    /// with no indrabase cores configured, dropped together with its index
    /// record. Out-of-range core indices and unoccupied cores are ignored.
    pub fn free_cores(
        &mut self,
        just_freed_cores: &Vec<(CoreIndex, FreedReason)>,
        config: &HostConfiguration,
    )
        requires
            old(self).wf(),
        ensures
            final(self).wf(),
            old(self).fully_indexed() ==> final(self).fully_indexed(),
            final(self).validator_groups == old(self).validator_groups,
            final(self).scheduled == old(self).scheduled,
            final(self).session_start_block == old(self).session_start_block,
            ({
                let (c1, q1, n1, i1) = spec_free_cores(
                    old(self).availability_cores@,
                    old(self).indrabase_queue.queue@,
                    old(self).indrabase_queue.next_core_offset,
                    old(self).indrabase_claim_index@,
                    just_freed_cores@,
                    config.indrabase_cores,
                );
                &&& final(self).availability_cores@ == c1
                &&& final(self).indrabase_queue.queue@ == q1
                &&& final(self).indrabase_queue.next_core_offset == n1
                &&& final(self).indrabase_claim_index@ == i1
            }),
    {
        let ghost cores0 = self.availability_cores@;
        let ghost q0 = self.indrabase_queue.queue@;
        let ghost next0 = self.indrabase_queue.next_core_offset;
        let ghost index0 = self.indrabase_claim_index@;
        let ghost freed = just_freed_cores@;
        let ghost groups0 = self.validator_groups;
        let ghost sched0 = self.scheduled;
        let ghost ssb0 = self.session_start_block;
        let ghost n_ib = config.indrabase_cores;

        let mut idx: usize = 0;
        while idx < just_freed_cores.len()
            invariant
                idx <= freed.len(),
                freed == just_freed_cores@,
                n_ib == config.indrabase_cores,
                ids_sorted(index0),
                claims_unique(cores0, sched0@, q0),
                ids_sorted(self.indrabase_claim_index@),
                self.validator_groups == groups0,
                self.scheduled == sched0,
                self.session_start_block == ssb0,
                (
                    self.availability_cores@,
                    self.indrabase_queue.queue@,
                    self.indrabase_queue.next_core_offset,
                    self.indrabase_claim_index@,
                ) == spec_free_cores(cores0, q0, next0, index0, freed.take(idx as int), n_ib),
            decreases freed.len() - idx,
        {
            proof {
                lemma_free_cores_preserves(cores0, q0, next0, index0, freed.take(idx as int),
                    n_ib, sched0@);
                assert(freed.take(idx + 1).drop_last() =~= freed.take(idx as int));
                assert(freed.take(idx + 1).last() == freed[idx as int]);
            }
            let (freed_index, freed_reason) = just_freed_cores[idx];
            if (freed_index as usize) < self.availability_cores.len() {
                let occupant = self.availability_cores[freed_index as usize];
                match occupant {
                    None => {},
                    Some(CoreOccupied::Indracore) => {
                        self.availability_cores.set(freed_index as usize, None);
                    },
                    Some(CoreOccupied::Indrabase(entry)) => {
                        self.availability_cores.set(freed_index as usize, None);
                        match freed_reason {
                            FreedReason::Concluded => {
                                remove_claim_index_record(
                                    &mut self.indrabase_claim_index,
                                    entry.claim.0,
                                );
                            },
                            FreedReason::TimedOut => {
                                if config.indrabase_cores > 0 {
                                    self.indrabase_queue.enqueue_entry(
                                        entry,
                                        config.indrabase_cores,
                                    );
                                } else {
                                    // nowhere to re-enqueue: the claim is gone,
                                    // so its record leaves the index too
                                    remove_claim_index_record(
                                        &mut self.indrabase_claim_index,
                                        entry.claim.0,
                                    );
                                }
                            },
                        }
                    },
                }
            }
            proof {
                lemma_free_cores_preserves(cores0, q0, next0, index0, freed.take(idx as int + 1),
                    n_ib, sched0@);
            }
            idx = idx + 1;
        }
        proof {
            assert(freed.take(freed.len() as int) =~= freed);
            lemma_free_cores_preserves(cores0, q0, next0, index0, freed, n_ib, sched0@);
        }
    }

    /// Add an indrabase claim to the queue. The call has no effect if the
    /// workload is not a live indrabase, if the queue is already at its
    /// configured capacity, or if a competing claim on the same workload is
    /// outstanding (first claimant wins). Otherwise the workload is recorded
    /// in the claim index and the claim enters the queue with no retries, at
    /// the current rotating core offset.
    pub fn add_indrabase_claim(
        &mut self,
        claim: IndrabaseClaim,
        config: &HostConfiguration,
        live_indrabases: &Vec<IndraId>,
    )
        requires
            old(self).wf(),
            old(self).fully_indexed(),
        ensures
            final(self).wf(),
            final(self).fully_indexed(),
            final(self).validator_groups == old(self).validator_groups,
            final(self).scheduled == old(self).scheduled,
            final(self).availability_cores == old(self).availability_cores,
            final(self).session_start_block == old(self).session_start_block,
            ({
                let rejected = !live_indrabases@.contains(claim.0) || old(
                    self,
                ).indrabase_queue.queue@.len() >= config.indrabase_cores as int
                    * config.scheduling_lookahead as int || old(
                    self,
                ).indrabase_claim_index@.contains(claim.0);
                if rejected {
                    &&& final(self).indrabase_queue.queue@ == old(self).indrabase_queue.queue@
                    &&& final(self).indrabase_queue.next_core_offset == old(
                        self,
                    ).indrabase_queue.next_core_offset
                    &&& final(self).indrabase_claim_index@ == old(self).indrabase_claim_index@
                } else {
                    &&& final(self).indrabase_claim_index@ == spec_index_insert(
                        old(self).indrabase_claim_index@,
                        claim.0,
                    )
                    &&& (
                        final(self).indrabase_queue.queue@,
                        final(self).indrabase_queue.next_core_offset,
                    ) == spec_enqueue(
                        old(self).indrabase_queue.queue@,
                        old(self).indrabase_queue.next_core_offset,
                        IndrabaseEntry { claim, retries: 0 },
                        config.indrabase_cores,
                    )
                }
            }),
    {
        if !contains_id(live_indrabases, claim.0) {
            return ;
        }
        proof {
            let a = config.indrabase_cores as int;
            let b = config.scheduling_lookahead as int;
            assert(0 <= a * b <= 0xffff_ffff * 0xffff_ffff) by (nonlinear_arith)
                requires
                    0 <= a <= 0xffff_ffff,
                    0 <= b <= 0xffff_ffff,
            ;
        }
        let queue_max_size: u64 = (config.indrabase_cores as u64) * (
        config.scheduling_lookahead as u64);
        if (self.indrabase_queue.queue.len() as u64) >= queue_max_size {
            return ;
        }
        match index_search(&self.indrabase_claim_index, claim.0) {
            Ok(_) => {
                return ;
            },
            Err(pos) => {
                let ghost index0 = self.indrabase_claim_index@;
                let ghost q0 = self.indrabase_queue.queue@;
                proof {
                    lemma_insert_pos(index0, claim.0);
                    lemma_index_insert(index0, claim.0);
                }
                self.indrabase_claim_index.insert(pos, claim.0);
                assert(config.indrabase_cores > 0) by {
                    assert(queue_max_size > 0);
                    let a = config.indrabase_cores as int;
                    let b = config.scheduling_lookahead as int;
                    assert(a == 0 ==> a * b == 0) by (nonlinear_arith);
                }
                let entry = IndrabaseEntry { claim, retries: 0 };
                self.indrabase_queue.enqueue_entry(entry, config.indrabase_cores);
                proof {
                    let queued = crate::types::QueuedIndrabase {
                        claim: entry,
                        core_offset: old(self).indrabase_queue.next_core_offset,
                    };
                    let cores = self.availability_cores@;
                    let sched = self.scheduled@;
                    assert forall|id: IndraId|
                        #[trigger] live_count(cores, sched, self.indrabase_queue.queue@, id)
                        <= 1 by {
                        lemma_count_in_queue_push(q0, queued, id);
                        if id == claim.0 {
                            lemma_count_in_cores_nonneg(cores, id);
                            lemma_count_in_queue_nonneg(q0, id);
                            lemma_count_in_scheduled_nonneg(sched, id);
                            if live_count(cores, sched, q0, id) >= 1 {
                                assert(index0.contains(id));
                            }
                        } else {
                            assert(live_count(cores, sched, q0, id) <= 1);
                        }
                    }
                    assert forall|id: IndraId|
                        #[trigger] live_count(cores, sched, self.indrabase_queue.queue@, id)
                        >= 1 implies self.indrabase_claim_index@.contains(id) by {
                        lemma_count_in_queue_push(q0, queued, id);
                        if id == claim.0 {
                        } else {
                            assert(live_count(cores, sched, q0, id) >= 1);
                            assert(index0.contains(id));
                        }
                    }
                }
            },
        }
    }

    /// Schedule all unassigned cores, where possible: free the just-freed
    /// cores, then sweep once over the cores in ascending order, filling
    /// every free core that has no scheduled entry yet — with its indracore
    /// for a dedicated core, with the next claim queued at its offset for an
    /// indrabase-multiplexer core — and keeping the scheduled list strictly
    /// sorted by core index. In a degenerate session without validator
    /// groups, nothing is scheduled.
    ///
    /// Together with `lemma_fill_saturates` and `lemma_fill_idempotent`,
    /// the contract shows that a second call with no newly freed cores and
    /// no new claims leaves the scheduled list and queue unchanged.
    #[verifier::loop_isolation(false)]
    #[verifier::spinoff_prover]
    #[verifier::rlimit(50)]
    pub fn schedule(
        &mut self,
        just_freed_cores: &Vec<(CoreIndex, FreedReason)>,
        now: BlockNumber,
        config: &HostConfiguration,
        indracores: &Vec<IndraId>,
    )
        requires
            old(self).wf(),
            config.group_rotation_frequency > 0,
            now >= old(self).session_start_block,
        ensures
            final(self).wf(),
            old(self).fully_indexed() ==> final(self).fully_indexed(),
            final(self).validator_groups == old(self).validator_groups,
            final(self).session_start_block == old(self).session_start_block,
            ({
                let (c1, q1, n1, i1) = spec_free_cores(
                    old(self).availability_cores@,
                    old(self).indrabase_queue.queue@,
                    old(self).indrabase_queue.next_core_offset,
                    old(self).indrabase_claim_index@,
                    just_freed_cores@,
                    config.indrabase_cores,
                );
                &&& final(self).availability_cores@ == c1
                &&& final(self).indrabase_claim_index@ == i1
                &&& final(self).indrabase_queue.next_core_offset == n1
                &&& if old(self).validator_groups@.len() == 0 {
                    final(self).scheduled@ == old(self).scheduled@
                        && final(self).indrabase_queue.queue@ == q1
                } else {
                    (final(self).scheduled@, final(self).indrabase_queue.queue@) == spec_fill(
                        c1,
                        old(self).scheduled@,
                        q1,
                        0,
                        indracores@,
                        now as int,
                        old(self).session_start_block as int,
                        config.group_rotation_frequency as int,
                    )
                }
            }),
    {
        self.free_cores(just_freed_cores, config);
        if self.validator_groups.len() == 0 {
            return ;
        }
        let ghost cores1 = self.availability_cores@;
        let ghost sched0 = self.scheduled@;
        let ghost q1 = self.indrabase_queue.queue@;
        let ghost next1 = self.indrabase_queue.next_core_offset;
        let ghost index1 = self.indrabase_claim_index@;
        let ghost groups0 = self.validator_groups;
        let ghost ssb = self.session_start_block as int;
        let ghost at = now as int;
        let ghost fr = config.group_rotation_frequency as int;
        let ghost icl = indracores@;
        let ghost target = spec_fill(cores1, sched0, q1, 0, icl, at, ssb, fr);

        let n_cores: usize = self.availability_cores.len();
        let n_groups: usize = self.validator_groups.len();
        assert(n_groups == n_cores);

        let mut new_scheduled: Vec<CoreAssignment> = Vec::new();
        let mut j: usize = 0;
        let mut c: usize = 0;
        proof {
            assert(sched0.skip(0) =~= sched0);
            assert(Seq::<CoreAssignment>::empty() + target.0 =~= target.0);
        }
        while c < n_cores
            invariant
                c <= n_cores,
                j <= sched0.len(),
                self.availability_cores@ == cores1,
                self.scheduled@ == sched0,
                self.indrabase_claim_index@ == index1,
                self.indrabase_queue.next_core_offset == next1,
                self.validator_groups == groups0,
                self.session_start_block as int == ssb,
                ({
                    let (rs, rq) = spec_fill(
                        cores1,
                        sched0.skip(j as int),
                        self.indrabase_queue.queue@,
                        c as int,
                        icl,
                        at,
                        ssb,
                        fr,
                    );
                    new_scheduled@ + rs == target.0 && rq == target.1
                }),
            decreases n_cores - c,
        {
            while j < self.scheduled.len() && self.scheduled[j].core < c as u32
                invariant
                    c < n_cores,
                    j <= sched0.len(),
                    self.availability_cores@ == cores1,
                    self.scheduled@ == sched0,
                    self.indrabase_claim_index@ == index1,
                    self.indrabase_queue.next_core_offset == next1,
                    self.validator_groups == groups0,
                    self.session_start_block as int == ssb,
                    ({
                        let (rs, rq) = spec_fill(
                            cores1,
                            sched0.skip(j as int),
                            self.indrabase_queue.queue@,
                            c as int,
                            icl,
                            at,
                            ssb,
                            fr,
                        );
                        new_scheduled@ + rs == target.0 && rq == target.1
                    }),
                decreases sched0.len() - j,
            {
                let a = self.scheduled[j];
                proof {
                    let (rs, rq) = spec_fill(cores1, sched0.skip(j as int),
                        self.indrabase_queue.queue@, c as int, icl, at, ssb, fr);
                    assert(sched0.skip(j as int)[0] == sched0[j as int]);
                    assert(sched0.skip(j as int).skip(1) =~= sched0.skip(j as int + 1));
                    let (rs1, rq1) = spec_fill(cores1, sched0.skip(j as int + 1),
                        self.indrabase_queue.queue@, c as int, icl, at, ssb, fr);
                    assert(rs == seq![a] + rs1);
                    assert(new_scheduled@.push(a) + rs1 =~= new_scheduled@ + rs);
                }
                new_scheduled.push(a);
                j = j + 1;
            }
            if self.availability_cores[c].is_none() {
                if j < self.scheduled.len() && self.scheduled[j].core == c as u32 {
                    let a = self.scheduled[j];
                    proof {
                        let (rs, rq) = spec_fill(cores1, sched0.skip(j as int),
                            self.indrabase_queue.queue@, c as int, icl, at, ssb, fr);
                        assert(sched0.skip(j as int)[0] == sched0[j as int]);
                        assert(sched0.skip(j as int).skip(1) =~= sched0.skip(j as int + 1));
                        let (rs1, rq1) = spec_fill(cores1, sched0.skip(j as int + 1),
                            self.indrabase_queue.queue@, c as int + 1, icl, at, ssb, fr);
                        assert(rs == seq![a] + rs1);
                        assert(new_scheduled@.push(a) + rs1 =~= new_scheduled@ + rs);
                    }
                    new_scheduled.push(a);
                    j = j + 1;
                } else if c < indracores.len() {
                    let g = group_index_at(
                        c as u32,
                        now,
                        self.session_start_block,
                        config.group_rotation_frequency,
                        n_groups,
                    );
                    let a = CoreAssignment {
                        core: c as u32,
                        indra_id: indracores[c],
                        kind: AssignmentKind::Indracore,
                        group_idx: g,
                    };
                    proof {
                        if j < sched0.len() {
                            assert(sched0.skip(j as int)[0] == sched0[j as int]);
                        }
                        let (rs, rq) = spec_fill(cores1, sched0.skip(j as int),
                            self.indrabase_queue.queue@, c as int, icl, at, ssb, fr);
                        assert(a == crate::fill::indracore_assignment(c as int, icl, at, ssb, fr,
                            cores1.len() as int));
                        let (rs1, rq1) = spec_fill(cores1, sched0.skip(j as int),
                            self.indrabase_queue.queue@, c as int + 1, icl, at, ssb, fr);
                        assert(rs == seq![a] + rs1);
                        assert(new_scheduled@.push(a) + rs1 =~= new_scheduled@ + rs);
                    }
                    new_scheduled.push(a);
                } else {
                    let core_offset: u32 = (c - indracores.len()) as u32;
                    let ghost qc = self.indrabase_queue.queue@;
                    match self.indrabase_queue.take_next_on_core(core_offset) {
                        Some(entry) => {
                            let g = group_index_at(
                                c as u32,
                                now,
                                self.session_start_block,
                                config.group_rotation_frequency,
                                n_groups,
                            );
                            let a = CoreAssignment {
                                core: c as u32,
                                indra_id: entry.claim.0,
                                kind: AssignmentKind::Indrabase(entry.claim.1, entry.retries),
                                group_idx: g,
                            };
                            proof {
                                if j < sched0.len() {
                                    assert(sched0.skip(j as int)[0] == sched0[j as int]);
                                }
                                let f = crate::queue::spec_first_on_core(qc, core_offset);
                                crate::queue::lemma_first_on_core(qc, core_offset);
                                let (rs, rq) = spec_fill(cores1, sched0.skip(j as int), qc,
                                    c as int, icl, at, ssb, fr);
                                assert(a == crate::fill::indrabase_assignment(c as int,
                                    qc[f].claim, at, ssb, fr, cores1.len() as int));
                                let (rs1, rq1) = spec_fill(cores1, sched0.skip(j as int),
                                    self.indrabase_queue.queue@, c as int + 1, icl, at, ssb, fr);
                                assert(rs == seq![a] + rs1);
                                assert(new_scheduled@.push(a) + rs1 =~= new_scheduled@ + rs);
                            }
                            new_scheduled.push(a);
                        },
                        None => {
                            proof {
                                if j < sched0.len() {
                                    assert(sched0.skip(j as int)[0] == sched0[j as int]);
                                }
                                crate::queue::lemma_first_on_core(qc, core_offset);
                            }
                        },
                    }
                }
            } else {
                proof {
                    if j < sched0.len() {
                        assert(sched0.skip(j as int)[0] == sched0[j as int]);
                    }
                }
            }
            c = c + 1;
        }
        proof {
            let (rs, rq) = spec_fill(cores1, sched0.skip(j as int), self.indrabase_queue.queue@,
                c as int, icl, at, ssb, fr);
            assert(rs == sched0.skip(j as int));
            assert(rq == self.indrabase_queue.queue@);
        }
        while j < self.scheduled.len()
            invariant
                j <= sched0.len(),
                self.availability_cores@ == cores1,
                self.scheduled@ == sched0,
                self.indrabase_claim_index@ == index1,
                self.indrabase_queue.next_core_offset == next1,
                self.validator_groups == groups0,
                self.session_start_block as int == ssb,
                self.indrabase_queue.queue@ == target.1,
                new_scheduled@ + sched0.skip(j as int) == target.0,
            decreases sched0.len() - j,
        {
            let a = self.scheduled[j];
            proof {
                assert(sched0.skip(j as int)[0] == sched0[j as int]);
                assert(new_scheduled@.push(a) + sched0.skip(j as int + 1) =~= new_scheduled@
                    + sched0.skip(j as int));
            }
            new_scheduled.push(a);
            j = j + 1;
        }
        proof {
            assert(sched0.skip(j as int) =~= Seq::<CoreAssignment>::empty());
            assert(new_scheduled@ + sched0.skip(j as int) =~= new_scheduled@);
        }
        self.scheduled = new_scheduled;
        proof {
            lemma_fill_sorted(cores1, sched0, q1, 0, icl, at, ssb, fr);
            lemma_fill_cores_free(cores1, sched0, q1, 0, icl, at, ssb, fr);
            assert forall|id: IndraId|
                #[trigger] live_count(cores1, target.0, target.1, id) <= 1 by {
                lemma_fill_conserves_claims(cores1, sched0, q1, 0, icl, at, ssb, fr, id);
                assert(live_count(cores1, sched0, q1, id) <= 1);
            }
            if claims_indexed(cores1, sched0, q1, index1) {
                assert forall|id: IndraId|
                    #[trigger] live_count(cores1, target.0, target.1, id) >= 1 implies
                    index1.contains(id) by {
                    lemma_fill_conserves_claims(cores1, sched0, q1, 0, icl, at, ssb, fr, id);
                    assert(live_count(cores1, sched0, q1, id) >= 1);
                }
            }
        }
    }

    /// Note that the given cores have become occupied: each named entry
    /// leaves the scheduled list and its occupant is installed on its core.
    /// The caller must pass a strictly ascending list of in-range core
    /// indices that are currently scheduled.
    #[verifier::loop_isolation(false)]
    #[verifier::spinoff_prover]
    #[verifier::rlimit(50)]
    pub fn occupied(&mut self, now_occupied: &Vec<CoreIndex>)
        requires
            old(self).wf(),
            forall|i: int, j: int|
                0 <= i < j < now_occupied@.len() ==> now_occupied@[i] < now_occupied@[j],
            forall|i: int|
                0 <= i < now_occupied@.len() ==> now_occupied@[i] < old(
                    self,
                ).availability_cores@.len(),
            forall|i: int|
                0 <= i < now_occupied@.len() ==> has_core(
                    old(self).scheduled@,
                    now_occupied@[i] as int,
                ),
        ensures
            final(self).wf(),
            old(self).fully_indexed() ==> final(self).fully_indexed(),
            final(self).validator_groups == old(self).validator_groups,
            final(self).indrabase_queue == old(self).indrabase_queue,
            final(self).indrabase_claim_index == old(self).indrabase_claim_index,
            final(self).session_start_block == old(self).session_start_block,
            (final(self).scheduled@, final(self).availability_cores@) == spec_occupied(
                old(self).scheduled@,
                old(self).availability_cores@,
                now_occupied@,
            ),
    {
        let ghost sched0 = self.scheduled@;
        let ghost cores0 = self.availability_cores@;
        let ghost occ0 = now_occupied@;
        let ghost target = spec_occupied(sched0, cores0, occ0);
        let mut new_scheduled: Vec<CoreAssignment> = Vec::new();
        let mut k: usize = 0;
        let mut j: usize = 0;
        proof {
            assert(sched0.skip(0) =~= sched0);
            assert(occ0.skip(0) =~= occ0);
            assert(Seq::<CoreAssignment>::empty() + target.0 =~= target.0);
        }
        while j < self.scheduled.len()
            invariant
                j <= sched0.len(),
                k <= occ0.len(),
                self.scheduled@ == sched0,
                self.availability_cores@.len() == cores0.len(),
                self.validator_groups == old(self).validator_groups,
                self.indrabase_queue == old(self).indrabase_queue,
                self.indrabase_claim_index == old(self).indrabase_claim_index,
                self.session_start_block == old(self).session_start_block,
                ({
                    let (rs, rc) = spec_occupied(
                        sched0.skip(j as int),
                        self.availability_cores@,
                        occ0.skip(k as int),
                    );
                    new_scheduled@ + rs == target.0 && rc == target.1
                }),
            decreases sched0.len() - j,
        {
            let a = self.scheduled[j];
            proof {
                assert(sched0.skip(j as int)[0] == sched0[j as int]);
                assert(sched0.skip(j as int).skip(1) =~= sched0.skip(j as int + 1));
            }
            if k < now_occupied.len() && now_occupied[k] == a.core {
                proof {
                    assert(occ0.skip(k as int)[0] == occ0[k as int]);
                    assert(occ0.skip(k as int).skip(1) =~= occ0.skip(k as int + 1));
                }
                let occupant = a.to_core_occupied();
                self.availability_cores.set(a.core as usize, Some(occupant));
                k = k + 1;
            } else {
                proof {
                    let (rs1, rc1) = spec_occupied(
                        sched0.skip(j as int + 1),
                        self.availability_cores@,
                        occ0.skip(k as int),
                    );
                    assert(new_scheduled@.push(a) + rs1 =~= new_scheduled@ + (seq![a] + rs1));
                }
                new_scheduled.push(a);
            }
            j = j + 1;
        }
        proof {
            assert(sched0.skip(j as int) =~= Seq::<CoreAssignment>::empty());
            let (rs, rc) = spec_occupied(
                sched0.skip(j as int),
                self.availability_cores@,
                occ0.skip(k as int),
            );
            assert(new_scheduled@ + rs =~= new_scheduled@);
        }
        self.scheduled = new_scheduled;
        proof {
            lemma_occupied_preserves(sched0, cores0, occ0, self.indrabase_queue.queue@,
                self.indrabase_claim_index@);
        }
    }

    /// Free all scheduled cores and return indrabase claims to the queue,
    /// with retries incremented. A claim whose workload has been deregistered
    /// is dropped, as is one whose incremented retry count would exceed the
    /// configured limit; a dropped claim is no longer outstanding, so its
    /// workload id also leaves the claim index and the workload may claim
    /// again.
    #[verifier::loop_isolation(false)]
    #[verifier::spinoff_prover]
    pub fn clear(&mut self, config: &HostConfiguration, live_indrabases: &Vec<IndraId>)
        requires
            old(self).wf(),
        ensures
            final(self).wf(),
            old(self).fully_indexed() ==> final(self).fully_indexed(),
            final(self).validator_groups == old(self).validator_groups,
            final(self).availability_cores == old(self).availability_cores,
            final(self).session_start_block == old(self).session_start_block,
            final(self).scheduled@ == Seq::<CoreAssignment>::empty(),
            (
                final(self).indrabase_queue.queue@,
                final(self).indrabase_queue.next_core_offset,
                final(self).indrabase_claim_index@,
            ) == spec_clear(
                old(self).scheduled@,
                old(self).indrabase_queue.queue@,
                old(self).indrabase_queue.next_core_offset,
                old(self).indrabase_claim_index@,
                live_indrabases@,
                config.indrabase_retries,
                config.indrabase_cores,
            ),
    {
        let ghost sched0 = self.scheduled@;
        let ghost q0 = self.indrabase_queue.queue@;
        let ghost next0 = self.indrabase_queue.next_core_offset;
        let ghost index0 = self.indrabase_claim_index@;
        let ghost live = live_indrabases@;
        let mut i: usize = 0;
        proof {
            assert(sched0.take(0) =~= Seq::<CoreAssignment>::empty());
        }
        while i < self.scheduled.len()
            invariant
                i <= sched0.len(),
                self.scheduled@ == sched0,
                self.validator_groups == old(self).validator_groups,
                self.availability_cores == old(self).availability_cores,
                self.session_start_block == old(self).session_start_block,
                ids_sorted(self.indrabase_claim_index@),
                (
                    self.indrabase_queue.queue@,
                    self.indrabase_queue.next_core_offset,
                    self.indrabase_claim_index@,
                ) == spec_clear(
                    sched0.take(i as int),
                    q0,
                    next0,
                    index0,
                    live,
                    config.indrabase_retries,
                    config.indrabase_cores,
                ),
            decreases sched0.len() - i,
        {
            let a = self.scheduled[i];
            proof {
                assert(sched0.take(i as int + 1).drop_last() =~= sched0.take(i as int));
                assert(sched0.take(i as int + 1).last() == sched0[i as int]);
            }
            match a.kind {
                AssignmentKind::Indrabase(collator, retries) => {
                    if contains_id(live_indrabases, a.indra_id) && retries
                        < config.indrabase_retries && config.indrabase_cores > 0 {
                        let entry = IndrabaseEntry {
                            claim: IndrabaseClaim(a.indra_id, collator),
                            retries: retries + 1,
                        };
                        self.indrabase_queue.enqueue_entry(entry, config.indrabase_cores);
                    } else {
                        // dropped for good: no claim on this workload remains
                        // outstanding, so its index record goes too
                        proof {
                            lemma_index_remove(self.indrabase_claim_index@, a.indra_id);
                        }
                        remove_claim_index_record(&mut self.indrabase_claim_index, a.indra_id);
                    }
                },
                AssignmentKind::Indracore => {},
            }
            i = i + 1;
        }
        proof {
            assert(sched0.take(sched0.len() as int) =~= sched0);
        }
        self.scheduled = Vec::new();
        proof {
            let q1 = self.indrabase_queue.queue@;
            let i1 = self.indrabase_claim_index@;
            let cores0 = self.availability_cores@;
            lemma_clear_index_sorted(sched0, q0, next0, index0, live, config.indrabase_retries,
                config.indrabase_cores);
            assert forall|id: IndraId|
                #[trigger] live_count(cores0, self.scheduled@, q1, id) <= 1 by {
                lemma_clear_bounds(sched0, q0, next0, index0, live, config.indrabase_retries,
                    config.indrabase_cores, id);
                assert(live_count(cores0, sched0, q0, id) <= 1);
                lemma_count_in_queue_nonneg(q1, id);
                lemma_count_in_cores_nonneg(cores0, id);
            }
            if claims_indexed(cores0, sched0, q0, index0) {
                assert forall|id: IndraId|
                    #[trigger] live_count(cores0, self.scheduled@, q1, id) >= 1 implies
                    i1.contains(id) by {
                    lemma_clear_bounds(sched0, q0, next0, index0, live, config.indrabase_retries,
                        config.indrabase_cores, id);
                    lemma_count_in_queue_nonneg(q0, id);
                    lemma_count_in_queue_nonneg(q1, id);
                    lemma_count_in_scheduled_nonneg(sched0, id);
                    lemma_count_in_cores_nonneg(cores0, id);
                    assert(live_count(cores0, sched0, q0, id) >= 1);
                    assert(index0.contains(id));
                    lemma_clear_keeps_outstanding(sched0, q0, next0, index0, live,
                        config.indrabase_retries, config.indrabase_cores, cores0, id);
                }
            }
        }
    }

    /// The group serving `core` at block `at`: absent when `at` precedes the
    /// session start or the core is beyond the groups; otherwise the core
    /// index shifted by the rotations since the session start, modulo the
    /// group count.
    pub open spec fn spec_group_assigned_to_core(
        self,
        core: int,
        at: int,
        config: HostConfiguration,
    ) -> Option<GroupIndex> {
        if at < self.session_start_block || core < 0 || core >= self.validator_groups@.len() {
            None
        } else {
            Some(
                spec_group_for_core(
                    core,
                    at,
                    self.session_start_block as int,
                    config.group_rotation_frequency as int,
                    self.validator_groups@.len() as int,
                ) as u32,
            )
        }
    }

    /// Get the group assigned to a specific core by index at the given block
    /// number.
    pub fn group_assigned_to_core(
        &self,
        core: CoreIndex,
        at: BlockNumber,
        config: &HostConfiguration,
    ) -> (r: Option<GroupIndex>)
        requires
            self.wf(),
            config.group_rotation_frequency > 0,
        ensures
            r == self.spec_group_assigned_to_core(core as int, at as int, *config),
    {
        if at < self.session_start_block {
            return None;
        }
        let n_groups = self.validator_groups.len();
        if core as usize >= n_groups {
            return None;
        }
        Some(
            group_index_at(
                core,
                at,
                self.session_start_block,
                config.group_rotation_frequency,
                n_groups,
            ),
        )
    }

    /// Get the validators in the given group, if the group index is valid for
    /// this session.
    pub fn group_validators(&self, group_index: GroupIndex) -> (r: Option<Vec<ValidatorIndex>>)
        ensures
            match r {
                Some(g) => (group_index as int) < self.validator_groups@.len() && g@
                    == self.validator_groups@[group_index as int]@,
                None => group_index as int >= self.validator_groups@.len(),
            },
    {
        if (group_index as usize) < self.validator_groups.len() {
            let src = &self.validator_groups[group_index as usize];
            let mut g: Vec<ValidatorIndex> = Vec::new();
            let mut i: usize = 0;
            while i < src.len()
                invariant
                    i <= src@.len(),
                    g@ == src@.take(i as int),
                decreases src@.len() - i,
            {
                g.push(src[i]);
                proof {
                    assert(src@.take(i + 1) =~= src@.take(i as int).push(src@[i as int]));
                }
                i = i + 1;
            }
            proof {
                assert(src@.take(src@.len() as int) =~= src@);
            }
            Some(g)
        } else {
            None
        }
    }

    /// The workload on a core: the bound indracore when an indracore occupies
    /// it, the claimed workload when an indrabase claim occupies it, nothing
    /// when the core is free or out of range.
    pub open spec fn spec_core_indra(self, core: int, indracores: Seq<IndraId>) -> Option<IndraId> {
        if 0 <= core < self.availability_cores@.len() {
            match self.availability_cores@[core] {
                None => None,
                Some(CoreOccupied::Indracore) => if core < indracores.len() {
                    Some(indracores[core])
                } else {
                    None
                },
                Some(CoreOccupied::Indrabase(entry)) => Some(entry.claim.0),
            }
        } else {
            None
        }
    }

    /// Get the workload ID assigned to a particular core, if any. Core
    /// indices out of bounds return `None`, as do unassigned cores.
    pub fn core_indra(&self, core_index: CoreIndex, indracores: &Vec<IndraId>) -> (r: Option<
        IndraId,
    >)
        ensures
            r == self.spec_core_indra(core_index as int, indracores@),
    {
        if (core_index as usize) >= self.availability_cores.len() {
            return None;
        }
        match self.availability_cores[core_index as usize] {
            None => None,
            Some(CoreOccupied::Indracore) => {
                if (core_index as usize) < indracores.len() {
                    Some(indracores[core_index as usize])
                } else {
                    None
                }
            },
            Some(CoreOccupied::Indrabase(entry)) => Some(entry.claim.0),
        }
    }

    /// What will be scheduled on the core next if its occupant becomes
    /// available: for an indracore core, always its indracore with no
    /// required collator; for an indrabase-multiplexer core, the next claim
    /// queued at that core's offset, if any.
    pub open spec fn spec_next_up_on_available(self, core: int, indracores: Seq<IndraId>) -> Option<
        ScheduledCore,
    > {
        if 0 <= core < indracores.len() {
            Some(ScheduledCore { indra_id: indracores[core], collator: None })
        } else {
            match spec_peek_on_core(
                self.indrabase_queue.queue@,
                (core - indracores.len()) as u32,
            ) {
                Some(entry) => Some(
                    ScheduledCore { indra_id: entry.claim.0, collator: Some(entry.claim.1) },
                ),
                None => None,
            }
        }
    }

    /// Return the next thing that will be scheduled on this core assuming it
    /// is currently occupied and the candidate occupying it became available.
    pub fn next_up_on_available(&self, core: CoreIndex, indracores: &Vec<IndraId>) -> (r: Option<
        ScheduledCore,
    >)
        requires
            indracores@.len() <= u32::MAX,
        ensures
            r == self.spec_next_up_on_available(core as int, indracores@),
    {
        if (core as usize) < indracores.len() {
            Some(ScheduledCore { indra_id: indracores[core as usize], collator: None })
        } else {
            let core_offset: u32 = core - (indracores.len() as u32);
            match self.indrabase_queue.get_next_on_core(core_offset) {
                Some(entry) => Some(
                    ScheduledCore { indra_id: entry.claim.0, collator: Some(entry.claim.1) },
                ),
                None => None,
            }
        }
    }

    /// What will be scheduled on the core next if its occupant times out:
    /// as on availability, except that an indrabase-multiplexer core with an
    /// empty queue at its offset falls back to the claim currently occupying
    /// the core, since a timeout re-enqueues it unchanged.
    pub open spec fn spec_next_up_on_time_out(self, core: int, indracores: Seq<IndraId>) -> Option<
        ScheduledCore,
    > {
        if 0 <= core < indracores.len() {
            Some(ScheduledCore { indra_id: indracores[core], collator: None })
        } else {
            match spec_peek_on_core(
                self.indrabase_queue.queue@,
                (core - indracores.len()) as u32,
            ) {
                Some(entry) => Some(
                    ScheduledCore { indra_id: entry.claim.0, collator: Some(entry.claim.1) },
                ),
                None => if 0 <= core < self.availability_cores@.len() {
                    match self.availability_cores@[core] {
                        Some(CoreOccupied::Indrabase(entry)) => Some(
                            ScheduledCore {
                                indra_id: entry.claim.0,
                                collator: Some(entry.claim.1),
                            },
                        ),
                        _ => None,
                    }
                } else {
                    None
                },
            }
        }
    }

    /// Return the next thing that will be scheduled on this core assuming it
    /// is currently occupied and the candidate occupying it timed out.
    pub fn next_up_on_time_out(&self, core: CoreIndex, indracores: &Vec<IndraId>) -> (r: Option<
        ScheduledCore,
    >)
        requires
            indracores@.len() <= u32::MAX,
        ensures
            r == self.spec_next_up_on_time_out(core as int, indracores@),
    {
        if (core as usize) < indracores.len() {
            return Some(ScheduledCore { indra_id: indracores[core as usize], collator: None });
        }
        let core_offset: u32 = core - (indracores.len() as u32);
        match self.indrabase_queue.get_next_on_core(core_offset) {
            Some(entry) => Some(
                ScheduledCore { indra_id: entry.claim.0, collator: Some(entry.claim.1) },
            ),
            None => {
                if (core as usize) < self.availability_cores.len() {
                    match self.availability_cores[core as usize] {
                        Some(CoreOccupied::Indrabase(entry)) => Some(
                            ScheduledCore {
                                indra_id: entry.claim.0,
                                collator: Some(entry.claim.1),
                            },
                        ),
                        _ => None,
                    }
                } else {
                    None
                }
            },
        }
    }

    /// How many blocks `now` is past the most recent group rotation.
    pub open spec fn spec_blocks_since_last_rotation(
        self,
        now: int,
        config: HostConfiguration,
    ) -> int
        recommends
            config.group_rotation_frequency > 0,
    {
        spec_saturating_sub(now, self.session_start_block as int)
            % config.group_rotation_frequency as int
    }

    /// Returns an optional predicate that should be used for timing out
    /// occupied cores. `None` means no timing-out should be done: the
    /// predicate exists only within the larger of the two availability
    /// periods after the last rotation, to avoid punishing a group that just
    /// inherited a core mid-flight.
    pub fn availability_timeout_predicate(
        &self,
        now: BlockNumber,
        config: &HostConfiguration,
    ) -> (r: Option<AvailabilityTimeoutPredicate>)
        requires
            config.group_rotation_frequency > 0,
        ensures
            ({
                let since = self.spec_blocks_since_last_rotation(now as int, *config);
                let cutoff = if config.chain_availability_period
                    >= config.thread_availability_period {
                    config.chain_availability_period
                } else {
                    config.thread_availability_period
                };
                match r {
                    None => since >= cutoff,
                    Some(p) => {
                        &&& since < cutoff
                        &&& p.now == now
                        &&& p.blocks_since_last_rotation == since
                        &&& p.chain_availability_period == config.chain_availability_period
                        &&& p.thread_availability_period == config.thread_availability_period
                        &&& p.availability_cores@ == self.availability_cores@
                    },
                }
            }),
    {
        let blocks_since_session_start: u32 = if now >= self.session_start_block {
            now - self.session_start_block
        } else {
            0
        };
        let blocks_since_last_rotation: u32 = blocks_since_session_start
            % config.group_rotation_frequency;
        let absolute_cutoff: u32 = if config.chain_availability_period
            >= config.thread_availability_period {
            config.chain_availability_period
        } else {
            config.thread_availability_period
        };
        if blocks_since_last_rotation >= absolute_cutoff {
            None
        } else {
            let mut cores_copy: Vec<Option<CoreOccupied>> = Vec::new();
            let mut i: usize = 0;
            while i < self.availability_cores.len()
                invariant
                    i <= self.availability_cores@.len(),
                    cores_copy@ == self.availability_cores@.take(i as int),
                decreases self.availability_cores@.len() - i,
            {
                cores_copy.push(self.availability_cores[i]);
                proof {
                    assert(self.availability_cores@.take(i + 1) =~= self.availability_cores@.take(
                        i as int,
                    ).push(self.availability_cores@[i as int]));
                }
                i = i + 1;
            }
            proof {
                assert(self.availability_cores@.take(self.availability_cores@.len() as int)
                    =~= self.availability_cores@);
            }
            Some(
                AvailabilityTimeoutPredicate {
                    now,
                    blocks_since_last_rotation,
                    chain_availability_period: config.chain_availability_period,
                    thread_availability_period: config.thread_availability_period,
                    availability_cores: cores_copy,
                },
            )
        }
    }

    /// Returns a helper for determining group rotation.
    pub fn group_rotation_info(&self, now: BlockNumber, config: &HostConfiguration) -> (r:
        GroupRotationInfo)
        ensures
            r.session_start_block == self.session_start_block,
            r.now == now,
            r.group_rotation_frequency == config.group_rotation_frequency,
    {
        GroupRotationInfo {
            session_start_block: self.session_start_block,
            now,
            group_rotation_frequency: config.group_rotation_frequency,
        }
    }
}

} // verus!
