//! Concrete checks of the library's stated laws and edge cases.

use indra_scheduler::groups::make_groups;
use indra_scheduler::queue::IndrabaseClaimQueue;
use indra_scheduler::scheduler::Scheduler;
use indra_scheduler::types::{
    AssignmentKind, CollatorId, FreedReason, HostConfiguration, IndraId, IndrabaseClaim,
    IndrabaseEntry, SessionChangeNotification,
};

fn config() -> HostConfiguration {
    HostConfiguration {
        indrabase_cores: 3,
        group_rotation_frequency: 10,
        chain_availability_period: 3,
        thread_availability_period: 5,
        scheduling_lookahead: 2,
        indrabase_retries: 1,
        max_validators_per_core: None,
    }
}

/// Boot a scheduler session with the given live workloads and validators.
fn start_session(
    indracores: &Vec<IndraId>,
    live_indrabases: &Vec<IndraId>,
    n_validators: u32,
    config: &HostConfiguration,
) -> Scheduler {
    let mut scheduler = Scheduler::new();
    let notification = SessionChangeNotification {
        validators: (0..n_validators).collect(),
        new_config: *config,
    };
    scheduler.initializer_on_new_session(&notification, indracores, live_indrabases, 0);
    scheduler
}

#[test]
fn groups_cover_validators_with_balanced_sizes() {
    // 7 validators over 5 cores: one group per core, sizes differing by at
    // most one, the larger groups first, covering every validator once.
    let groups = make_groups(7, 5);
    assert_eq!(groups.len(), 5);
    let sizes: Vec<usize> = groups.iter().map(|g| g.len()).collect();
    assert_eq!(sizes, vec![2, 2, 1, 1, 1]);
    let flattened: Vec<u32> = groups.iter().flatten().copied().collect();
    assert_eq!(flattened, vec![0, 1, 2, 3, 4, 5, 6]);
}

#[test]
fn groups_empty_session_has_no_groups() {
    let cfg = config();
    let scheduler = start_session(&vec![], &vec![], 0, &cfg);
    assert_eq!(scheduler.validator_groups.len(), 0);
    // three multiplexer cores still exist; nothing is scheduled without groups
    assert_eq!(scheduler.availability_cores.len(), 3);
    assert!(scheduler.scheduled.is_empty());
}

#[test]
fn claim_is_live_in_exactly_one_place() {
    // one claim, stepped through queue -> scheduled -> occupied -> timed out
    // and re-queued: at every step exactly one live entry exists for it.
    let cfg = config();
    let indracores: Vec<IndraId> = vec![];
    let bases: Vec<IndraId> = vec![9];
    let collator: CollatorId = 77;
    let mut s = start_session(&indracores, &bases, 3, &cfg);

    let live_entries = |s: &Scheduler, id: IndraId| -> usize {
        let queued = s.indrabase_queue.queue.iter().filter(|e| e.claim.claim.0 == id).count();
        let occupied = s
            .availability_cores
            .iter()
            .filter(|c| match c {
                Some(indra_scheduler::types::CoreOccupied::Indrabase(e)) => e.claim.0 == id,
                _ => false,
            })
            .count();
        let scheduled = s
            .scheduled
            .iter()
            .filter(|a| a.indra_id == id && matches!(a.kind, AssignmentKind::Indrabase(_, _)))
            .count();
        queued + occupied + scheduled
    };

    s.add_indrabase_claim(IndrabaseClaim(9, collator), &cfg, &bases);
    assert_eq!(live_entries(&s, 9), 1);
    assert_eq!(s.indrabase_claim_index, vec![9]);

    // a competing claim changes nothing
    s.add_indrabase_claim(IndrabaseClaim(9, 78), &cfg, &bases);
    assert_eq!(live_entries(&s, 9), 1);

    s.schedule(&vec![], 1, &cfg, &indracores);
    assert_eq!(live_entries(&s, 9), 1);

    s.occupied(&vec![0]);
    assert_eq!(live_entries(&s, 9), 1);

    s.free_cores(&vec![(0, FreedReason::TimedOut)], &cfg);
    assert_eq!(live_entries(&s, 9), 1);
    assert_eq!(s.indrabase_claim_index, vec![9]);

    // conclusion finally releases the claim; the timed-out claim was
    // re-affinitized to the next offset, so it now sits on core 1
    s.schedule(&vec![], 2, &cfg, &indracores);
    assert_eq!(live_entries(&s, 9), 1);
    let core = s.scheduled[0].core;
    assert_eq!(core, 1);
    s.occupied(&vec![core]);
    s.free_cores(&vec![(core, FreedReason::Concluded)], &cfg);
    assert_eq!(live_entries(&s, 9), 0);
    assert!(s.indrabase_claim_index.is_empty());
}

#[test]
fn scheduled_is_strictly_sorted_by_core() {
    let cfg = config();
    let indracores: Vec<IndraId> = vec![1, 2];
    let bases: Vec<IndraId> = vec![3, 4, 5];
    let mut s = start_session(&indracores, &bases, 5, &cfg);

    s.add_indrabase_claim(IndrabaseClaim(3, 10), &cfg, &bases);
    s.add_indrabase_claim(IndrabaseClaim(4, 11), &cfg, &bases);
    s.schedule(&vec![], 1, &cfg, &indracores);
    s.occupied(&vec![1, 2]);
    // freeing core 1 reschedules it among the remaining entries
    s.schedule(&vec![(1, FreedReason::Concluded)], 1, &cfg, &indracores);

    let cores: Vec<u32> = s.scheduled.iter().map(|a| a.core).collect();
    for w in cores.windows(2) {
        assert!(w[0] < w[1]);
    }
    // and no scheduled entry names an occupied core
    for a in &s.scheduled {
        assert!(s.availability_cores[a.core as usize].is_none());
    }
}

#[test]
fn enqueue_then_take_returns_entry_unchanged() {
    let mut queue = IndrabaseClaimQueue::default();
    let entry = IndrabaseEntry { claim: IndrabaseClaim(42, 1000), retries: 7 };
    queue.enqueue_entry(entry, 3);
    assert_eq!(queue.queue.len(), 1);
    let taken = queue.take_next_on_core(0);
    assert_eq!(taken, Some(entry));
    assert!(queue.queue.is_empty());
    // the offset cursor advanced past the slot the entry was placed on
    assert_eq!(queue.next_core_offset, 1);
}

#[test]
fn schedule_twice_changes_nothing() {
    let cfg = config();
    let indracores: Vec<IndraId> = vec![1, 2];
    let bases: Vec<IndraId> = vec![3, 4];
    let mut s = start_session(&indracores, &bases, 5, &cfg);

    s.add_indrabase_claim(IndrabaseClaim(3, 5), &cfg, &bases);
    s.schedule(&vec![], 1, &cfg, &indracores);

    let scheduled_after_first = s.scheduled.clone();
    let queue_after_first = s.indrabase_queue.clone();
    let cores_after_first = s.availability_cores.clone();

    // no newly freed cores, no new claims: a second call is a no-op.
    s.schedule(&vec![], 1, &cfg, &indracores);

    assert_eq!(s.scheduled, scheduled_after_first);
    assert_eq!(s.indrabase_queue, queue_after_first);
    assert_eq!(s.availability_cores, cores_after_first);
}

#[test]
fn claim_on_full_queue_is_dropped() {
    let mut cfg = config();
    cfg.indrabase_cores = 1;
    cfg.scheduling_lookahead = 2;
    let bases: Vec<IndraId> = vec![1, 2, 3];
    let mut s = start_session(&vec![], &bases, 2, &cfg);

    // capacity is indrabase_cores * scheduling_lookahead = 2
    s.add_indrabase_claim(IndrabaseClaim(1, 7), &cfg, &bases);
    s.add_indrabase_claim(IndrabaseClaim(2, 7), &cfg, &bases);
    assert_eq!(s.indrabase_queue.queue.len(), 2);

    s.add_indrabase_claim(IndrabaseClaim(3, 7), &cfg, &bases);
    assert_eq!(s.indrabase_queue.queue.len(), 2);
    assert_eq!(s.indrabase_claim_index, vec![1, 2]);
}

#[test]
fn group_rotation_shifts_at_exact_boundary() {
    let cfg = config();
    let indracores: Vec<IndraId> = vec![1, 2];
    let s = start_session(&indracores, &vec![], 5, &cfg);
    // session_start_block is 1; rotation frequency is 10: the binding shifts
    // by one at block 11, not at block 10.
    assert_eq!(s.session_start_block, 1);
    assert_eq!(s.group_assigned_to_core(0, 1, &cfg), Some(0));
    assert_eq!(s.group_assigned_to_core(0, 10, &cfg), Some(0));
    assert_eq!(s.group_assigned_to_core(0, 11, &cfg), Some(1));
    assert_eq!(s.group_assigned_to_core(3, 11, &cfg), Some(4));
    assert_eq!(s.group_assigned_to_core(4, 11, &cfg), Some(0));
    // out-of-range cores and blocks before the session have no group
    assert_eq!(s.group_assigned_to_core(5, 11, &cfg), None);
    assert_eq!(s.group_assigned_to_core(0, 0, &cfg), None);
}

#[test]
fn availability_predicate_gone_at_exact_cutoff() {
    let cfg = config();
    let indracores: Vec<IndraId> = vec![1];
    let s = start_session(&indracores, &vec![], 4, &cfg);
    // session starts at block 1; cutoff is max(3, 5) = 5.
    assert!(s.availability_timeout_predicate(1, &cfg).is_some());
    assert!(s.availability_timeout_predicate(5, &cfg).is_some());
    assert!(s.availability_timeout_predicate(6, &cfg).is_none());
    // after a rotation at block 11 the predicate reappears
    assert!(s.availability_timeout_predicate(11, &cfg).is_some());
    assert!(s.availability_timeout_predicate(15, &cfg).is_some());
    assert!(s.availability_timeout_predicate(16, &cfg).is_none());
}

#[test]
fn group_validators_returns_group_members() {
    let cfg = config();
    let s = start_session(&vec![1, 2], &vec![], 7, &cfg);
    assert_eq!(s.group_validators(0), Some(vec![0, 1]));
    assert_eq!(s.group_validators(1), Some(vec![2, 3]));
    assert_eq!(s.group_validators(4), Some(vec![6]));
    assert_eq!(s.group_validators(5), None);
}

#[test]
fn core_indra_reports_occupants() {
    let cfg = config();
    let indracores: Vec<IndraId> = vec![8];
    let bases: Vec<IndraId> = vec![9];
    let mut s = start_session(&indracores, &bases, 4, &cfg);
    s.add_indrabase_claim(IndrabaseClaim(9, 3), &cfg, &bases);
    s.schedule(&vec![], 1, &cfg, &indracores);
    s.occupied(&vec![0, 1]);
    assert_eq!(s.core_indra(0, &indracores), Some(8));
    assert_eq!(s.core_indra(1, &indracores), Some(9));
    assert_eq!(s.core_indra(2, &indracores), None);
    assert_eq!(s.core_indra(99, &indracores), None);
}

#[test]
fn required_collator_only_for_indrabases() {
    let cfg = config();
    let indracores: Vec<IndraId> = vec![1];
    let bases: Vec<IndraId> = vec![2];
    let mut s = start_session(&indracores, &bases, 4, &cfg);
    s.add_indrabase_claim(IndrabaseClaim(2, 1234), &cfg, &bases);
    s.schedule(&vec![], 1, &cfg, &indracores);
    assert_eq!(s.scheduled.len(), 2);
    assert_eq!(s.scheduled[0].required_collator(), None);
    assert_eq!(s.scheduled[1].required_collator(), Some(1234));
}

#[test]
fn group_rotation_info_reports_session() {
    let cfg = config();
    let s = start_session(&vec![1], &vec![], 4, &cfg);
    let info = s.group_rotation_info(7, &cfg);
    assert_eq!(info.session_start_block, 1);
    assert_eq!(info.now, 7);
    assert_eq!(info.group_rotation_frequency, 10);
}

#[test]
fn clear_drops_exhausted_claim_and_frees_its_workload() {
    // with a retry limit of 1, a claim that is scheduled but never backed is
    // re-enqueued twice with growing retries and dropped for good on the
    // third cycle; its id then leaves the claim index, so the workload may
    // claim again.
    let mut cfg = config();
    cfg.indrabase_retries = 1;
    let indracores: Vec<IndraId> = vec![];
    let bases: Vec<IndraId> = vec![5];
    let mut s = start_session(&indracores, &bases, 3, &cfg);

    s.add_indrabase_claim(IndrabaseClaim(5, 9), &cfg, &bases);
    s.schedule(&vec![], 1, &cfg, &indracores);
    assert_eq!(s.scheduled.len(), 1);

    // first cycle: retries become 1, still within the limit
    s.clear(&cfg, &bases);
    s.schedule(&vec![], 2, &cfg, &indracores);
    assert_eq!(s.scheduled.len(), 1);
    assert_eq!(s.indrabase_claim_index, vec![5]);

    // second cycle: retries would become 2 > 1, dropped and deindexed
    s.clear(&cfg, &bases);
    assert!(s.indrabase_queue.queue.is_empty());
    assert!(s.indrabase_claim_index.is_empty());
    s.schedule(&vec![], 3, &cfg, &indracores);
    assert!(s.scheduled.is_empty());

    // the workload is free to claim again
    s.add_indrabase_claim(IndrabaseClaim(5, 10), &cfg, &bases);
    assert_eq!(s.indrabase_queue.queue.len(), 1);
    assert_eq!(s.indrabase_claim_index, vec![5]);
}

#[test]
fn clear_drops_deregistered_claim_and_frees_its_workload() {
    let cfg = config();
    let indracores: Vec<IndraId> = vec![];
    let bases: Vec<IndraId> = vec![4];
    let mut s = start_session(&indracores, &bases, 3, &cfg);

    s.add_indrabase_claim(IndrabaseClaim(4, 2), &cfg, &bases);
    s.schedule(&vec![], 1, &cfg, &indracores);
    assert_eq!(s.scheduled.len(), 1);

    // the workload is deregistered before its claim is backed
    let no_bases: Vec<IndraId> = vec![];
    s.clear(&cfg, &no_bases);
    assert!(s.indrabase_queue.queue.is_empty());
    assert!(s.indrabase_claim_index.is_empty());
}

#[test]
fn timed_out_claim_without_cores_is_fully_dropped() {
    // an indrabase occupant timing out while no indrabase cores are
    // configured has nowhere to go: the claim and its index record both go.
    let mut cfg = config();
    cfg.indrabase_cores = 0;
    let mut s = Scheduler::new();
    s.availability_cores = vec![Some(indra_scheduler::types::CoreOccupied::Indrabase(
        IndrabaseEntry { claim: IndrabaseClaim(6, 1), retries: 0 },
    ))];
    s.indrabase_claim_index = vec![6];

    s.free_cores(&vec![(0, FreedReason::TimedOut)], &cfg);
    assert!(s.availability_cores[0].is_none());
    assert!(s.indrabase_queue.queue.is_empty());
    assert!(s.indrabase_claim_index.is_empty());
}
