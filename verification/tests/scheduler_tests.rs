//! Scheduler behavior over simulated block execution.

use indra_scheduler::queue::IndrabaseClaimQueue;
use indra_scheduler::scheduler::Scheduler;
use indra_scheduler::types::{
    AssignmentKind, BlockNumber, CollatorId, CoreAssignment, CoreOccupied, FreedReason,
    HostConfiguration, IndraId, IndrabaseClaim, IndrabaseEntry, QueuedIndrabase, ScheduledCore,
    SessionChangeNotification,
};

/// The active configuration used by most tests.
fn default_config() -> HostConfiguration {
    HostConfiguration {
        indrabase_cores: 3,
        group_rotation_frequency: 10,
        chain_availability_period: 3,
        thread_availability_period: 5,
        scheduling_lookahead: 2,
        indrabase_retries: 1,
        max_validators_per_core: None,
    }
}

/// A configuration with everything at its zero value, as an unconfigured
/// session would deliver.
fn blank_config() -> HostConfiguration {
    HostConfiguration {
        indrabase_cores: 0,
        group_rotation_frequency: 1,
        chain_availability_period: 1,
        thread_availability_period: 1,
        scheduling_lookahead: 0,
        indrabase_retries: 0,
        max_validators_per_core: None,
    }
}

fn blank_notification() -> SessionChangeNotification {
    SessionChangeNotification { validators: Vec::new(), new_config: blank_config() }
}

fn validators(n: u32) -> Vec<u32> {
    (0..n).collect()
}

/// A minimal host around the scheduler: the block counter, the active
/// configuration, and the workload registry with its session-delayed
/// registration and cleanup.
struct TestChain {
    scheduler: Scheduler,
    block_number: BlockNumber,
    config: HostConfiguration,
    live_indracores: Vec<IndraId>,
    live_indrabases: Vec<IndraId>,
    pending_registration: Vec<(IndraId, bool)>,
    pending_cleanup: Vec<IndraId>,
}

impl TestChain {
    fn new(config: HostConfiguration) -> TestChain {
        TestChain {
            scheduler: Scheduler::new(),
            block_number: 0,
            config,
            live_indracores: Vec::new(),
            live_indrabases: Vec::new(),
            pending_registration: Vec::new(),
            pending_cleanup: Vec::new(),
        }
    }

    /// Register a workload; it becomes live at the next session change.
    fn schedule_blank_indra(&mut self, id: IndraId, is_chain: bool) {
        self.pending_registration.push((id, is_chain));
    }

    /// Deregister a workload at the next session change.
    fn schedule_indra_cleanup(&mut self, id: IndraId) {
        self.pending_cleanup.push(id);
    }

    fn is_indrabase(&self, id: IndraId) -> bool {
        self.live_indrabases.contains(&id)
    }

    fn apply_pending(&mut self) {
        let registrations = std::mem::take(&mut self.pending_registration);
        for (id, is_chain) in registrations {
            let list =
                if is_chain { &mut self.live_indracores } else { &mut self.live_indrabases };
            if !list.contains(&id) {
                list.push(id);
                list.sort();
            }
        }
        let cleanups = std::mem::take(&mut self.pending_cleanup);
        for id in cleanups {
            self.live_indracores.retain(|x| *x != id);
            self.live_indrabases.retain(|x| *x != id);
        }
    }

    fn add_indrabase_claim(&mut self, claim: IndrabaseClaim) {
        let config = self.config;
        let live = self.live_indrabases.clone();
        self.scheduler.add_indrabase_claim(claim, &config, &live);
    }

    fn clear_and_schedule(&mut self, freed: Vec<(u32, FreedReason)>, now: BlockNumber) {
        let config = self.config;
        let live_bases = self.live_indrabases.clone();
        let live_cores = self.live_indracores.clone();
        self.scheduler.clear(&config, &live_bases);
        self.scheduler.schedule(&freed, now, &config, &live_cores);
    }
}

/// Drive block execution to the given height; `new_session` is asked before
/// each block whether a session change is signaled for it.
fn run_to_block(
    chain: &mut TestChain,
    to: BlockNumber,
    new_session: &dyn Fn(BlockNumber) -> Option<SessionChangeNotification>,
) {
    while chain.block_number < to {
        let b = chain.block_number;
        if let Some(notification) = new_session(b + 1) {
            chain.apply_pending();
            chain.scheduler.initializer_on_new_session(
                &notification,
                &chain.live_indracores.clone(),
                &chain.live_indrabases.clone(),
                b,
            );
        }
        chain.block_number = b + 1;
        chain.clear_and_schedule(Vec::new(), b + 1);
    }
}

fn run_to_end_of_block(
    chain: &mut TestChain,
    to: BlockNumber,
    new_session: &dyn Fn(BlockNumber) -> Option<SessionChangeNotification>,
) {
    run_to_block(chain, to, new_session);
    if let Some(notification) = new_session(to + 1) {
        chain.apply_pending();
        chain.scheduler.initializer_on_new_session(
            &notification,
            &chain.live_indracores.clone(),
            &chain.live_indrabases.clone(),
            to,
        );
    }
}

const ALICE: CollatorId = 1;
const BOB: CollatorId = 2;

#[test]
fn add_indrabase_claim_works() {
    let mut chain = TestChain::new(default_config());
    let thread_id: IndraId = 10;
    let collator: CollatorId = ALICE;

    chain.schedule_blank_indra(thread_id, false);
    assert!(!chain.is_indrabase(thread_id));

    run_to_block(&mut chain, 10, &|n| if n == 10 { Some(blank_notification()) } else { None });

    assert!(chain.is_indrabase(thread_id));

    {
        chain.add_indrabase_claim(IndrabaseClaim(thread_id, collator));
        let queue = &chain.scheduler.indrabase_queue;
        assert_eq!(queue.next_core_offset, 1);
        assert_eq!(queue.queue.len(), 1);
        assert_eq!(
            queue.queue[0],
            QueuedIndrabase {
                claim: IndrabaseEntry { claim: IndrabaseClaim(thread_id, collator), retries: 0 },
                core_offset: 0,
            }
        );
    }

    // due to the index, competing claims are not allowed.
    {
        let collator2: CollatorId = BOB;
        chain.add_indrabase_claim(IndrabaseClaim(thread_id, collator2));
        let queue = &chain.scheduler.indrabase_queue;
        assert_eq!(queue.next_core_offset, 1);
        assert_eq!(queue.queue.len(), 1);
        assert_eq!(
            queue.queue[0],
            QueuedIndrabase {
                claim: IndrabaseEntry { claim: IndrabaseClaim(thread_id, collator), retries: 0 },
                core_offset: 0,
            }
        );
    }

    // claims on non-live indrabases have no effect.
    {
        let thread_id2: IndraId = 11;
        chain.add_indrabase_claim(IndrabaseClaim(thread_id2, collator));
        let queue = &chain.scheduler.indrabase_queue;
        assert_eq!(queue.next_core_offset, 1);
        assert_eq!(queue.queue.len(), 1);
        assert_eq!(
            queue.queue[0],
            QueuedIndrabase {
                claim: IndrabaseEntry { claim: IndrabaseClaim(thread_id, collator), retries: 0 },
                core_offset: 0,
            }
        );
    }
}

#[test]
fn cannot_add_claim_when_no_indrabase_cores() {
    let config = {
        let mut config = default_config();
        config.indrabase_cores = 0;
        config
    };

    let thread_id: IndraId = 10;
    let collator: CollatorId = ALICE;

    let mut chain = TestChain::new(config);
    chain.schedule_blank_indra(thread_id, false);
    assert!(!chain.is_indrabase(thread_id));

    run_to_block(&mut chain, 10, &|n| if n == 10 { Some(blank_notification()) } else { None });

    assert!(chain.is_indrabase(thread_id));

    chain.add_indrabase_claim(IndrabaseClaim(thread_id, collator));
    assert_eq!(chain.scheduler.indrabase_queue, IndrabaseClaimQueue::default());
}

#[test]
fn session_change_prunes_cores_beyond_retries_and_those_from_non_live_indrabases() {
    let mut chain = TestChain::new(default_config());
    let max_indrabase_retries = default_config().indrabase_retries;

    let thread_a: IndraId = 1;
    let thread_b: IndraId = 2;
    let thread_c: IndraId = 3;
    let thread_d: IndraId = 4;

    let collator: CollatorId = ALICE;

    assert_eq!(chain.config, default_config());

    // threads a, b, and c will be live in the next session, but not d.
    chain.schedule_blank_indra(thread_a, false);
    chain.schedule_blank_indra(thread_b, false);
    chain.schedule_blank_indra(thread_c, false);

    // set up a queue as if `n_cores` was 4 and with some entries with many
    // retries.
    chain.scheduler.indrabase_queue = {
        let mut queue = IndrabaseClaimQueue::default();

        // Will be pruned: too many retries.
        queue.enqueue_entry(
            IndrabaseEntry {
                claim: IndrabaseClaim(thread_a, collator),
                retries: max_indrabase_retries + 1,
            },
            4,
        );

        // Will not be pruned.
        queue.enqueue_entry(
            IndrabaseEntry {
                claim: IndrabaseClaim(thread_b, collator),
                retries: max_indrabase_retries,
            },
            4,
        );

        // Will not be pruned.
        queue.enqueue_entry(
            IndrabaseEntry { claim: IndrabaseClaim(thread_c, collator), retries: 0 },
            4,
        );

        // Will be pruned: not a live indrabase.
        queue.enqueue_entry(
            IndrabaseEntry { claim: IndrabaseClaim(thread_d, collator), retries: 0 },
            4,
        );

        queue
    };

    chain.scheduler.indrabase_claim_index = vec![thread_a, thread_b, thread_c, thread_d];

    let config = chain.config;
    run_to_block(&mut chain, 10, &move |b| match b {
        10 => Some(SessionChangeNotification { validators: Vec::new(), new_config: config }),
        _ => None,
    });
    assert_eq!(chain.config, default_config());

    let queue = &chain.scheduler.indrabase_queue;
    assert_eq!(
        queue.queue,
        vec![
            QueuedIndrabase {
                claim: IndrabaseEntry {
                    claim: IndrabaseClaim(thread_b, collator),
                    retries: max_indrabase_retries,
                },
                core_offset: 0,
            },
            QueuedIndrabase {
                claim: IndrabaseEntry { claim: IndrabaseClaim(thread_c, collator), retries: 0 },
                core_offset: 1,
            },
        ]
    );
    assert_eq!(queue.next_core_offset, 2);

    assert_eq!(chain.scheduler.indrabase_claim_index, vec![thread_b, thread_c]);
}

#[test]
fn session_change_shuffles_validators() {
    assert_eq!(default_config().indrabase_cores, 3);
    let mut chain = TestChain::new(default_config());

    let chain_a: IndraId = 1;
    let chain_b: IndraId = 2;

    // ensure that we have 5 groups by registering 2 indracores.
    chain.schedule_blank_indra(chain_a, true);
    chain.schedule_blank_indra(chain_b, true);

    run_to_block(&mut chain, 1, &|number| match number {
        1 => Some(SessionChangeNotification {
            validators: validators(7),
            new_config: default_config(),
        }),
        _ => None,
    });

    let groups = &chain.scheduler.validator_groups;
    assert_eq!(groups.len(), 5);

    // first two groups have the overflow.
    for i in 0..2 {
        assert_eq!(groups[i].len(), 2);
    }

    for i in 2..5 {
        assert_eq!(groups[i].len(), 1);
    }
}

#[test]
fn session_change_takes_only_max_per_core() {
    let config = {
        let mut config = default_config();
        config.indrabase_cores = 0;
        config.max_validators_per_core = Some(1);
        config
    };

    let mut chain = TestChain::new(config);

    let chain_a: IndraId = 1;
    let chain_b: IndraId = 2;
    let chain_c: IndraId = 3;

    chain.schedule_blank_indra(chain_a, true);
    chain.schedule_blank_indra(chain_b, true);
    chain.schedule_blank_indra(chain_c, false);

    run_to_block(&mut chain, 1, &move |number| match number {
        1 => Some(SessionChangeNotification { validators: validators(7), new_config: config }),
        _ => None,
    });

    let groups = &chain.scheduler.validator_groups;
    assert_eq!(groups.len(), 7);

    // Every validator gets its own group, even though there are 2 indracores.
    for i in 0..7 {
        assert_eq!(groups[i].len(), 1);
    }
}

#[test]
fn schedule_schedules() {
    let mut chain = TestChain::new(default_config());

    let chain_a: IndraId = 1;
    let chain_b: IndraId = 2;

    let thread_a: IndraId = 3;
    let thread_c: IndraId = 5;

    let collator: CollatorId = ALICE;

    assert_eq!(default_config().indrabase_cores, 3);

    // register 2 indracores
    chain.schedule_blank_indra(chain_a, true);
    chain.schedule_blank_indra(chain_b, true);

    // and 3 indrabases
    chain.schedule_blank_indra(thread_a, false);
    chain.schedule_blank_indra(4, false);
    chain.schedule_blank_indra(thread_c, false);

    // start a new session to activate, 5 validators for 5 cores.
    run_to_block(&mut chain, 1, &|number| match number {
        1 => Some(SessionChangeNotification {
            validators: validators(5),
            new_config: default_config(),
        }),
        _ => None,
    });

    {
        let scheduled = &chain.scheduler.scheduled;
        assert_eq!(scheduled.len(), 2);

        assert_eq!(
            scheduled[0],
            CoreAssignment {
                core: 0,
                indra_id: chain_a,
                kind: AssignmentKind::Indracore,
                group_idx: 0,
            }
        );

        assert_eq!(
            scheduled[1],
            CoreAssignment {
                core: 1,
                indra_id: chain_b,
                kind: AssignmentKind::Indracore,
                group_idx: 1,
            }
        );
    }

    // add a couple of indrabase claims.
    chain.add_indrabase_claim(IndrabaseClaim(thread_a, collator));
    chain.add_indrabase_claim(IndrabaseClaim(thread_c, collator));

    run_to_block(&mut chain, 2, &|_| None);

    {
        let scheduled = &chain.scheduler.scheduled;
        assert_eq!(scheduled.len(), 4);

        assert_eq!(
            scheduled[0],
            CoreAssignment {
                core: 0,
                indra_id: chain_a,
                kind: AssignmentKind::Indracore,
                group_idx: 0,
            }
        );

        assert_eq!(
            scheduled[1],
            CoreAssignment {
                core: 1,
                indra_id: chain_b,
                kind: AssignmentKind::Indracore,
                group_idx: 1,
            }
        );

        assert_eq!(
            scheduled[2],
            CoreAssignment {
                core: 2,
                indra_id: thread_a,
                kind: AssignmentKind::Indrabase(collator, 0),
                group_idx: 2,
            }
        );

        assert_eq!(
            scheduled[3],
            CoreAssignment {
                core: 3,
                indra_id: thread_c,
                kind: AssignmentKind::Indrabase(collator, 0),
                group_idx: 3,
            }
        );
    }
}

#[test]
fn schedule_schedules_including_just_freed() {
    let mut chain = TestChain::new(default_config());

    let chain_a: IndraId = 1;
    let chain_b: IndraId = 2;

    let thread_a: IndraId = 3;
    let thread_b: IndraId = 4;
    let thread_c: IndraId = 5;
    let thread_d: IndraId = 6;
    let thread_e: IndraId = 7;

    let collator: CollatorId = ALICE;

    assert_eq!(default_config().indrabase_cores, 3);

    // register 2 indracores
    chain.schedule_blank_indra(chain_a, true);
    chain.schedule_blank_indra(chain_b, true);

    // and 5 indrabases
    chain.schedule_blank_indra(thread_a, false);
    chain.schedule_blank_indra(thread_b, false);
    chain.schedule_blank_indra(thread_c, false);
    chain.schedule_blank_indra(thread_d, false);
    chain.schedule_blank_indra(thread_e, false);

    // start a new session to activate, 5 validators for 5 cores.
    run_to_block(&mut chain, 1, &|number| match number {
        1 => Some(SessionChangeNotification {
            validators: validators(5),
            new_config: default_config(),
        }),
        _ => None,
    });

    // add a couple of indrabase claims now that the indrabases are live.
    chain.add_indrabase_claim(IndrabaseClaim(thread_a, collator));
    chain.add_indrabase_claim(IndrabaseClaim(thread_c, collator));

    run_to_block(&mut chain, 2, &|_| None);

    assert_eq!(chain.scheduler.scheduled.len(), 4);

    // cores 0, 1, 2, and 3 should be occupied. mark them as such.
    chain.scheduler.occupied(&vec![0, 1, 2, 3]);

    {
        let cores = &chain.scheduler.availability_cores;

        assert!(cores[0].is_some());
        assert!(cores[1].is_some());
        assert!(cores[2].is_some());
        assert!(cores[3].is_some());
        assert!(cores[4].is_none());

        assert!(chain.scheduler.scheduled.is_empty());
    }

    // add a couple more indrabase claims - the claim on `b` will go to the
    // 3rd indrabase core (4) and the claim on `d` will go back to the 1st
    // indrabase core (2). The claim on `e` then will go for core `3`.
    chain.add_indrabase_claim(IndrabaseClaim(thread_b, collator));
    chain.add_indrabase_claim(IndrabaseClaim(thread_d, collator));
    chain.add_indrabase_claim(IndrabaseClaim(thread_e, collator));

    run_to_block(&mut chain, 3, &|_| None);

    {
        let scheduled = &chain.scheduler.scheduled;

        // cores 0 and 1 are occupied by indracores. cores 2 and 3 are
        // occupied by indrabase claims. core 4 was free.
        assert_eq!(scheduled.len(), 1);
        assert_eq!(
            scheduled[0],
            CoreAssignment {
                core: 4,
                indra_id: thread_b,
                kind: AssignmentKind::Indrabase(collator, 0),
                group_idx: 4,
            }
        );
    }

    // now note that cores 0, 2, and 3 were freed.
    let config = chain.config;
    let live_cores = chain.live_indracores.clone();
    chain.scheduler.schedule(
        &vec![
            (0, FreedReason::Concluded),
            (2, FreedReason::Concluded),
            (3, FreedReason::TimedOut), // should go back on queue.
        ],
        3,
        &config,
        &live_cores,
    );

    {
        let scheduled = &chain.scheduler.scheduled;

        // 1 thing scheduled before, + 3 cores freed.
        assert_eq!(scheduled.len(), 4);
        assert_eq!(
            scheduled[0],
            CoreAssignment {
                core: 0,
                indra_id: chain_a,
                kind: AssignmentKind::Indracore,
                group_idx: 0,
            }
        );
        assert_eq!(
            scheduled[1],
            CoreAssignment {
                core: 2,
                indra_id: thread_d,
                kind: AssignmentKind::Indrabase(collator, 0),
                group_idx: 2,
            }
        );
        assert_eq!(
            scheduled[2],
            CoreAssignment {
                core: 3,
                indra_id: thread_e,
                kind: AssignmentKind::Indrabase(collator, 0),
                group_idx: 3,
            }
        );
        assert_eq!(
            scheduled[3],
            CoreAssignment {
                core: 4,
                indra_id: thread_b,
                kind: AssignmentKind::Indrabase(collator, 0),
                group_idx: 4,
            }
        );

        // the prior claim on thread A concluded, but the claim on thread C
        // was marked as timed out.
        let index = &chain.scheduler.indrabase_claim_index;
        let indrabase_queue = &chain.scheduler.indrabase_queue;

        // thread A claim should have been wiped, but thread C claim should
        // remain.
        assert_eq!(*index, vec![thread_b, thread_c, thread_d, thread_e]);

        // Although C was descheduled, the core `4` was occupied so C goes
        // back on the queue.
        assert_eq!(indrabase_queue.queue.len(), 1);
        assert_eq!(
            indrabase_queue.queue[0],
            QueuedIndrabase {
                claim: IndrabaseEntry {
                    claim: IndrabaseClaim(thread_c, collator),
                    retries: 0, // retries not incremented by timeout - validators' fault.
                },
                core_offset: 2, // reassigned to next core. thread_e claim was on offset 1.
            }
        );
    }
}

#[test]
fn schedule_clears_availability_cores() {
    let mut chain = TestChain::new(default_config());

    let chain_a: IndraId = 1;
    let chain_b: IndraId = 2;
    let chain_c: IndraId = 3;

    assert_eq!(default_config().indrabase_cores, 3);

    // register 3 indracores
    chain.schedule_blank_indra(chain_a, true);
    chain.schedule_blank_indra(chain_b, true);
    chain.schedule_blank_indra(chain_c, true);

    // start a new session to activate, 5 validators for 5 cores.
    run_to_block(&mut chain, 1, &|number| match number {
        1 => Some(SessionChangeNotification {
            validators: validators(5),
            new_config: default_config(),
        }),
        _ => None,
    });

    run_to_block(&mut chain, 2, &|_| None);

    assert_eq!(chain.scheduler.scheduled.len(), 3);

    // cores 0, 1, and 2 should be occupied. mark them as such.
    chain.scheduler.occupied(&vec![0, 1, 2]);

    {
        let cores = &chain.scheduler.availability_cores;

        assert!(cores[0].is_some());
        assert!(cores[1].is_some());
        assert!(cores[2].is_some());

        assert!(chain.scheduler.scheduled.is_empty());
    }

    run_to_block(&mut chain, 3, &|_| None);

    // now note that cores 0 and 2 were freed.
    let config = chain.config;
    let live_cores = chain.live_indracores.clone();
    chain.scheduler.schedule(
        &vec![(0, FreedReason::Concluded), (2, FreedReason::Concluded)],
        3,
        &config,
        &live_cores,
    );

    {
        let scheduled = &chain.scheduler.scheduled;

        assert_eq!(scheduled.len(), 2);
        assert_eq!(
            scheduled[0],
            CoreAssignment {
                core: 0,
                indra_id: chain_a,
                kind: AssignmentKind::Indracore,
                group_idx: 0,
            }
        );
        assert_eq!(
            scheduled[1],
            CoreAssignment {
                core: 2,
                indra_id: chain_c,
                kind: AssignmentKind::Indracore,
                group_idx: 2,
            }
        );

        // The freed cores should be `None` in `availability_cores`.
        let cores = &chain.scheduler.availability_cores;
        assert!(cores[0].is_none());
        assert!(cores[2].is_none());
    }
}

#[test]
fn schedule_rotates_groups() {
    let config = {
        let mut config = default_config();

        // make sure indrabase requests don't retry-out
        config.indrabase_retries = config.group_rotation_frequency * 3;
        config.indrabase_cores = 2;
        config
    };

    let rotation_frequency = config.group_rotation_frequency;
    let indrabase_cores = config.indrabase_cores;

    let thread_a: IndraId = 1;
    let thread_b: IndraId = 2;

    let collator: CollatorId = ALICE;

    let mut chain = TestChain::new(config);
    assert_eq!(default_config().indrabase_cores, 3);

    chain.schedule_blank_indra(thread_a, false);
    chain.schedule_blank_indra(thread_b, false);

    run_to_block(&mut chain, 1, &move |number| match number {
        1 => Some(SessionChangeNotification { validators: validators(2), new_config: config }),
        _ => None,
    });

    let session_start_block = chain.scheduler.session_start_block;
    assert_eq!(session_start_block, 1);

    chain.add_indrabase_claim(IndrabaseClaim(thread_a, collator));
    chain.add_indrabase_claim(IndrabaseClaim(thread_b, collator));

    run_to_block(&mut chain, 2, &|_| None);

    let assert_groups_rotated = |chain: &TestChain, rotations: u32| {
        let scheduled = &chain.scheduler.scheduled;
        assert_eq!(scheduled.len(), 2);
        assert_eq!(scheduled[0].group_idx, (0u32 + rotations) % indrabase_cores);
        assert_eq!(scheduled[1].group_idx, (1u32 + rotations) % indrabase_cores);
    };

    assert_groups_rotated(&chain, 0);

    // one block before first rotation.
    run_to_block(&mut chain, rotation_frequency, &|_| None);

    assert_groups_rotated(&chain, 0);

    // first rotation.
    run_to_block(&mut chain, rotation_frequency + 1, &|_| None);
    assert_groups_rotated(&chain, 1);

    // one block before second rotation.
    run_to_block(&mut chain, rotation_frequency * 2, &|_| None);
    assert_groups_rotated(&chain, 1);

    // second rotation.
    run_to_block(&mut chain, rotation_frequency * 2 + 1, &|_| None);
    assert_groups_rotated(&chain, 2);
}

#[test]
fn indrabase_claims_are_pruned_after_retries() {
    let max_retries = default_config().indrabase_retries;

    let thread_a: IndraId = 1;
    let thread_b: IndraId = 2;

    let collator: CollatorId = ALICE;

    let mut chain = TestChain::new(default_config());
    assert_eq!(default_config().indrabase_cores, 3);

    chain.schedule_blank_indra(thread_a, false);
    chain.schedule_blank_indra(thread_b, false);

    run_to_block(&mut chain, 1, &|number| match number {
        1 => Some(SessionChangeNotification {
            validators: validators(2),
            new_config: default_config(),
        }),
        _ => None,
    });

    chain.add_indrabase_claim(IndrabaseClaim(thread_a, collator));
    chain.add_indrabase_claim(IndrabaseClaim(thread_b, collator));

    run_to_block(&mut chain, 2, &|_| None);
    assert_eq!(chain.scheduler.scheduled.len(), 2);

    run_to_block(&mut chain, 2 + max_retries, &|_| None);
    assert_eq!(chain.scheduler.scheduled.len(), 2);

    run_to_block(&mut chain, 2 + max_retries + 1, &|_| None);
    assert_eq!(chain.scheduler.scheduled.len(), 0);
}

#[test]
fn availability_predicate_works() {
    let HostConfiguration {
        group_rotation_frequency,
        chain_availability_period,
        thread_availability_period,
        ..
    } = default_config();
    let collator: CollatorId = ALICE;

    assert!(
        chain_availability_period < thread_availability_period
            && thread_availability_period < group_rotation_frequency
    );

    let chain_a: IndraId = 1;
    let thread_a: IndraId = 2;

    let mut chain = TestChain::new(default_config());
    chain.schedule_blank_indra(chain_a, true);
    chain.schedule_blank_indra(thread_a, false);

    // start a new session with our chain & thread registered.
    run_to_block(&mut chain, 1, &|number| match number {
        1 => Some(SessionChangeNotification {
            validators: validators(5),
            new_config: default_config(),
        }),
        _ => None,
    });

    // assign some availability cores.
    {
        chain.scheduler.availability_cores[0] = Some(CoreOccupied::Indracore);
        chain.scheduler.availability_cores[1] = Some(CoreOccupied::Indrabase(IndrabaseEntry {
            claim: IndrabaseClaim(thread_a, collator),
            retries: 0,
        }));
    }

    run_to_block(&mut chain, 1 + thread_availability_period, &|_| None);
    assert!(chain
        .scheduler
        .availability_timeout_predicate(chain.block_number, &chain.config)
        .is_none());

    run_to_block(&mut chain, 1 + group_rotation_frequency, &|_| None);

    {
        let pred = chain
            .scheduler
            .availability_timeout_predicate(chain.block_number, &chain.config)
            .expect("predicate exists recently after rotation");

        let now = chain.block_number;
        let would_be_timed_out = now - thread_availability_period;
        for i in 0..chain.scheduler.availability_cores.len() {
            // returns true for unoccupied cores.
            // And can time out both threads and chains at this stage.
            assert!(pred.is_timed_out(i as u32, would_be_timed_out));
        }

        assert!(!pred.is_timed_out(0, now)); // assigned: chain
        assert!(!pred.is_timed_out(1, now)); // assigned: thread
        assert!(pred.is_timed_out(2, now));

        // check the tighter bound on chains vs threads.
        assert!(pred.is_timed_out(0, now - chain_availability_period));
        assert!(!pred.is_timed_out(1, now - chain_availability_period));

        // check the threshold is exact.
        assert!(!pred.is_timed_out(0, now - chain_availability_period + 1));
        assert!(!pred.is_timed_out(1, now - thread_availability_period + 1));
    }

    run_to_block(&mut chain, 1 + group_rotation_frequency + chain_availability_period, &|_| None);

    {
        let pred = chain
            .scheduler
            .availability_timeout_predicate(chain.block_number, &chain.config)
            .expect("predicate exists recently after rotation");

        let would_be_timed_out = chain.block_number - thread_availability_period;

        assert!(!pred.is_timed_out(0, would_be_timed_out)); // chains can't be timed out now.
        assert!(pred.is_timed_out(1, would_be_timed_out)); // but threads can.
    }

    run_to_block(&mut chain, 1 + group_rotation_frequency + thread_availability_period, &|_| None);

    assert!(chain
        .scheduler
        .availability_timeout_predicate(chain.block_number, &chain.config)
        .is_none());
}

#[test]
fn next_up_on_available_uses_next_scheduled_or_none_for_thread() {
    let mut config = default_config();
    config.indrabase_cores = 1;

    let thread_a: IndraId = 1;
    let thread_b: IndraId = 2;

    let collator: CollatorId = ALICE;

    let mut chain = TestChain::new(config);
    chain.schedule_blank_indra(thread_a, false);
    chain.schedule_blank_indra(thread_b, false);

    run_to_block(&mut chain, 1, &move |number| match number {
        1 => Some(SessionChangeNotification { validators: validators(2), new_config: config }),
        _ => None,
    });

    let thread_claim_a = IndrabaseClaim(thread_a, collator);
    let thread_claim_b = IndrabaseClaim(thread_b, collator);

    chain.add_indrabase_claim(thread_claim_a);

    run_to_block(&mut chain, 2, &|_| None);

    {
        assert_eq!(chain.scheduler.scheduled.len(), 1);
        assert_eq!(chain.scheduler.availability_cores.len(), 1);

        chain.scheduler.occupied(&vec![0]);

        let cores = &chain.scheduler.availability_cores;
        match cores[0].as_ref().unwrap() {
            CoreOccupied::Indrabase(entry) => assert_eq!(entry.claim, thread_claim_a),
            _ => panic!("with no chains, only core should be a thread core"),
        }

        assert!(chain.scheduler.next_up_on_available(0, &chain.live_indracores).is_none());

        chain.add_indrabase_claim(thread_claim_b);

        let queue = &chain.scheduler.indrabase_queue;
        assert_eq!(queue.get_next_on_core(0).unwrap().claim, IndrabaseClaim(thread_b, collator));

        assert_eq!(
            chain.scheduler.next_up_on_available(0, &chain.live_indracores).unwrap(),
            ScheduledCore { indra_id: thread_b, collator: Some(collator) }
        );
    }
}

#[test]
fn next_up_on_time_out_reuses_claim_if_nothing_queued() {
    let mut config = default_config();
    config.indrabase_cores = 1;

    let thread_a: IndraId = 1;
    let thread_b: IndraId = 2;

    let collator: CollatorId = ALICE;

    let mut chain = TestChain::new(config);
    chain.schedule_blank_indra(thread_a, false);
    chain.schedule_blank_indra(thread_b, false);

    run_to_block(&mut chain, 1, &move |number| match number {
        1 => Some(SessionChangeNotification { validators: validators(2), new_config: config }),
        _ => None,
    });

    let thread_claim_a = IndrabaseClaim(thread_a, collator);
    let thread_claim_b = IndrabaseClaim(thread_b, collator);

    chain.add_indrabase_claim(thread_claim_a);

    run_to_block(&mut chain, 2, &|_| None);

    {
        assert_eq!(chain.scheduler.scheduled.len(), 1);
        assert_eq!(chain.scheduler.availability_cores.len(), 1);

        chain.scheduler.occupied(&vec![0]);

        let cores = &chain.scheduler.availability_cores;
        match cores[0].as_ref().unwrap() {
            CoreOccupied::Indrabase(entry) => assert_eq!(entry.claim, thread_claim_a),
            _ => panic!("with no chains, only core should be a thread core"),
        }

        let queue = &chain.scheduler.indrabase_queue;
        assert!(queue.get_next_on_core(0).is_none());
        assert_eq!(
            chain.scheduler.next_up_on_time_out(0, &chain.live_indracores).unwrap(),
            ScheduledCore { indra_id: thread_a, collator: Some(collator) }
        );

        chain.add_indrabase_claim(thread_claim_b);

        let queue = &chain.scheduler.indrabase_queue;
        assert_eq!(queue.get_next_on_core(0).unwrap().claim, IndrabaseClaim(thread_b, collator));

        // Now that there is an earlier next-up, we use that.
        assert_eq!(
            chain.scheduler.next_up_on_available(0, &chain.live_indracores).unwrap(),
            ScheduledCore { indra_id: thread_b, collator: Some(collator) }
        );
    }
}

#[test]
fn next_up_on_available_is_indracore_always() {
    let mut config = default_config();
    config.indrabase_cores = 0;

    let chain_a: IndraId = 1;

    let mut chain = TestChain::new(config);
    chain.schedule_blank_indra(chain_a, true);

    run_to_block(&mut chain, 1, &move |number| match number {
        1 => Some(SessionChangeNotification { validators: validators(2), new_config: config }),
        _ => None,
    });

    run_to_block(&mut chain, 2, &|_| None);

    {
        assert_eq!(chain.scheduler.scheduled.len(), 1);
        assert_eq!(chain.scheduler.availability_cores.len(), 1);

        chain.scheduler.occupied(&vec![0]);

        let cores = &chain.scheduler.availability_cores;
        match cores[0].as_ref().unwrap() {
            CoreOccupied::Indracore => {},
            _ => panic!("with no threads, only core should be a chain core"),
        }

        assert_eq!(
            chain.scheduler.next_up_on_available(0, &chain.live_indracores).unwrap(),
            ScheduledCore { indra_id: chain_a, collator: None }
        );
    }
}

#[test]
fn next_up_on_time_out_is_indracore_always() {
    let mut config = default_config();
    config.indrabase_cores = 0;

    let chain_a: IndraId = 1;

    let mut chain = TestChain::new(config);
    chain.schedule_blank_indra(chain_a, true);

    run_to_block(&mut chain, 1, &move |number| match number {
        1 => Some(SessionChangeNotification { validators: validators(2), new_config: config }),
        _ => None,
    });

    run_to_block(&mut chain, 2, &|_| None);

    {
        assert_eq!(chain.scheduler.scheduled.len(), 1);
        assert_eq!(chain.scheduler.availability_cores.len(), 1);

        chain.scheduler.occupied(&vec![0]);

        let cores = &chain.scheduler.availability_cores;
        match cores[0].as_ref().unwrap() {
            CoreOccupied::Indracore => {},
            _ => panic!("with no threads, only core should be a chain core"),
        }

        assert_eq!(
            chain.scheduler.next_up_on_available(0, &chain.live_indracores).unwrap(),
            ScheduledCore { indra_id: chain_a, collator: None }
        );
    }
}

#[test]
fn session_change_requires_reschedule_dropping_removed_indras() {
    assert_eq!(default_config().indrabase_cores, 3);
    let mut chain = TestChain::new(default_config());

    let chain_a: IndraId = 1;
    let chain_b: IndraId = 2;

    // ensure that we have 5 groups by registering 2 indracores.
    chain.schedule_blank_indra(chain_a, true);
    chain.schedule_blank_indra(chain_b, true);

    run_to_block(&mut chain, 1, &|number| match number {
        1 => Some(SessionChangeNotification {
            validators: validators(7),
            new_config: default_config(),
        }),
        _ => None,
    });

    assert_eq!(chain.scheduler.scheduled.len(), 2);

    let groups = &chain.scheduler.validator_groups;
    assert_eq!(groups.len(), 5);

    chain.schedule_indra_cleanup(chain_b);

    run_to_end_of_block(&mut chain, 2, &|number| match number {
        2 => Some(SessionChangeNotification {
            validators: validators(7),
            new_config: default_config(),
        }),
        _ => None,
    });

    chain.clear_and_schedule(Vec::new(), 3);

    assert_eq!(
        chain.scheduler.scheduled,
        vec![CoreAssignment {
            core: 0,
            indra_id: chain_a,
            kind: AssignmentKind::Indracore,
            group_idx: 0,
        }],
    );
}

#[test]
fn indrabase_claims_are_pruned_after_deregistration() {
    let thread_a: IndraId = 1;
    let thread_b: IndraId = 2;

    let collator: CollatorId = ALICE;

    let mut chain = TestChain::new(default_config());
    assert_eq!(default_config().indrabase_cores, 3);

    chain.schedule_blank_indra(thread_a, false);
    chain.schedule_blank_indra(thread_b, false);

    run_to_block(&mut chain, 1, &|number| match number {
        1 => Some(SessionChangeNotification {
            validators: validators(2),
            new_config: default_config(),
        }),
        _ => None,
    });

    chain.add_indrabase_claim(IndrabaseClaim(thread_a, collator));
    chain.add_indrabase_claim(IndrabaseClaim(thread_b, collator));

    run_to_block(&mut chain, 2, &|_| None);
    assert_eq!(chain.scheduler.scheduled.len(), 2);

    chain.schedule_indra_cleanup(thread_a);

    run_to_block(&mut chain, 3, &|number| match number {
        3 => Some(SessionChangeNotification {
            validators: validators(2),
            new_config: default_config(),
        }),
        _ => None,
    });

    assert_eq!(chain.scheduler.scheduled.len(), 1);
}
