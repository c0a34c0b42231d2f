//! Plain data types shared by the scheduler's components.

use vstd::prelude::*;

verus! {

/// Unique identifier of a workload (an indracore or an indrabase).
pub type IndraId = u32;

/// Position of a validator in the session's active-validator list.
pub type ValidatorIndex = u32;

/// Index of an availability core. Cores are numbered contiguously from zero;
/// cores below the number of live indracores are permanently bound to them,
/// the remainder are indrabase multiplexers.
pub type CoreIndex = u32;

/// Index of a validator group. There is one group per core.
pub type GroupIndex = u32;

/// Identity of a collator, reduced to a plain number; the scheduler only
/// stores and compares collator identities, it never interprets them.
pub type CollatorId = u64;

/// Relay-chain block number.
pub type BlockNumber = u32;

/// A request to schedule an indrabase workload, submitted by a collator.
#[derive(Clone, Copy, PartialEq, Eq, Structural, Debug)]
pub struct IndrabaseClaim(pub IndraId, pub CollatorId);

/// An indrabase claim together with its retry counter.
#[derive(Clone, Copy, PartialEq, Eq, Structural, Debug)]
pub struct IndrabaseEntry {
    /// The claim itself.
    pub claim: IndrabaseClaim,
    /// How many times the claim has been taken off a core by `clear`.
    pub retries: u32,
}

/// A queued indrabase entry, pre-assigned to a core offset among the
/// indrabase-multiplexer cores.
#[derive(Clone, Copy, PartialEq, Eq, Structural, Debug)]
pub struct QueuedIndrabase {
    /// The queued entry.
    pub claim: IndrabaseEntry,
    /// Offset into the indrabase-multiplexer core range (not an absolute
    /// core index).
    pub core_offset: u32,
}

/// The occupant of an availability core.
#[derive(Clone, Copy, PartialEq, Eq, Structural, Debug)]
pub enum CoreOccupied {
    /// Occupied by the indracore permanently bound to the core.
    Indracore,
    /// Occupied by a pending indrabase claim.
    Indrabase(IndrabaseEntry),
}

/// Reasons a core might be freed.
#[derive(Clone, Copy, PartialEq, Eq, Structural, Debug)]
pub enum FreedReason {
    /// The core's work concluded and the block assigned to it is available.
    Concluded,
    /// The core's work timed out.
    TimedOut,
}

/// The assignment type.
#[derive(Clone, Copy, PartialEq, Eq, Structural, Debug)]
pub enum AssignmentKind {
    /// An indracore.
    Indracore,
    /// An indrabase claim, with the collator's identity and the retry count.
    Indrabase(CollatorId, u32),
}

/// How a free core is scheduled to be assigned.
#[derive(Clone, Copy, PartialEq, Eq, Structural, Debug)]
pub struct CoreAssignment {
    /// The core that is assigned.
    pub core: CoreIndex,
    /// The unique ID of the workload that is assigned to the core.
    pub indra_id: IndraId,
    /// The kind of the assignment.
    pub kind: AssignmentKind,
    /// The index of the validator group assigned to the core.
    pub group_idx: GroupIndex,
}

impl CoreAssignment {
    /// The collator required to collate this block, if the assignment names one.
    pub open spec fn spec_required_collator(self) -> Option<CollatorId> {
        match self.kind {
            AssignmentKind::Indracore => None,
            AssignmentKind::Indrabase(id, _) => Some(id),
        }
    }

    /// Get the ID of a collator who is required to collate this block.
    pub fn required_collator(&self) -> (r: Option<CollatorId>)
        ensures
            r == self.spec_required_collator(),
    {
        match self.kind {
            AssignmentKind::Indracore => None,
            AssignmentKind::Indrabase(id, _) => Some(id),
        }
    }

    /// The occupant that this assignment installs when its core is occupied.
    pub open spec fn spec_to_core_occupied(self) -> CoreOccupied {
        match self.kind {
            AssignmentKind::Indracore => CoreOccupied::Indracore,
            AssignmentKind::Indrabase(collator, retries) => CoreOccupied::Indrabase(
                IndrabaseEntry { claim: IndrabaseClaim(self.indra_id, collator), retries },
            ),
        }
    }

    /// Get the `CoreOccupied` from this.
    pub fn to_core_occupied(&self) -> (r: CoreOccupied)
        ensures
            r == self.spec_to_core_occupied(),
    {
        match self.kind {
            AssignmentKind::Indracore => CoreOccupied::Indracore,
            AssignmentKind::Indrabase(collator, retries) => CoreOccupied::Indrabase(
                IndrabaseEntry { claim: IndrabaseClaim(self.indra_id, collator), retries },
            ),
        }
    }
}

/// A workload that is expected on a core next, exposed to collation logic.
#[derive(Clone, Copy, PartialEq, Eq, Structural, Debug)]
pub struct ScheduledCore {
    /// The ID of the workload.
    pub indra_id: IndraId,
    /// The collator required to author the block, if any.
    pub collator: Option<CollatorId>,
}

/// A helper for determining group rotation.
#[derive(Clone, Copy, PartialEq, Eq, Structural, Debug)]
pub struct GroupRotationInfo {
    /// The block number where the session started.
    pub session_start_block: BlockNumber,
    /// The current block number.
    pub now: BlockNumber,
    /// How often groups rotate. 0 means never.
    pub group_rotation_frequency: BlockNumber,
}

/// The configuration snapshot the scheduler consumes. Loading and validating
/// the configuration is the host's concern; the scheduler reads it as given.
#[derive(Clone, Copy, PartialEq, Eq, Structural, Debug)]
pub struct HostConfiguration {
    /// The number of indrabase-multiplexer cores.
    pub indrabase_cores: u32,
    /// How often validator groups rotate across cores, in blocks.
    pub group_rotation_frequency: BlockNumber,
    /// How long an indracore occupant may be pending availability, in blocks.
    pub chain_availability_period: BlockNumber,
    /// How long an indrabase occupant may be pending availability, in blocks.
    pub thread_availability_period: BlockNumber,
    /// The queue holds at most `indrabase_cores * scheduling_lookahead` claims.
    pub scheduling_lookahead: u32,
    /// How many times an indrabase claim is retried before it is dropped.
    pub indrabase_retries: u32,
    /// If set and nonzero, the validator count divided by this bounds the
    /// number of cores from below.
    pub max_validators_per_core: Option<u32>,
}

/// What the scheduler is told when a new session starts: the finalized
/// active-validator list (already shuffled upstream) and the configuration
/// for the new session.
#[derive(Clone, PartialEq, Eq, Debug)]
pub struct SessionChangeNotification {
    /// The validators of the new session.
    pub validators: Vec<ValidatorIndex>,
    /// The configuration of the new session.
    pub new_config: HostConfiguration,
}

} // verus!
