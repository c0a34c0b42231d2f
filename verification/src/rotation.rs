//! Validator-group rotation and the availability-timeout predicate.
//!
//! Rotation is additive: every `group_rotation_frequency` blocks since the
//! session start, the group serving each core shifts by one, so every group
//! eventually serves every core and no group can select its own assignment.

use vstd::prelude::*;

use crate::types::{BlockNumber, CoreIndex, CoreOccupied};

verus! {

/// `a - b`, saturating at zero.
pub open spec fn spec_saturating_sub(a: int, b: int) -> int {
    if a >= b {
        a - b
    } else {
        0
    }
}

/// The index of the group serving core `core` at block `at`, in a session
/// that started at block `session_start_block` with `n_groups` groups.
pub open spec fn spec_group_for_core(
    core: int,
    at: int,
    session_start_block: int,
    group_rotation_frequency: int,
    n_groups: int,
) -> int
    recommends
        n_groups > 0,
        group_rotation_frequency > 0,
        at >= session_start_block,
{
    (core + (at - session_start_block) / group_rotation_frequency) % n_groups
}

/// Compute the group serving a core: the core index shifted by the number of
/// whole rotation periods since the session start, modulo the group count.
pub fn group_index_at(
    core: CoreIndex,
    at: BlockNumber,
    session_start_block: BlockNumber,
    group_rotation_frequency: BlockNumber,
    n_groups: usize,
) -> (g: u32)
    requires
        n_groups > 0,
        n_groups <= u32::MAX,
        group_rotation_frequency > 0,
        at >= session_start_block,
    ensures
        g == spec_group_for_core(
            core as int,
            at as int,
            session_start_block as int,
            group_rotation_frequency as int,
            n_groups as int,
        ),
{
    let rotations: u32 = (at - session_start_block) / group_rotation_frequency;
    let g: u64 = ((core as u64) + (rotations as u64)) % (n_groups as u64);
    g as u32
}

/// A snapshot predicate for timing out occupied cores; only produced within
/// the availability cutoff after a rotation.
pub struct AvailabilityTimeoutPredicate {
    /// The block at which the predicate was produced.
    pub now: BlockNumber,
    /// How far `now` is past the most recent rotation.
    pub blocks_since_last_rotation: BlockNumber,
    /// The availability window of indracore occupants.
    pub chain_availability_period: BlockNumber,
    /// The availability window of indrabase occupants.
    pub thread_availability_period: BlockNumber,
    /// The core occupancy at the time the predicate was produced.
    pub availability_cores: Vec<Option<CoreOccupied>>,
}

impl AvailabilityTimeoutPredicate {
    /// Whether the candidate pending on `core_index` since `pending_since`
    /// counts as timed out: out-of-range and unoccupied cores do; an occupied
    /// core does exactly when its kind's availability window still applies
    /// after the rotation and the candidate has been pending at least that
    /// whole window.
    pub open spec fn spec_timed_out(self, core_index: int, pending_since: int) -> bool {
        if !(0 <= core_index < self.availability_cores@.len()) {
            true
        } else {
            match self.availability_cores@[core_index] {
                None => true,
                Some(CoreOccupied::Indracore) => self.blocks_since_last_rotation
                    < self.chain_availability_period && spec_saturating_sub(
                    self.now as int,
                    pending_since,
                ) >= self.chain_availability_period,
                Some(CoreOccupied::Indrabase(_)) => self.blocks_since_last_rotation
                    < self.thread_availability_period && spec_saturating_sub(
                    self.now as int,
                    pending_since,
                ) >= self.thread_availability_period,
            }
        }
    }

    /// Evaluate the predicate on a core and the block since which its
    /// candidate has been pending.
    pub fn is_timed_out(&self, core_index: CoreIndex, pending_since: BlockNumber) -> (r: bool)
        ensures
            r == self.spec_timed_out(core_index as int, pending_since as int),
    {
        if (core_index as usize) >= self.availability_cores.len() {
            return true;
        }
        let pending_for: u32 = if self.now >= pending_since {
            self.now - pending_since
        } else {
            0
        };
        match self.availability_cores[core_index as usize] {
            None => true,
            Some(CoreOccupied::Indracore) => self.blocks_since_last_rotation
                < self.chain_availability_period && pending_for >= self.chain_availability_period,
            Some(CoreOccupied::Indrabase(_)) => self.blocks_since_last_rotation
                < self.thread_availability_period && pending_for
                >= self.thread_availability_period,
        }
    }
}

} // verus!
