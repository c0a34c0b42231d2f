//! The model of the per-block core-filling sweep, and its laws.
//!
//! `spec_fill` describes one ascending sweep over the cores: existing
//! scheduled entries are kept in place, and every free core with no entry
//! yet receives one — its indracore for a dedicated core, the next queued
//! claim at its offset for an indrabase-multiplexer core. The executable
//! `schedule` proves that it computes exactly this function; the laws at the
//! bottom (the sweep keeps the list sorted, moves claims without duplicating
//! them, leaves no fillable core unfilled, and is idempotent) are proved once
//! here by induction.

use vstd::prelude::*;

use crate::model::{
    count_in_queue, count_in_scheduled, has_core, lemma_count_in_queue_remove,
    lemma_count_in_scheduled_cons, none_on_core, scheduled_cores_free, sorted_by_core,
};
use crate::queue::{lemma_first_on_core, spec_first_on_core};
use crate::rotation::spec_group_for_core;
use crate::types::{AssignmentKind, CoreAssignment, CoreOccupied, IndraId, QueuedIndrabase};

verus! {

/// The assignment given to free core `c`, bound to its indracore.
pub open spec fn indracore_assignment(
    c: int,
    indracores: Seq<IndraId>,
    at: int,
    session_start: int,
    freq: int,
    n_groups: int,
) -> CoreAssignment {
    CoreAssignment {
        core: c as u32,
        indra_id: indracores[c],
        kind: AssignmentKind::Indracore,
        group_idx: spec_group_for_core(c, at, session_start, freq, n_groups) as u32,
    }
}

/// The assignment given to free multiplexer core `c`, carrying the queued
/// claim `entry`.
pub open spec fn indrabase_assignment(
    c: int,
    entry: crate::types::IndrabaseEntry,
    at: int,
    session_start: int,
    freq: int,
    n_groups: int,
) -> CoreAssignment {
    CoreAssignment {
        core: c as u32,
        indra_id: entry.claim.0,
        kind: AssignmentKind::Indrabase(entry.claim.1, entry.retries),
        group_idx: spec_group_for_core(c, at, session_start, freq, n_groups) as u32,
    }
}

/// The scheduled list and claim queue after the ascending sweep considers
/// cores `c, c+1, ...`: scheduled entries for earlier cores are kept, an
/// occupied core is passed over, a free core keeps its existing entry if it
/// has one and is otherwise assigned its indracore or the next queued claim
/// at its offset. The group count equals the core count.
pub open spec fn spec_fill(
    cores: Seq<Option<CoreOccupied>>,
    sched: Seq<CoreAssignment>,
    queue: Seq<QueuedIndrabase>,
    c: int,
    indracores: Seq<IndraId>,
    at: int,
    session_start: int,
    freq: int,
) -> (Seq<CoreAssignment>, Seq<QueuedIndrabase>)
    decreases cores.len() - c, sched.len(),
{
    if !(0 <= c < cores.len()) {
        (sched, queue)
    } else if sched.len() > 0 && sched[0].core < c {
        let (s1, q1) = spec_fill(cores, sched.skip(1), queue, c, indracores, at, session_start,
            freq);
        (seq![sched[0]] + s1, q1)
    } else if cores[c] is Some {
        spec_fill(cores, sched, queue, c + 1, indracores, at, session_start, freq)
    } else if sched.len() > 0 && sched[0].core == c {
        let (s1, q1) = spec_fill(cores, sched.skip(1), queue, c + 1, indracores, at,
            session_start, freq);
        (seq![sched[0]] + s1, q1)
    } else if c < indracores.len() {
        let a = indracore_assignment(c, indracores, at, session_start, freq, cores.len() as int);
        let (s1, q1) = spec_fill(cores, sched, queue, c + 1, indracores, at, session_start, freq);
        (seq![a] + s1, q1)
    } else {
        let off = (c - indracores.len()) as u32;
        let f = spec_first_on_core(queue, off);
        if f == -1 {
            spec_fill(cores, sched, queue, c + 1, indracores, at, session_start, freq)
        } else {
            let a = indrabase_assignment(c, queue[f].claim, at, session_start, freq,
                cores.len() as int);
            let (s1, q1) = spec_fill(cores, sched, queue.remove(f), c + 1, indracores, at,
                session_start, freq);
            (seq![a] + s1, q1)
        }
    }
}

/// A lower bound on the cores named by the sweep's output.
pub open spec fn fill_lower_bound(c: int, sched: Seq<CoreAssignment>) -> int {
    if sched.len() > 0 && sched[0].core < c {
        sched[0].core as int
    } else {
        c
    }
}

/// The sweep keeps the scheduled list strictly sorted by core index.
pub proof fn lemma_fill_sorted(
    cores: Seq<Option<CoreOccupied>>,
    sched: Seq<CoreAssignment>,
    queue: Seq<QueuedIndrabase>,
    c: int,
    indracores: Seq<IndraId>,
    at: int,
    session_start: int,
    freq: int,
)
    requires
        sorted_by_core(sched),
        c >= 0,
        cores.len() <= u32::MAX,
    ensures
        ({
            let (s1, q1) = spec_fill(cores, sched, queue, c, indracores, at, session_start, freq);
            &&& sorted_by_core(s1)
            &&& forall|k: int| 0 <= k < s1.len() ==> s1[k].core >= fill_lower_bound(c, sched)
        }),
    decreases cores.len() - c, sched.len(),
{
    let (s1, q1) = spec_fill(cores, sched, queue, c, indracores, at, session_start, freq);
    if !(0 <= c < cores.len()) {
        assert forall|k: int| 0 <= k < s1.len() implies s1[k].core >= fill_lower_bound(
            c,
            sched,
        ) by {
            if k > 0 {
                assert(sched[0].core < sched[k].core);
            }
        }
    } else if sched.len() > 0 && sched[0].core < c {
        assert(sorted_by_core(sched.skip(1))) by {
            assert forall|i: int, j: int|
                0 <= i < j < sched.skip(1).len() implies sched.skip(1)[i].core < sched.skip(
                1,
            )[j].core by {
                assert(sched.skip(1)[i] == sched[i + 1]);
                assert(sched.skip(1)[j] == sched[j + 1]);
            }
        }
        lemma_fill_sorted(cores, sched.skip(1), queue, c, indracores, at, session_start, freq);
        let (s2, _) = spec_fill(cores, sched.skip(1), queue, c, indracores, at, session_start,
            freq);
        if sched.skip(1).len() > 0 {
            assert(sched.skip(1)[0] == sched[1]);
        }
        assert(sched[0].core < fill_lower_bound(c, sched.skip(1)));
        assert forall|i: int, j: int| 0 <= i < j < s1.len() implies s1[i].core < s1[j].core by {
            if i > 0 {
                assert(s1[i] == s2[i - 1]);
                assert(s1[j] == s2[j - 1]);
            } else {
                assert(s1[j] == s2[j - 1]);
            }
        }
    } else if cores[c] is Some {
        lemma_fill_sorted(cores, sched, queue, c + 1, indracores, at, session_start, freq);
        assert(fill_lower_bound(c + 1, sched) >= fill_lower_bound(c, sched));
    } else if sched.len() > 0 && sched[0].core == c {
        assert(sorted_by_core(sched.skip(1))) by {
            assert forall|i: int, j: int|
                0 <= i < j < sched.skip(1).len() implies sched.skip(1)[i].core < sched.skip(
                1,
            )[j].core by {
                assert(sched.skip(1)[i] == sched[i + 1]);
                assert(sched.skip(1)[j] == sched[j + 1]);
            }
        }
        lemma_fill_sorted(cores, sched.skip(1), queue, c + 1, indracores, at, session_start, freq);
        let (s2, _) = spec_fill(cores, sched.skip(1), queue, c + 1, indracores, at, session_start,
            freq);
        if sched.skip(1).len() > 0 {
            assert(sched.skip(1)[0] == sched[1]);
            assert(sched[1].core > c);
        }
        assert(sched[0].core < fill_lower_bound(c + 1, sched.skip(1)));
        assert forall|i: int, j: int| 0 <= i < j < s1.len() implies s1[i].core < s1[j].core by {
            if i > 0 {
                assert(s1[i] == s2[i - 1]);
                assert(s1[j] == s2[j - 1]);
            } else {
                assert(s1[j] == s2[j - 1]);
            }
        }
    } else if c < indracores.len() {
        lemma_fill_sorted(cores, sched, queue, c + 1, indracores, at, session_start, freq);
        let (s2, _) = spec_fill(cores, sched, queue, c + 1, indracores, at, session_start, freq);
        assert(c < fill_lower_bound(c + 1, sched));
        assert forall|i: int, j: int| 0 <= i < j < s1.len() implies s1[i].core < s1[j].core by {
            if i > 0 {
                assert(s1[i] == s2[i - 1]);
                assert(s1[j] == s2[j - 1]);
            } else {
                assert(s1[j] == s2[j - 1]);
            }
        }
    } else {
        let off = (c - indracores.len()) as u32;
        let f = spec_first_on_core(queue, off);
        if f == -1 {
            lemma_fill_sorted(cores, sched, queue, c + 1, indracores, at, session_start, freq);
        } else {
            lemma_first_on_core(queue, off);
            lemma_fill_sorted(cores, sched, queue.remove(f), c + 1, indracores, at, session_start,
                freq);
            let (s2, _) = spec_fill(cores, sched, queue.remove(f), c + 1, indracores, at,
                session_start, freq);
            assert(c < fill_lower_bound(c + 1, sched));
            assert forall|i: int, j: int| 0 <= i < j < s1.len() implies s1[i].core < s1[j].core by {
                if i > 0 {
                    assert(s1[i] == s2[i - 1]);
                    assert(s1[j] == s2[j - 1]);
                } else {
                    assert(s1[j] == s2[j - 1]);
                }
            }
        }
    }
}

/// The sweep assigns only cores that are free and leaves existing entries in
/// place, so no output entry names an occupied core.
pub proof fn lemma_fill_cores_free(
    cores: Seq<Option<CoreOccupied>>,
    sched: Seq<CoreAssignment>,
    queue: Seq<QueuedIndrabase>,
    c: int,
    indracores: Seq<IndraId>,
    at: int,
    session_start: int,
    freq: int,
)
    requires
        scheduled_cores_free(sched, cores),
        cores.len() <= u32::MAX,
    ensures
        scheduled_cores_free(
            spec_fill(cores, sched, queue, c, indracores, at, session_start, freq).0,
            cores,
        ),
    decreases cores.len() - c, sched.len(),
{
    let (s1, q1) = spec_fill(cores, sched, queue, c, indracores, at, session_start, freq);
    if !(0 <= c < cores.len()) {
    } else if sched.len() > 0 && sched[0].core < c {
        assert(scheduled_cores_free(sched.skip(1), cores)) by {
            assert forall|i: int|
                0 <= i < sched.skip(1).len() && sched.skip(1)[i].core
                    < cores.len() implies cores[#[trigger] sched.skip(1)[i].core as int]
                is None by {
                assert(sched.skip(1)[i] == sched[i + 1]);
            }
        }
        lemma_fill_cores_free(cores, sched.skip(1), queue, c, indracores, at, session_start, freq);
        let (s2, _) = spec_fill(cores, sched.skip(1), queue, c, indracores, at, session_start,
            freq);
        assert forall|i: int|
            0 <= i < s1.len() && s1[i].core < cores.len() implies cores[#[trigger] s1[i].core
            as int] is None by {
            if i > 0 {
                assert(s1[i] == s2[i - 1]);
            } else {
                assert(s1[0] == sched[0]);
            }
        }
    } else if cores[c] is Some {
        lemma_fill_cores_free(cores, sched, queue, c + 1, indracores, at, session_start, freq);
    } else if sched.len() > 0 && sched[0].core == c {
        assert(scheduled_cores_free(sched.skip(1), cores)) by {
            assert forall|i: int|
                0 <= i < sched.skip(1).len() && sched.skip(1)[i].core
                    < cores.len() implies cores[#[trigger] sched.skip(1)[i].core as int]
                is None by {
                assert(sched.skip(1)[i] == sched[i + 1]);
            }
        }
        lemma_fill_cores_free(cores, sched.skip(1), queue, c + 1, indracores, at, session_start,
            freq);
        let (s2, _) = spec_fill(cores, sched.skip(1), queue, c + 1, indracores, at, session_start,
            freq);
        assert forall|i: int|
            0 <= i < s1.len() && s1[i].core < cores.len() implies cores[#[trigger] s1[i].core
            as int] is None by {
            if i > 0 {
                assert(s1[i] == s2[i - 1]);
            } else {
                assert(s1[0] == sched[0]);
            }
        }
    } else if c < indracores.len() {
        lemma_fill_cores_free(cores, sched, queue, c + 1, indracores, at, session_start, freq);
        let (s2, _) = spec_fill(cores, sched, queue, c + 1, indracores, at, session_start, freq);
        assert forall|i: int|
            0 <= i < s1.len() && s1[i].core < cores.len() implies cores[#[trigger] s1[i].core
            as int] is None by {
            if i > 0 {
                assert(s1[i] == s2[i - 1]);
            } else {
                assert(s1[0].core == c);
            }
        }
    } else {
        let off = (c - indracores.len()) as u32;
        let f = spec_first_on_core(queue, off);
        if f == -1 {
            lemma_fill_cores_free(cores, sched, queue, c + 1, indracores, at, session_start, freq);
        } else {
            lemma_first_on_core(queue, off);
            lemma_fill_cores_free(cores, sched, queue.remove(f), c + 1, indracores, at,
                session_start, freq);
            let (s2, _) = spec_fill(cores, sched, queue.remove(f), c + 1, indracores, at,
                session_start, freq);
            assert forall|i: int|
                0 <= i < s1.len() && s1[i].core < cores.len() implies cores[#[trigger] s1[i].core
                as int] is None by {
                if i > 0 {
                    assert(s1[i] == s2[i - 1]);
                } else {
                    assert(s1[0].core == c);
                }
            }
        }
    }
}

/// The sweep moves claims from the queue onto cores without duplicating or
/// losing any: per workload, the number of scheduled claims plus queued
/// claims is unchanged.
pub proof fn lemma_fill_conserves_claims(
    cores: Seq<Option<CoreOccupied>>,
    sched: Seq<CoreAssignment>,
    queue: Seq<QueuedIndrabase>,
    c: int,
    indracores: Seq<IndraId>,
    at: int,
    session_start: int,
    freq: int,
    id: IndraId,
)
    requires
        cores.len() <= u32::MAX,
    ensures
        ({
            let (s1, q1) = spec_fill(cores, sched, queue, c, indracores, at, session_start, freq);
            count_in_scheduled(s1, id) + count_in_queue(q1, id) == count_in_scheduled(sched, id)
                + count_in_queue(queue, id)
        }),
    decreases cores.len() - c, sched.len(),
{
    let (s1, q1) = spec_fill(cores, sched, queue, c, indracores, at, session_start, freq);
    if !(0 <= c < cores.len()) {
    } else if sched.len() > 0 && sched[0].core < c {
        lemma_fill_conserves_claims(cores, sched.skip(1), queue, c, indracores, at, session_start,
            freq, id);
        let (s2, q2) = spec_fill(cores, sched.skip(1), queue, c, indracores, at, session_start,
            freq);
        lemma_count_in_scheduled_cons(sched[0], s2, id);
    } else if cores[c] is Some {
        lemma_fill_conserves_claims(cores, sched, queue, c + 1, indracores, at, session_start,
            freq, id);
    } else if sched.len() > 0 && sched[0].core == c {
        lemma_fill_conserves_claims(cores, sched.skip(1), queue, c + 1, indracores, at,
            session_start, freq, id);
        let (s2, q2) = spec_fill(cores, sched.skip(1), queue, c + 1, indracores, at, session_start,
            freq);
        lemma_count_in_scheduled_cons(sched[0], s2, id);
    } else if c < indracores.len() {
        lemma_fill_conserves_claims(cores, sched, queue, c + 1, indracores, at, session_start,
            freq, id);
        let (s2, q2) = spec_fill(cores, sched, queue, c + 1, indracores, at, session_start, freq);
        lemma_count_in_scheduled_cons(
            indracore_assignment(c, indracores, at, session_start, freq, cores.len() as int),
            s2,
            id,
        );
    } else {
        let off = (c - indracores.len()) as u32;
        let f = spec_first_on_core(queue, off);
        if f == -1 {
            lemma_fill_conserves_claims(cores, sched, queue, c + 1, indracores, at, session_start,
                freq, id);
        } else {
            lemma_first_on_core(queue, off);
            lemma_fill_conserves_claims(cores, sched, queue.remove(f), c + 1, indracores, at,
                session_start, freq, id);
            let (s2, q2) = spec_fill(cores, sched, queue.remove(f), c + 1, indracores, at,
                session_start, freq);
            lemma_count_in_scheduled_cons(
                indrabase_assignment(c, queue[f].claim, at, session_start, freq,
                    cores.len() as int),
                s2,
                id,
            );
            lemma_count_in_queue_remove(queue, f, id);
        }
    }
}

/// The sweep only ever removes queue entries: an offset with no queued entry
/// stays that way.
pub proof fn lemma_fill_keeps_none_on_core(
    cores: Seq<Option<CoreOccupied>>,
    sched: Seq<CoreAssignment>,
    queue: Seq<QueuedIndrabase>,
    c: int,
    indracores: Seq<IndraId>,
    at: int,
    session_start: int,
    freq: int,
    core_offset: u32,
)
    requires
        none_on_core(queue, core_offset),
    ensures
        none_on_core(
            spec_fill(cores, sched, queue, c, indracores, at, session_start, freq).1,
            core_offset,
        ),
    decreases cores.len() - c, sched.len(),
{
    if !(0 <= c < cores.len()) {
    } else if sched.len() > 0 && sched[0].core < c {
        lemma_fill_keeps_none_on_core(cores, sched.skip(1), queue, c, indracores, at,
            session_start, freq, core_offset);
    } else if cores[c] is Some {
        lemma_fill_keeps_none_on_core(cores, sched, queue, c + 1, indracores, at, session_start,
            freq, core_offset);
    } else if sched.len() > 0 && sched[0].core == c {
        lemma_fill_keeps_none_on_core(cores, sched.skip(1), queue, c + 1, indracores, at,
            session_start, freq, core_offset);
    } else if c < indracores.len() {
        lemma_fill_keeps_none_on_core(cores, sched, queue, c + 1, indracores, at, session_start,
            freq, core_offset);
    } else {
        let off = (c - indracores.len()) as u32;
        let f = spec_first_on_core(queue, off);
        if f == -1 {
            lemma_fill_keeps_none_on_core(cores, sched, queue, c + 1, indracores, at,
                session_start, freq, core_offset);
        } else {
            lemma_first_on_core(queue, off);
            assert(none_on_core(queue.remove(f), core_offset)) by {
                assert forall|i: int|
                    0 <= i < queue.remove(f).len() implies queue.remove(f)[i].core_offset
                    != core_offset by {
                    if i < f {
                        assert(queue.remove(f)[i] == queue[i]);
                    } else {
                        assert(queue.remove(f)[i] == queue[i + 1]);
                    }
                }
            }
            lemma_fill_keeps_none_on_core(cores, sched, queue.remove(f), c + 1, indracores, at,
                session_start, freq, core_offset);
        }
    }
}

/// After the sweep, every free core from `c` on is saturated: it either has
/// a scheduled entry, or it is a multiplexer core whose offset has no queued
/// claim left.
pub open spec fn saturated_from(
    cores: Seq<Option<CoreOccupied>>,
    s: Seq<CoreAssignment>,
    q: Seq<QueuedIndrabase>,
    c: int,
    n_indracores: int,
) -> bool {
    forall|k: int|
        c <= k < cores.len() && cores[k] is None ==> has_core(s, k) || (k >= n_indracores
            && none_on_core(q, (k - n_indracores) as u32))
}

/// The sweep saturates every core it considers: afterwards no free core
/// could take more work.
pub proof fn lemma_fill_saturates(
    cores: Seq<Option<CoreOccupied>>,
    sched: Seq<CoreAssignment>,
    queue: Seq<QueuedIndrabase>,
    c: int,
    indracores: Seq<IndraId>,
    at: int,
    session_start: int,
    freq: int,
)
    requires
        c >= 0,
        cores.len() <= u32::MAX,
    ensures
        ({
            let (s1, q1) = spec_fill(cores, sched, queue, c, indracores, at, session_start, freq);
            saturated_from(cores, s1, q1, c, indracores.len() as int)
        }),
    decreases cores.len() - c, sched.len(),
{
    let icl = indracores.len() as int;
    let (s1, q1) = spec_fill(cores, sched, queue, c, indracores, at, session_start, freq);
    if !(0 <= c < cores.len()) {
    } else if sched.len() > 0 && sched[0].core < c {
        lemma_fill_saturates(cores, sched.skip(1), queue, c, indracores, at, session_start, freq);
        let (s2, q2) = spec_fill(cores, sched.skip(1), queue, c, indracores, at, session_start,
            freq);
        assert(s1 == seq![sched[0]] + s2);
        assert(q1 == q2);
        assert forall|k: int|
            c <= k < cores.len() && cores[k] is None implies has_core(s1, k) || (k >= icl
                && none_on_core(q1, (k - icl) as u32)) by {
            if !(k >= icl && none_on_core(q2, (k - icl) as u32)) {
                assert(has_core(s2, k));
                let w = choose|w: int| 0 <= w < s2.len() && s2[w].core == k;
                assert(s1[w + 1] == s2[w]);
                assert(has_core(s1, k));
            }
        }
    } else if cores[c] is Some {
        lemma_fill_saturates(cores, sched, queue, c + 1, indracores, at, session_start, freq);
        assert forall|k: int|
            c <= k < cores.len() && cores[k] is None implies has_core(s1, k) || (k >= icl
                && none_on_core(q1, (k - icl) as u32)) by {
            assert(k != c);
        }
    } else if sched.len() > 0 && sched[0].core == c {
        lemma_fill_saturates(cores, sched.skip(1), queue, c + 1, indracores, at, session_start,
            freq);
        let (s2, q2) = spec_fill(cores, sched.skip(1), queue, c + 1, indracores, at, session_start,
            freq);
        assert(s1 == seq![sched[0]] + s2);
        assert(q1 == q2);
        assert(s1[0].core == c);
        assert forall|k: int|
            c <= k < cores.len() && cores[k] is None implies has_core(s1, k) || (k >= icl
                && none_on_core(q1, (k - icl) as u32)) by {
            if k == c {
                assert(has_core(s1, k));
            } else if !(k >= icl && none_on_core(q2, (k - icl) as u32)) {
                assert(has_core(s2, k));
                let w = choose|w: int| 0 <= w < s2.len() && s2[w].core == k;
                assert(s1[w + 1] == s2[w]);
                assert(has_core(s1, k));
            }
        }
    } else if c < icl {
        lemma_fill_saturates(cores, sched, queue, c + 1, indracores, at, session_start, freq);
        let (s2, q2) = spec_fill(cores, sched, queue, c + 1, indracores, at, session_start, freq);
        assert(s1 == seq![indracore_assignment(c, indracores, at, session_start, freq,
            cores.len() as int)] + s2);
        assert(q1 == q2);
        assert(s1[0].core == c);
        assert forall|k: int|
            c <= k < cores.len() && cores[k] is None implies has_core(s1, k) || (k >= icl
                && none_on_core(q1, (k - icl) as u32)) by {
            if k == c {
                assert(has_core(s1, k));
            } else if !(k >= icl && none_on_core(q2, (k - icl) as u32)) {
                assert(has_core(s2, k));
                let w = choose|w: int| 0 <= w < s2.len() && s2[w].core == k;
                assert(s1[w + 1] == s2[w]);
                assert(has_core(s1, k));
            }
        }
    } else {
        let off = (c - indracores.len()) as u32;
        let f = spec_first_on_core(queue, off);
        if f == -1 {
            lemma_first_on_core(queue, off);
            lemma_fill_saturates(cores, sched, queue, c + 1, indracores, at, session_start, freq);
            lemma_fill_keeps_none_on_core(cores, sched, queue, c + 1, indracores, at,
                session_start, freq, off);
            assert forall|k: int|
                c <= k < cores.len() && cores[k] is None implies has_core(s1, k) || (k >= icl
                    && none_on_core(q1, (k - icl) as u32)) by {
                if k == c {
                    assert((k - icl) as u32 == off);
                    assert(none_on_core(q1, off));
                }
            }
        } else {
            lemma_first_on_core(queue, off);
            lemma_fill_saturates(cores, sched, queue.remove(f), c + 1, indracores, at,
                session_start, freq);
            let (s2, q2) = spec_fill(cores, sched, queue.remove(f), c + 1, indracores, at,
                session_start, freq);
            assert(s1 == seq![indrabase_assignment(c, queue[f].claim, at, session_start, freq,
                cores.len() as int)] + s2);
            assert(q1 == q2);
            assert(s1[0].core == c);
            assert forall|k: int|
                c <= k < cores.len() && cores[k] is None implies has_core(s1, k) || (k >= icl
                    && none_on_core(q1, (k - icl) as u32)) by {
                if k == c {
                    assert(has_core(s1, k));
                } else if !(k >= icl && none_on_core(q2, (k - icl) as u32)) {
                    assert(has_core(s2, k));
                    let w = choose|w: int| 0 <= w < s2.len() && s2[w].core == k;
                    assert(s1[w + 1] == s2[w]);
                    assert(has_core(s1, k));
                }
            }
        }
    }
    assert(saturated_from(cores, s1, q1, c, icl));
}

/// On a saturated state the sweep changes nothing: every free core already
/// has its entry or has no claim to take.
pub proof fn lemma_fill_identity_on_saturated(
    cores: Seq<Option<CoreOccupied>>,
    sched: Seq<CoreAssignment>,
    queue: Seq<QueuedIndrabase>,
    c: int,
    indracores: Seq<IndraId>,
    at: int,
    session_start: int,
    freq: int,
)
    requires
        sorted_by_core(sched),
        saturated_from(cores, sched, queue, c, indracores.len() as int),
        c >= 0,
        cores.len() <= u32::MAX,
    ensures
        spec_fill(cores, sched, queue, c, indracores, at, session_start, freq) == (sched, queue),
    decreases cores.len() - c, sched.len(),
{
    if !(0 <= c < cores.len()) {
    } else if sched.len() > 0 && sched[0].core < c {
        assert(sorted_by_core(sched.skip(1))) by {
            assert forall|i: int, j: int|
                0 <= i < j < sched.skip(1).len() implies sched.skip(1)[i].core < sched.skip(
                1,
            )[j].core by {
                assert(sched.skip(1)[i] == sched[i + 1]);
                assert(sched.skip(1)[j] == sched[j + 1]);
            }
        }
        assert(saturated_from(cores, sched.skip(1), queue, c, indracores.len() as int)) by {
            assert forall|k: int|
                c <= k < cores.len() && cores[k] is None && !(k >= indracores.len()
                    && none_on_core(queue, (k - indracores.len()) as u32)) implies has_core(
                sched.skip(1),
                k,
            ) by {
                assert(has_core(sched, k));
                let w = choose|w: int| 0 <= w < sched.len() && sched[w].core == k;
                assert(w != 0);
                assert(sched.skip(1)[w - 1] == sched[w]);
            }
        }
        lemma_fill_identity_on_saturated(cores, sched.skip(1), queue, c, indracores, at,
            session_start, freq);
        assert(seq![sched[0]] + sched.skip(1) =~= sched);
    } else if cores[c] is Some {
        lemma_fill_identity_on_saturated(cores, sched, queue, c + 1, indracores, at, session_start,
            freq);
    } else if sched.len() > 0 && sched[0].core == c {
        assert(sorted_by_core(sched.skip(1))) by {
            assert forall|i: int, j: int|
                0 <= i < j < sched.skip(1).len() implies sched.skip(1)[i].core < sched.skip(
                1,
            )[j].core by {
                assert(sched.skip(1)[i] == sched[i + 1]);
                assert(sched.skip(1)[j] == sched[j + 1]);
            }
        }
        assert(saturated_from(cores, sched.skip(1), queue, c + 1, indracores.len() as int)) by {
            assert forall|k: int|
                c + 1 <= k < cores.len() && cores[k] is None && !(k >= indracores.len()
                    && none_on_core(queue, (k - indracores.len()) as u32)) implies has_core(
                sched.skip(1),
                k,
            ) by {
                assert(has_core(sched, k));
                let w = choose|w: int| 0 <= w < sched.len() && sched[w].core == k;
                assert(w != 0);
                assert(sched.skip(1)[w - 1] == sched[w]);
            }
        }
        lemma_fill_identity_on_saturated(cores, sched.skip(1), queue, c + 1, indracores, at,
            session_start, freq);
        assert(seq![sched[0]] + sched.skip(1) =~= sched);
    } else if c < indracores.len() {
        // saturation says core c carries an entry, but the remaining entries
        // all name later cores: impossible, so this case cannot arise
        assert(has_core(sched, c));
        let w = choose|w: int| 0 <= w < sched.len() && sched[w].core == c;
        if w > 0 {
            assert(sched[0].core < sched[w].core);
        }
        assert(false);
    } else {
        let off = (c - indracores.len()) as u32;
        let f = spec_first_on_core(queue, off);
        if has_core(sched, c) {
            let w = choose|w: int| 0 <= w < sched.len() && sched[w].core == c;
            if w > 0 {
                assert(sched[0].core < sched[w].core);
            }
            assert(false);
        } else {
            assert(none_on_core(queue, off));
            lemma_first_on_core(queue, off);
            if f != -1 {
                assert(queue[f].core_offset != off);
                assert(false);
            }
            lemma_fill_identity_on_saturated(cores, sched, queue, c + 1, indracores, at,
                session_start, freq);
        }
    }
}

/// Law: the sweep is idempotent. Filling the cores and then filling them
/// again — with no cores newly freed and no claims newly submitted in
/// between — returns exactly the first sweep's scheduled list and queue.
pub proof fn lemma_fill_idempotent(
    cores: Seq<Option<CoreOccupied>>,
    sched: Seq<CoreAssignment>,
    queue: Seq<QueuedIndrabase>,
    indracores: Seq<IndraId>,
    at: int,
    session_start: int,
    freq: int,
)
    requires
        sorted_by_core(sched),
        cores.len() <= u32::MAX,
    ensures
        ({
            let (s1, q1) = spec_fill(cores, sched, queue, 0, indracores, at, session_start, freq);
            spec_fill(cores, s1, q1, 0, indracores, at, session_start, freq) == (s1, q1)
        }),
{
    let (s1, q1) = spec_fill(cores, sched, queue, 0, indracores, at, session_start, freq);
    lemma_fill_sorted(cores, sched, queue, 0, indracores, at, session_start, freq);
    lemma_fill_saturates(cores, sched, queue, 0, indracores, at, session_start, freq);
    lemma_fill_identity_on_saturated(cores, s1, q1, 0, indracores, at, session_start, freq);
}

} // verus!
