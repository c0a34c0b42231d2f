//! Partitioning of the active validator set into per-core groups.
//!
//! On each session change the validators (already shuffled upstream) are
//! split into one group per core, as size-balanced as possible: the first
//! `n_validators % n_cores` groups get one extra member. Groups hold
//! positions into the session's validator list.

use vstd::prelude::*;

use crate::types::ValidatorIndex;

verus! {

/// The size of every group, before the remainder is distributed.
pub open spec fn group_base_size(n_validators: int, n_cores: int) -> int
    recommends
        n_cores > 0,
{
    n_validators / n_cores
}

/// How many groups get one extra member.
pub open spec fn n_larger_groups(n_validators: int, n_cores: int) -> int
    recommends
        n_cores > 0,
{
    n_validators % n_cores
}

/// The size of group `i`.
pub open spec fn group_size(n_validators: int, n_cores: int, i: int) -> int
    recommends
        n_cores > 0,
        0 <= i < n_cores,
{
    if i < n_larger_groups(n_validators, n_cores) {
        group_base_size(n_validators, n_cores) + 1
    } else {
        group_base_size(n_validators, n_cores)
    }
}

/// The first validator position covered by group `i`; group `i` covers the
/// positions `group_offset(i) .. group_offset(i) + group_size(i)`.
pub open spec fn group_offset(n_validators: int, n_cores: int, i: int) -> int
    recommends
        n_cores > 0,
        0 <= i <= n_cores,
{
    let base = group_base_size(n_validators, n_cores);
    let rem = n_larger_groups(n_validators, n_cores);
    if i < rem {
        i * (base + 1)
    } else {
        rem * (base + 1) + (i - rem) * base
    }
}

/// The validator groups of a session: one group per core, each holding the
/// consecutive validator positions it covers.
pub open spec fn spec_make_groups(n_validators: int, n_cores: int) -> Seq<Seq<ValidatorIndex>>
    recommends
        n_cores > 0,
        0 <= n_validators <= u32::MAX,
{
    Seq::new(
        n_cores as nat,
        |i: int|
            Seq::new(
                group_size(n_validators, n_cores, i) as nat,
                |j: int| (group_offset(n_validators, n_cores, i) + j) as u32,
            ),
    )
}

/// The first group starts at the first validator position.
pub proof fn lemma_group_offset_zero(n_validators: int, n_cores: int)
    requires
        n_cores > 0,
        n_validators >= 0,
    ensures
        group_offset(n_validators, n_cores, 0) == 0,
{
    let base = group_base_size(n_validators, n_cores);
    let rem = n_larger_groups(n_validators, n_cores);
    assert(0 * (base + 1) == 0) by (nonlinear_arith);
    assert(rem * (base + 1) + (0 - rem) * base == rem * base + rem - rem * base)
        by (nonlinear_arith);
}

/// Each group starts where the previous one ends.
pub proof fn lemma_group_offset_step(n_validators: int, n_cores: int, i: int)
    requires
        n_cores > 0,
        n_validators >= 0,
        0 <= i < n_cores,
    ensures
        group_offset(n_validators, n_cores, i + 1) == group_offset(n_validators, n_cores, i)
            + group_size(n_validators, n_cores, i),
{
    let base = group_base_size(n_validators, n_cores);
    let rem = n_larger_groups(n_validators, n_cores);
    if i + 1 <= rem {
        assert((i + 1) * (base + 1) == i * (base + 1) + (base + 1)) by (nonlinear_arith);
        assert(rem * (base + 1) + (rem - rem) * base == rem * (base + 1)) by (nonlinear_arith);
    } else {
        assert((i + 1 - rem) * base == (i - rem) * base + base) by (nonlinear_arith);
    }
}

/// The groups together cover exactly the validator positions.
pub proof fn lemma_group_offset_total(n_validators: int, n_cores: int)
    requires
        n_cores > 0,
        n_validators >= 0,
    ensures
        group_offset(n_validators, n_cores, n_cores) == n_validators,
{
    let base = group_base_size(n_validators, n_cores);
    let rem = n_larger_groups(n_validators, n_cores);
    vstd::arithmetic::div_mod::lemma_fundamental_div_mod(n_validators, n_cores);
    assert(rem * (base + 1) + (n_cores - rem) * base == n_cores * base + rem) by (nonlinear_arith);
}

/// Every group offset lies within the validator positions.
pub proof fn lemma_group_offset_le(n_validators: int, n_cores: int, k: int)
    requires
        n_cores > 0,
        n_validators >= 0,
        0 <= k <= n_cores,
    ensures
        0 <= group_offset(n_validators, n_cores, k) <= n_validators,
    decreases n_cores - k,
{
    let base = group_base_size(n_validators, n_cores);
    let rem = n_larger_groups(n_validators, n_cores);
    vstd::arithmetic::div_mod::lemma_div_pos_is_pos(n_validators, n_cores);
    vstd::arithmetic::div_mod::lemma_mod_bound(n_validators, n_cores);
    if k == n_cores {
        lemma_group_offset_total(n_validators, n_cores);
        if k < rem {
            assert(k * (base + 1) >= 0) by (nonlinear_arith)
                requires
                    k >= 0 && base >= 0,
            ;
        } else {
            assert(rem * (base + 1) + (k - rem) * base >= 0) by (nonlinear_arith)
                requires
                    rem >= 0 && base >= 0 && k >= rem,
            ;
        }
    } else {
        lemma_group_offset_step(n_validators, n_cores, k);
        lemma_group_offset_le(n_validators, n_cores, k + 1);
    }
}

/// The total length of the sequences in `gs`.
pub open spec fn sum_lens(gs: Seq<Seq<ValidatorIndex>>) -> int
    decreases gs.len(),
{
    if gs.len() == 0 {
        0
    } else {
        sum_lens(gs.drop_last()) + gs.last().len()
    }
}

proof fn lemma_sum_lens_prefix(n_validators: int, n_cores: int, k: int)
    requires
        n_cores > 0,
        0 <= n_validators,
        0 <= k <= n_cores,
    ensures
        sum_lens(spec_make_groups(n_validators, n_cores).take(k)) == group_offset(
            n_validators,
            n_cores,
            k,
        ),
    decreases k,
{
    let gs = spec_make_groups(n_validators, n_cores);
    if k == 0 {
        assert(gs.take(0) =~= Seq::<Seq<ValidatorIndex>>::empty());
        lemma_group_offset_zero(n_validators, n_cores);
    } else {
        lemma_sum_lens_prefix(n_validators, n_cores, k - 1);
        lemma_group_offset_step(n_validators, n_cores, k - 1);
        vstd::arithmetic::div_mod::lemma_div_pos_is_pos(n_validators, n_cores);
        vstd::arithmetic::div_mod::lemma_mod_bound(n_validators, n_cores);
        assert(gs.take(k).drop_last() =~= gs.take(k - 1));
        assert(gs.take(k).last() == gs[k - 1]);
        assert(gs[k - 1].len() == group_size(n_validators, n_cores, k - 1) as nat);
        assert(gs.take(k).len() == k);
        assert(sum_lens(gs.take(k)) == sum_lens(gs.take(k).drop_last()) + gs.take(k).last().len());
        assert(sum_lens(gs.take(k)) == group_offset(n_validators, n_cores, k - 1) + group_size(
            n_validators,
            n_cores,
            k - 1,
        ));
    }
}

/// Law: for every session the partition has one group per core, the group
/// sizes sum to the number of validators, the sizes of any two groups differ
/// by at most one, and the larger groups come first.
pub proof fn lemma_groups_partition(n_validators: int, n_cores: int)
    requires
        n_cores > 0,
        0 <= n_validators,
    ensures
        spec_make_groups(n_validators, n_cores).len() == n_cores,
        sum_lens(spec_make_groups(n_validators, n_cores)) == n_validators,
        forall|i: int, j: int|
            0 <= i < n_cores && 0 <= j < n_cores && i <= j ==> #[trigger] group_size(
                n_validators,
                n_cores,
                j,
            ) <= #[trigger] group_size(n_validators, n_cores, i) <= group_size(
                n_validators,
                n_cores,
                j,
            ) + 1,
        forall|i: int|
            0 <= i < n_cores ==> #[trigger] spec_make_groups(n_validators, n_cores)[i].len()
                == group_size(n_validators, n_cores, i),
{
    let gs = spec_make_groups(n_validators, n_cores);
    lemma_sum_lens_prefix(n_validators, n_cores, n_cores);
    lemma_group_offset_total(n_validators, n_cores);
    assert(gs.take(n_cores as int) =~= gs);
    vstd::arithmetic::div_mod::lemma_mod_bound(n_validators, n_cores);
    vstd::arithmetic::div_mod::lemma_div_pos_is_pos(n_validators, n_cores);
}

/// Build the validator groups for a session: `n_larger_groups` groups of
/// `base + 1` members first, then groups of `base` members, covering the
/// validator positions in order.
pub fn make_groups(n_validators: usize, n_cores: u32) -> (r: Vec<Vec<ValidatorIndex>>)
    requires
        n_cores > 0,
        n_validators <= u32::MAX,
    ensures
        r@.len() == n_cores,
        forall|i: int|
            0 <= i < n_cores ==> r@[i]@ == spec_make_groups(n_validators as int, n_cores as int)[i],
{
    let ghost nv = n_validators as int;
    let ghost nc = n_cores as int;
    let base: usize = n_validators / (n_cores as usize);
    let rem: usize = n_validators % (n_cores as usize);
    proof {
        vstd::arithmetic::div_mod::lemma_mod_bound(nv, nc);
        vstd::arithmetic::div_mod::lemma_div_pos_is_pos(nv, nc);
        lemma_group_offset_zero(nv, nc);
    }
    let mut groups: Vec<Vec<ValidatorIndex>> = Vec::new();
    let mut offset: usize = 0;
    let mut i: usize = 0;
    while i < rem
        invariant
            nv == n_validators as int,
            nc == n_cores as int,
            n_cores > 0,
            n_validators <= u32::MAX,
            base == group_base_size(nv, nc),
            rem == n_larger_groups(nv, nc),
            0 <= i <= rem,
            offset == group_offset(nv, nc, i as int),
            offset <= n_validators,
            groups@.len() == i,
            forall|k: int| 0 <= k < i ==> groups@[k]@ == spec_make_groups(nv, nc)[k],
        decreases rem - i,
    {
        proof {
            lemma_group_offset_step(nv, nc, i as int);
            lemma_group_offset_le(nv, nc, i as int + 1);
        }
        let mut g: Vec<ValidatorIndex> = Vec::new();
        let mut j: usize = 0;
        while j < base + 1
            invariant
                0 <= j <= base + 1,
                offset + base + 1 <= n_validators,
                n_validators <= u32::MAX,
                g@.len() == j,
                forall|t: int| 0 <= t < j ==> g@[t] == (offset + t) as u32,
            decreases base + 1 - j,
        {
            g.push((offset + j) as u32);
            j = j + 1;
        }
        assert(g@ =~= spec_make_groups(nv, nc)[i as int]);
        groups.push(g);
        offset = offset + base + 1;
        i = i + 1;
    }
    while i < n_cores as usize
        invariant
            nv == n_validators as int,
            nc == n_cores as int,
            n_cores > 0,
            n_validators <= u32::MAX,
            base == group_base_size(nv, nc),
            rem == n_larger_groups(nv, nc),
            rem <= i <= n_cores,
            offset == group_offset(nv, nc, i as int),
            offset <= n_validators,
            groups@.len() == i,
            forall|k: int| 0 <= k < i ==> groups@[k]@ == spec_make_groups(nv, nc)[k],
        decreases n_cores - i,
    {
        proof {
            lemma_group_offset_step(nv, nc, i as int);
            lemma_group_offset_le(nv, nc, i as int + 1);
        }
        let mut g: Vec<ValidatorIndex> = Vec::new();
        let mut j: usize = 0;
        while j < base
            invariant
                0 <= j <= base,
                offset + base <= n_validators,
                n_validators <= u32::MAX,
                g@.len() == j,
                forall|t: int| 0 <= t < j ==> g@[t] == (offset + t) as u32,
            decreases base - j,
        {
            g.push((offset + j) as u32);
            j = j + 1;
        }
        assert(g@ =~= spec_make_groups(nv, nc)[i as int]);
        groups.push(g);
        offset = offset + base;
        i = i + 1;
    }
    groups
}

} // verus!
