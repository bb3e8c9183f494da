use vstd::prelude::*;
use crate::address::{addresses_of, Address};
use crate::filters::{filters_for, FilterSet};
use crate::mirror::AccountMirror;
use crate::model::{PositionView, RewardPool, StakingKind, UserPosition};

verus! {

/// The pools after merging the scanned `(address, pool)` pairs into `m`, in
/// order: a later pair replaces an earlier one at the same address.
pub open spec fn merge_pools(
    m: Map<Seq<u8>, RewardPool>,
    scanned: Seq<(Address, RewardPool)>,
) -> Map<Seq<u8>, RewardPool>
    decreases scanned.len(),
{
    if scanned.len() == 0 {
        m
    } else {
        merge_pools(m, scanned.drop_last()).insert(scanned.last().0@, scanned.last().1)
    }
}

/// The positions after merging the scanned `(address, position)` pairs into
/// `m`, in order, leaving out every position whose staking kind is undefined.
pub open spec fn merge_positions(
    m: Map<Seq<u8>, PositionView>,
    scanned: Seq<(Address, UserPosition)>,
) -> Map<Seq<u8>, PositionView>
    decreases scanned.len(),
{
    if scanned.len() == 0 {
        m
    } else {
        let prev = merge_positions(m, scanned.drop_last());
        if scanned.last().1.kind == StakingKind::Undefined {
            prev
        } else {
            prev.insert(scanned.last().0@, scanned.last().1@)
        }
    }
}

/// How many scanned positions have an undefined staking kind.
pub open spec fn count_undefined(scanned: Seq<(Address, UserPosition)>) -> nat
    decreases scanned.len(),
{
    if scanned.len() == 0 {
        0
    } else {
        count_undefined(scanned.drop_last()) + if scanned.last().1.kind == StakingKind::Undefined {
            1nat
        } else {
            0nat
        }
    }
}

/// Every scanned entry at `p` has an undefined staking kind.
pub open spec fn only_undefined_at(scanned: Seq<(Address, UserPosition)>, p: Seq<u8>) -> bool {
    forall|i: int| 0 <= i < scanned.len() && (#[trigger] scanned[i]).0@ == p
        ==> scanned[i].1.kind == StakingKind::Undefined
}

/// A position that the scan lists only with an undefined staking kind, and
/// that was not held before, is not held after the merge.
pub proof fn lemma_merge_leaves_out_undefined(
    m: Map<Seq<u8>, PositionView>,
    scanned: Seq<(Address, UserPosition)>,
    p: Seq<u8>,
)
    requires
        !m.contains_key(p),
        only_undefined_at(scanned, p),
    ensures
        !merge_positions(m, scanned).contains_key(p),
    decreases scanned.len(),
{
    if scanned.len() > 0 {
        let init = scanned.drop_last();
        assert forall|i: int| 0 <= i < init.len() && (#[trigger] init[i]).0@ == p
            implies init[i].1.kind == StakingKind::Undefined by {
            assert(init[i] == scanned[i]);
        }
        lemma_merge_leaves_out_undefined(m, init, p);
        assert(scanned.last() == scanned[scanned.len() - 1]);
    }
}

/// After a bootstrap whose scan lists a new position only with an undefined
/// staking kind, that position is in neither the mirror, the claim cache,
/// nor the close watch of the filters built from the mirror.
pub proof fn lemma_bootstrap_excludes_undefined(
    before: &AccountMirror,
    after: &AccountMirror,
    scanned: Seq<(Address, UserPosition)>,
    p: Seq<u8>,
    filters: FilterSet,
    program: Seq<u8>,
)
    requires
        after.wf(),
        after.positions() == merge_positions(before.positions(), scanned),
        !before.positions().contains_key(p),
        only_undefined_at(scanned, p),
        filters_for(filters, after.positions().dom(), program),
    ensures
        !after.positions().contains_key(p),
        !after.claim_cache().contains_key(p),
        !addresses_of(filters.groups@[2].filter.accounts@).contains(p),
{
    lemma_merge_leaves_out_undefined(before.positions(), scanned, p);
    after.lemma_wf_caches_derived();
    if addresses_of(filters.groups@[2].filter.accounts@).contains(p) {
        assert(addresses_of(filters.groups@[2].filter.accounts@).to_set().contains(p));
    }
}

impl AccountMirror {
    /// Merges the accounts of a full scan into the mirror, without clearing
    /// what it already holds, then recomputes both caches. Positions whose
    /// staking kind is undefined are left out; their number is returned.
    pub fn merge_bootstrap(
        &mut self,
        pools: &Vec<(Address, RewardPool)>,
        positions: &Vec<(Address, UserPosition)>,
    ) -> (dropped: usize)
        requires
            old(self).wf(),
        ensures
            final(self).wf(),
            final(self).caches_derived(),
            final(self).pools() == merge_pools(old(self).pools(), pools@),
            final(self).positions() == merge_positions(old(self).positions(), positions@),
            dropped == count_undefined(positions@),
    {
        let ghost pools0 = self.pools();
        let ghost positions0 = self.positions();
        let mut i: usize = 0;
        while i < pools.len()
            invariant
                self.wf(),
                i <= pools@.len(),
                self.pools() == merge_pools(pools0, pools@.subrange(0, i as int)),
                self.positions() == positions0,
            decreases pools@.len() - i,
        {
            assert(pools@.subrange(0, i as int + 1).drop_last() =~= pools@.subrange(0, i as int));
            let (a, p) = pools[i];
            self.upsert_pool(a, p);
            i += 1;
        }
        assert(pools@.subrange(0, pools@.len() as int) =~= pools@);
        let mut dropped: usize = 0;
        let mut j: usize = 0;
        while j < positions.len()
            invariant
                self.wf(),
                j <= positions@.len(),
                dropped <= j,
                dropped == count_undefined(positions@.subrange(0, j as int)),
                self.positions() == merge_positions(positions0, positions@.subrange(0, j as int)),
                self.pools() == merge_pools(pools0, pools@),
            decreases positions@.len() - j,
        {
            assert(positions@.subrange(0, j as int + 1).drop_last()
                =~= positions@.subrange(0, j as int));
            let entry = &positions[j];
            if entry.1.kind == StakingKind::Undefined {
                dropped += 1;
            } else {
                let copy = entry.1.duplicate();
                self.upsert_position(entry.0, copy);
            }
            j += 1;
        }
        assert(positions@.subrange(0, positions@.len() as int) =~= positions@);
        self.refresh_caches();
        dropped
    }
}

} // verus!
