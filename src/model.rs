use vstd::prelude::*;

verus! {

/// Which token a user position stakes. Positions created before the kind was
/// recorded carry `Undefined`.
#[derive(Clone, Copy, Debug, PartialEq, Eq, Structural)]
pub enum StakingKind {
    Undefined,
    Lm,
    Lp,
}

/// One locked stake of a user position: its amount and, while rewards are
/// waiting to be claimed, the time from which they are pending.
#[derive(Clone, Copy, Debug, PartialEq, Eq)]
pub struct LockedStake {
    pub amount: u64,
    pub claim_time: Option<i64>,
}

/// A reward pool: the start of its current round and the minimum length of a
/// round, in seconds.
#[derive(Clone, Copy, Debug, PartialEq, Eq)]
pub struct RewardPool {
    pub round_start: i64,
    pub min_round_duration: i64,
}

/// A user position: its staking kind and its locked stakes, in order.
#[derive(Clone, Debug, PartialEq, Eq)]
pub struct UserPosition {
    pub kind: StakingKind,
    pub locked_stakes: Vec<LockedStake>,
}

/// What a user position holds, as values.
pub struct PositionView {
    pub kind: StakingKind,
    pub stakes: Seq<LockedStake>,
}

impl View for UserPosition {
    type V = PositionView;

    open spec fn view(&self) -> PositionView {
        PositionView { kind: self.kind, stakes: self.locked_stakes@ }
    }
}

/// The earlier of two optional times; an absent time is no bound.
pub open spec fn earlier(a: Option<i64>, b: Option<i64>) -> Option<i64> {
    match (a, b) {
        (None, _) => b,
        (Some(x), None) => Some(x),
        (Some(x), Some(y)) => Some(if x <= y { x } else { y }),
    }
}

/// The earliest pending claim time among `stakes`, or `None` where no stake
/// has a claim pending.
pub open spec fn earliest_claim(stakes: Seq<LockedStake>) -> Option<i64>
    decreases stakes.len(),
{
    if stakes.len() == 0 {
        None
    } else {
        earlier(earliest_claim(stakes.drop_last()), stakes.last().claim_time)
    }
}

/// The time at which the current round of `pool` is due to be resolved.
pub open spec fn next_resolve_time(pool: RewardPool) -> int {
    pool.round_start + pool.min_round_duration
}

/// `earliest_claim` is the minimum of the pending claim times: `None` exactly
/// when no stake has a claim pending, otherwise a pending time that no other
/// pending time precedes.
pub proof fn lemma_earliest_claim_is_minimum(stakes: Seq<LockedStake>)
    ensures
        earliest_claim(stakes) is None <==> (forall|i: int|
            0 <= i < stakes.len() ==> (#[trigger] stakes[i]).claim_time is None),
        earliest_claim(stakes) is Some ==> (exists|i: int|
            0 <= i < stakes.len() && (#[trigger] stakes[i]).claim_time == earliest_claim(stakes)),
        forall|i: int|
            0 <= i < stakes.len() && (#[trigger] stakes[i]).claim_time is Some
                ==> earliest_claim(stakes) is Some
                && earliest_claim(stakes)->0 <= stakes[i].claim_time->0,
    decreases stakes.len(),
{
    if stakes.len() > 0 {
        let init = stakes.drop_last();
        lemma_earliest_claim_is_minimum(init);
        assert forall|i: int| 0 <= i < init.len() implies init[i] == stakes[i] by {}
        let n = stakes.len() - 1;
        assert(stakes[n] == stakes.last());
        if earliest_claim(stakes) is Some {
            if earliest_claim(stakes) == stakes.last().claim_time {
                assert(stakes[n].claim_time == earliest_claim(stakes));
            } else {
                let j = choose|j: int|
                    0 <= j < init.len() && (#[trigger] init[j]).claim_time == earliest_claim(init);
                assert(stakes[j].claim_time == earliest_claim(stakes));
            }
        }
        if earliest_claim(stakes) is None {
            assert forall|i: int| 0 <= i < stakes.len() implies (#[trigger] stakes[i]).claim_time is None by {
                if i < n {
                    assert(init[i] == stakes[i]);
                }
            }
        }
    }
}

/// The earliest pending claim time of a position's locked stakes.
pub fn compute_earliest_claim(stakes: &Vec<LockedStake>) -> (r: Option<i64>)
    ensures
        r == earliest_claim(stakes@),
{
    let mut acc: Option<i64> = None;
    let mut i: usize = 0;
    while i < stakes.len()
        invariant
            i <= stakes@.len(),
            acc == earliest_claim(stakes@.subrange(0, i as int)),
        decreases stakes@.len() - i,
    {
        let t = stakes[i].claim_time;
        assert(stakes@.subrange(0, i as int + 1).drop_last() =~= stakes@.subrange(0, i as int));
        acc = match (acc, t) {
            (None, _) => t,
            (Some(x), None) => Some(x),
            (Some(x), Some(y)) => Some(if x <= y { x } else { y }),
        };
        i += 1;
    }
    assert(stakes@.subrange(0, stakes@.len() as int) =~= stakes@);
    acc
}

/// The time at which the current round of `pool` is due to be resolved.
pub fn compute_next_resolve_time(pool: &RewardPool) -> (r: i128)
    ensures
        r as int == next_resolve_time(*pool),
{
    pool.round_start as i128 + pool.min_round_duration as i128
}

impl UserPosition {
    /// A copy of the position, value for value.
    pub fn duplicate(&self) -> (r: UserPosition)
        ensures
            r@ == self@,
    {
        let mut stakes: Vec<LockedStake> = Vec::new();
        let mut i: usize = 0;
        while i < self.locked_stakes.len()
            invariant
                i <= self.locked_stakes@.len(),
                stakes@ =~= self.locked_stakes@.subrange(0, i as int),
            decreases self.locked_stakes@.len() - i,
        {
            let s = self.locked_stakes[i];
            stakes.push(LockedStake { amount: s.amount, claim_time: s.claim_time });
            i += 1;
        }
        assert(stakes@ =~= self.locked_stakes@);
        UserPosition { kind: self.kind, locked_stakes: stakes }
    }
}

} // verus!
