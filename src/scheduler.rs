use vstd::prelude::*;
use crate::address::Address;
use crate::model::StakingKind;

verus! {

/// How many minimum round durations a pending claim may wait before it is
/// claimed automatically. A position keeps the data of a bounded number of
/// rounds, and this stays under that bound with a margin.
pub const AUTO_CLAIM_ROUNDS: i64 = 25;

/// The time a pending claim may wait before it is claimed automatically.
pub open spec fn auto_claim_threshold(min_round_duration: int) -> int {
    AUTO_CLAIM_ROUNDS * min_round_duration
}

/// A round due at `resolve_time` is to be resolved at `now`.
pub open spec fn resolve_due(resolve_time: int, now: int) -> bool {
    now >= resolve_time
}

/// A position whose earliest claim is `claim_time` is to be claimed at `now`.
pub open spec fn claim_due(claim_time: Option<i64>, now: int, min_round_duration: int) -> bool {
    match claim_time {
        Some(t) => now >= t + auto_claim_threshold(min_round_duration),
        None => false,
    }
}

/// Whether a round due at `resolve_time` is to be resolved at `now`.
pub fn is_resolve_due(resolve_time: i128, now: i64) -> (r: bool)
    ensures
        r == resolve_due(resolve_time as int, now as int),
{
    now as i128 >= resolve_time
}

/// Whether a position whose earliest claim is `claim_time` is to be claimed
/// at `now`.
pub fn is_claim_due(claim_time: Option<i64>, now: i64, min_round_duration: i64) -> (r: bool)
    ensures
        r == claim_due(claim_time, now as int, min_round_duration as int),
{
    match claim_time {
        Some(t) => now as i128 >= t as i128 + (AUTO_CLAIM_ROUNDS as i128) * (min_round_duration as i128),
        None => false,
    }
}

/// The reward token of each staking kind.
#[derive(Clone, Copy, Debug, PartialEq, Eq)]
pub struct RewardMints {
    pub lm: Address,
    pub lp: Address,
}

/// The token in which a position of `kind` is rewarded, if its kind is known.
pub open spec fn reward_mint_of(kind: StakingKind, mints: RewardMints) -> Option<Address> {
    match kind {
        StakingKind::Lm => Some(mints.lm),
        StakingKind::Lp => Some(mints.lp),
        StakingKind::Undefined => None,
    }
}

/// The token in which a position of `kind` is rewarded; `None` for a
/// position whose kind was never recorded.
pub fn reward_mint(kind: StakingKind, mints: &RewardMints) -> (r: Option<Address>)
    ensures
        r == reward_mint_of(kind, *mints),
{
    match kind {
        StakingKind::Lm => Some(mints.lm),
        StakingKind::Lp => Some(mints.lp),
        StakingKind::Undefined => None,
    }
}

/// A claim that has come due: the position, and its staking kind, which
/// selects the reward token.
#[derive(Clone, Copy, Debug, PartialEq, Eq)]
pub struct ClaimTask {
    pub position: Address,
    pub kind: StakingKind,
}

/// The positions of a sequence of claim tasks, in order.
pub open spec fn task_positions(s: Seq<ClaimTask>) -> Seq<Seq<u8>> {
    s.map_values(|t: ClaimTask| t.position@)
}

} // verus!
