use vstd::prelude::*;
use crate::address::Address;
use crate::discriminator::{get_staking_anchor_discriminator, get_user_staking_anchor_discriminator};
use crate::filters::{
    filters_for, generate_accounts_filter_map, pool_discriminator, position_discriminator, FilterSet,
};
use crate::mirror::AccountMirror;
use crate::model::{PositionView, RewardPool, UserPosition};

verus! {

/// A decoded change to a watched account.
pub enum AccountEvent {
    /// A reward pool was created or updated.
    PoolUpdated { address: Address, pool: RewardPool },
    /// A user position was created or updated.
    PositionUpdated { address: Address, position: UserPosition },
    /// A user position was closed.
    PositionClosed { address: Address },
    /// Anything else the stream carries, such as a keepalive.
    Other,
}

/// One message taken from the stream.
pub enum StreamMessage {
    /// A message that decoded to an event.
    Event(AccountEvent),
    /// A message whose payload could not be decoded.
    Undecodable,
    /// The transport failed while delivering a message.
    TransportError,
}

/// How the processing of one stream message ended.
#[derive(Clone, Copy, Debug, PartialEq, Eq, Structural)]
pub enum Outcome {
    Success,
    /// A failure that a new connection attempt may cure.
    Retryable,
    /// A failure that ends the pipeline.
    Fatal,
}

/// The result of processing one stream message: its outcome, and the filter
/// set to send on the open stream where the watched positions changed.
pub struct StepResult {
    pub outcome: Outcome,
    pub resubscribe: Option<FilterSet>,
}

/// The reward pools after `e`.
pub open spec fn pools_after(m: Map<Seq<u8>, RewardPool>, e: AccountEvent) -> Map<Seq<u8>, RewardPool> {
    match e {
        AccountEvent::PoolUpdated { address, pool } => m.insert(address@, pool),
        _ => m,
    }
}

/// The user positions after `e`.
pub open spec fn positions_after(
    m: Map<Seq<u8>, PositionView>,
    e: AccountEvent,
) -> Map<Seq<u8>, PositionView> {
    match e {
        AccountEvent::PositionUpdated { address, position } => m.insert(address@, position@),
        AccountEvent::PositionClosed { address } => m.remove(address@),
        _ => m,
    }
}

/// The addresses of the user positions after `e`.
pub open spec fn keys_after(keys: Set<Seq<u8>>, e: AccountEvent) -> Set<Seq<u8>> {
    match e {
        AccountEvent::PositionUpdated { address, .. } => keys.insert(address@),
        AccountEvent::PositionClosed { address } => keys.remove(address@),
        _ => keys,
    }
}

/// The addresses of the user positions after each of `events` in turn.
pub open spec fn keys_after_all(keys: Set<Seq<u8>>, events: Seq<AccountEvent>) -> Set<Seq<u8>>
    decreases events.len(),
{
    if events.len() == 0 {
        keys
    } else {
        keys_after(keys_after_all(keys, events.drop_last()), events.last())
    }
}

/// `e` creates or updates the user position at `k`.
pub open spec fn upserts(e: AccountEvent, k: Seq<u8>) -> bool {
    match e {
        AccountEvent::PositionUpdated { address, .. } => address@ == k,
        _ => false,
    }
}

/// `e` closes the user position at `k`.
pub open spec fn closes(e: AccountEvent, k: Seq<u8>) -> bool {
    match e {
        AccountEvent::PositionClosed { address } => address@ == k,
        _ => false,
    }
}

/// After a sequence of events, an address holds a user position exactly when
/// some event created or updated it and no later event closed it, or it held
/// one before and no event closed it.
pub proof fn lemma_keys_after_all(keys: Set<Seq<u8>>, events: Seq<AccountEvent>)
    ensures
        forall|k: Seq<u8>| #[trigger] keys_after_all(keys, events).contains(k) <==> (
            (exists|i: int| 0 <= i < events.len() && upserts(events[i], k)
                && forall|j: int| i < j < events.len() ==> !closes(#[trigger] events[j], k))
            || (keys.contains(k) && forall|j: int| 0 <= j < events.len() ==> !closes(#[trigger] events[j], k))),
    decreases events.len(),
{
    if events.len() > 0 {
        let init = events.drop_last();
        let n = events.len() - 1;
        lemma_keys_after_all(keys, init);
        assert forall|k: Seq<u8>| #[trigger] keys_after_all(keys, events).contains(k) <==> (
            (exists|i: int| 0 <= i < events.len() && upserts(events[i], k)
                && forall|j: int| i < j < events.len() ==> !closes(#[trigger] events[j], k))
            || (keys.contains(k) && forall|j: int| 0 <= j < events.len() ==> !closes(#[trigger] events[j], k))) by {
            assert(forall|j: int| 0 <= j < n ==> init[j] == events[j]);
            let e = events[n];
            assert(e == events.last());
            if upserts(e, k) {
                assert(keys_after_all(keys, events).contains(k));
            } else if closes(e, k) {
                assert(!keys_after_all(keys, events).contains(k));
                assert forall|i: int| 0 <= i < events.len() && upserts(events[i], k) implies
                    exists|j: int| i < j < events.len() && closes(events[j], k) by {
                    assert(closes(events[n], k));
                }
            } else {
                assert(keys_after_all(keys, events).contains(k) == keys_after_all(keys, init).contains(k));
                if keys_after_all(keys, init).contains(k) {
                    if exists|i: int| 0 <= i < init.len() && upserts(init[i], k)
                        && forall|j: int| i < j < init.len() ==> !closes(#[trigger] init[j], k) {
                        let i = choose|i: int| 0 <= i < init.len() && upserts(init[i], k)
                            && forall|j: int| i < j < init.len() ==> !closes(#[trigger] init[j], k);
                        assert forall|j: int| i < j < events.len() implies !closes(#[trigger] events[j], k) by {
                            if j < n {
                                assert(init[j] == events[j]);
                            }
                        }
                    } else {
                        assert forall|j: int| 0 <= j < events.len() implies !closes(#[trigger] events[j], k) by {
                            if j < n {
                                assert(init[j] == events[j]);
                            }
                        }
                    }
                } else {
                    if exists|i: int| 0 <= i < events.len() && upserts(events[i], k)
                        && forall|j: int| i < j < events.len() ==> !closes(#[trigger] events[j], k) {
                        let i = choose|i: int| 0 <= i < events.len() && upserts(events[i], k)
                            && forall|j: int| i < j < events.len() ==> !closes(#[trigger] events[j], k);
                        assert(i < n);
                        assert(upserts(init[i], k));
                        assert forall|j: int| i < j < init.len() implies !closes(#[trigger] init[j], k) by {
                            assert(init[j] == events[j]);
                        }
                    }
                    if keys.contains(k) && forall|j: int| 0 <= j < events.len() ==> !closes(#[trigger] events[j], k) {
                        assert forall|j: int| 0 <= j < init.len() implies !closes(#[trigger] init[j], k) by {
                            assert(init[j] == events[j]);
                        }
                    }
                }
            }
        }
    }
}

/// What a raw account update from the stream is.
#[derive(Clone, Copy, Debug, PartialEq, Eq, Structural)]
pub enum UpdateKind {
    /// The account holds a reward pool.
    Pool,
    /// The account holds a user position.
    Position,
    /// The account was closed: it has no lamports or no data left.
    Closed,
    /// The account's data matches neither watched type.
    Unknown,
}

/// `data` starts with the bytes `prefix`.
pub open spec fn starts_with(data: Seq<u8>, prefix: Seq<u8>) -> bool {
    prefix.len() <= data.len() && data.subrange(0, prefix.len() as int) == prefix
}

fn has_prefix(data: &[u8], prefix: &Vec<u8>) -> (r: bool)
    ensures
        r == starts_with(data@, prefix@),
{
    if prefix.len() > data.len() {
        return false;
    }
    let mut i: usize = 0;
    while i < prefix.len()
        invariant
            prefix@.len() <= data@.len(),
            i <= prefix@.len(),
            forall|j: int| 0 <= j < i ==> data@[j] == prefix@[j],
        decreases prefix@.len() - i,
    {
        if data[i] != prefix[i] {
            assert(data@.subrange(0, prefix@.len() as int)[i as int] != prefix@[i as int]);
            return false;
        }
        i += 1;
    }
    assert(data@.subrange(0, prefix@.len() as int) =~= prefix@);
    true
}

/// Classifies a raw account update by its balance and the discriminator that
/// leads its data. A closed account keeps neither lamports nor data, so it can
/// no longer be told apart by type.
pub fn classify_account_update(lamports: u64, data: &[u8]) -> (r: UpdateKind)
    ensures
        r == if lamports == 0 || data@.len() == 0 {
            UpdateKind::Closed
        } else if starts_with(data@, pool_discriminator()) {
            UpdateKind::Pool
        } else if starts_with(data@, position_discriminator()) {
            UpdateKind::Position
        } else {
            UpdateKind::Unknown
        },
{
    if lamports == 0 || data.len() == 0 {
        UpdateKind::Closed
    } else if has_prefix(data, &get_staking_anchor_discriminator()) {
        UpdateKind::Pool
    } else if has_prefix(data, &get_user_staking_anchor_discriminator()) {
        UpdateKind::Position
    } else {
        UpdateKind::Unknown
    }
}

/// Applies one event to the mirror and recomputes the cache entry it
/// touches. Returns whether the set of watched user positions may have
/// changed, so that the filter set must be sent again: a position that is new
/// to the mirror, or a close.
/// A position of undefined staking kind is kept on this path; only the bulk
/// scan leaves such positions out.
pub fn apply_event(mirror: &mut AccountMirror, event: AccountEvent) -> (filters_dirty: bool)
    requires
        old(mirror).wf(),
    ensures
        final(mirror).wf(),
        final(mirror).caches_derived(),
        final(mirror).pools() == pools_after(old(mirror).pools(), event),
        final(mirror).positions() == positions_after(old(mirror).positions(), event),
        final(mirror).positions().dom() == keys_after(old(mirror).positions().dom(), event),
        filters_dirty == match event {
            AccountEvent::PositionUpdated { address, .. } => !old(mirror).positions().contains_key(address@),
            AccountEvent::PositionClosed { .. } => true,
            _ => false,
        },
{
    let ghost e = event;
    proof {
        mirror.lemma_wf_caches_derived();
    }
    match event {
        AccountEvent::PoolUpdated { address, pool } => {
            mirror.upsert_pool(address, pool);
            false
        },
        AccountEvent::PositionUpdated { address, position } => {
            let is_new = mirror.upsert_position(address, position);
            assert(mirror.positions().dom() =~= keys_after(old(mirror).positions().dom(), e));
            is_new
        },
        AccountEvent::PositionClosed { address } => {
            mirror.remove_position(&address);
            assert(mirror.positions().dom() =~= keys_after(old(mirror).positions().dom(), e));
            true
        },
        AccountEvent::Other => false,
    }
}

/// Processes one stream message: a transport failure is retryable, an
/// undecodable payload is fatal, and an event is applied to the mirror. Where
/// the watched positions may have changed, the filter set is rebuilt from the
/// mirror as it now stands, to be sent on the open stream.
pub fn process_stream_message(
    mirror: &mut AccountMirror,
    message: StreamMessage,
    program_id: &Address,
) -> (r: StepResult)
    requires
        old(mirror).wf(),
    ensures
        final(mirror).wf(),
        final(mirror).caches_derived(),
        match message {
            StreamMessage::TransportError => r.outcome == Outcome::Retryable && r.resubscribe is None
                && *final(mirror) == *old(mirror),
            StreamMessage::Undecodable => r.outcome == Outcome::Fatal && r.resubscribe is None
                && *final(mirror) == *old(mirror),
            StreamMessage::Event(e) => {
                &&& r.outcome == Outcome::Success
                &&& final(mirror).pools() == pools_after(old(mirror).pools(), e)
                &&& final(mirror).positions() == positions_after(old(mirror).positions(), e)
                &&& final(mirror).positions().dom() == keys_after(old(mirror).positions().dom(), e)
                &&& r.resubscribe is Some <==> match e {
                    AccountEvent::PositionUpdated { address, .. } => !old(mirror).positions().contains_key(address@),
                    AccountEvent::PositionClosed { .. } => true,
                    _ => false,
                }
            },
        },
        match r.resubscribe {
            Some(f) => filters_for(f, final(mirror).positions().dom(), program_id@),
            None => true,
        },
{
    proof {
        mirror.lemma_wf_caches_derived();
    }
    match message {
        StreamMessage::TransportError => StepResult { outcome: Outcome::Retryable, resubscribe: None },
        StreamMessage::Undecodable => StepResult { outcome: Outcome::Fatal, resubscribe: None },
        StreamMessage::Event(event) => {
            let dirty = apply_event(mirror, event);
            if dirty {
                let f = generate_accounts_filter_map(mirror, program_id);
                StepResult { outcome: Outcome::Success, resubscribe: Some(f) }
            } else {
                StepResult { outcome: Outcome::Success, resubscribe: None }
            }
        },
    }
}

} // verus!
