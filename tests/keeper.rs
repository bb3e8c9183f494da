use staking_keeper::address::Address;
use staking_keeper::discriminator::{
    derive_discriminator, get_staking_anchor_discriminator, get_user_staking_anchor_discriminator,
};
use staking_keeper::events::{
    apply_event, classify_account_update, process_stream_message, AccountEvent, Outcome,
    StreamMessage, UpdateKind,
};
use staking_keeper::filters::{generate_accounts_filter_map, FilterSet};
use staking_keeper::mirror::AccountMirror;
use staking_keeper::model::{
    compute_earliest_claim, compute_next_resolve_time, LockedStake, RewardPool, StakingKind,
    UserPosition,
};
use staking_keeper::scheduler::{is_claim_due, is_resolve_due, reward_mint, RewardMints};

fn addr(b: u8) -> Address {
    Address::new([b; 32])
}

fn stake(amount: u64, claim_time: Option<i64>) -> LockedStake {
    LockedStake { amount, claim_time }
}

fn position(kind: StakingKind, claims: &[Option<i64>]) -> UserPosition {
    UserPosition {
        kind,
        locked_stakes: claims.iter().map(|c| stake(10, *c)).collect(),
    }
}

fn close_list(f: &FilterSet) -> Vec<Address> {
    let mut v = f.groups[2].filter.accounts.clone();
    v.sort_by_key(|a| a.bytes);
    v
}

fn sorted(mut v: Vec<Address>) -> Vec<Address> {
    v.sort_by_key(|a| a.bytes);
    v
}

#[test]
fn staking_discriminator_is_hash_prefix() {
    let digest = solana_sdk::hash::hash(b"account:Staking").to_bytes();
    assert_eq!(get_staking_anchor_discriminator(), digest[..8].to_vec());
}

#[test]
fn user_staking_discriminator_is_hash_prefix() {
    let digest = solana_sdk::hash::hash(b"account:UserStaking").to_bytes();
    assert_eq!(get_user_staking_anchor_discriminator(), digest[..8].to_vec());
    assert_eq!(derive_discriminator("UserStaking"), get_user_staking_anchor_discriminator());
    assert_ne!(get_staking_anchor_discriminator(), get_user_staking_anchor_discriminator());
}

#[test]
fn address_same_compares_bytes() {
    assert!(addr(3).same(&addr(3)));
    let mut b = [3u8; 32];
    b[31] = 4;
    assert!(!addr(3).same(&Address::new(b)));
}

#[test]
fn earliest_claim_is_minimum_pending() {
    let stakes = vec![stake(1, Some(300)), stake(2, None), stake(3, Some(100)), stake(4, Some(200))];
    assert_eq!(compute_earliest_claim(&stakes), Some(100));
    assert_eq!(compute_earliest_claim(&vec![stake(1, None)]), None);
    assert_eq!(compute_earliest_claim(&vec![]), None);
}

#[test]
fn claim_cache_follows_position_updates() {
    let mut m = AccountMirror::new();
    let a = addr(1);
    apply_event(&mut m, AccountEvent::PositionUpdated {
        address: a,
        position: position(StakingKind::Lm, &[Some(100), Some(200)]),
    });
    assert_eq!(m.get_claim_time(&a), Some(Some(100)));
    apply_event(&mut m, AccountEvent::PositionUpdated {
        address: a,
        position: position(StakingKind::Lm, &[None, Some(200)]),
    });
    assert_eq!(m.get_claim_time(&a), Some(Some(200)));
    apply_event(&mut m, AccountEvent::PositionUpdated {
        address: a,
        position: position(StakingKind::Lm, &[None, None]),
    });
    assert_eq!(m.get_claim_time(&a), Some(None));
    apply_event(&mut m, AccountEvent::PositionClosed { address: a });
    assert_eq!(m.get_claim_time(&a), None);
}

#[test]
fn resolve_time_is_round_start_plus_duration() {
    let t0: i64 = 1_700_000_000;
    let pool = RewardPool { round_start: t0, min_round_duration: 3600 };
    assert_eq!(compute_next_resolve_time(&pool), (t0 + 3600) as i128);
    assert_eq!(compute_next_resolve_time(&pool), compute_next_resolve_time(&pool));
    let big = RewardPool { round_start: i64::MAX, min_round_duration: i64::MAX };
    assert_eq!(compute_next_resolve_time(&big), 2 * (i64::MAX as i128));
}

#[test]
fn resolve_fires_at_deadline_and_after() {
    let t0: i64 = 1_700_000_000;
    let p = addr(9);
    let mut m = AccountMirror::new();
    apply_event(&mut m, AccountEvent::PoolUpdated {
        address: p,
        pool: RewardPool { round_start: t0, min_round_duration: 3600 },
    });
    assert_eq!(m.get_resolve_time(&p), Some((t0 + 3600) as i128));
    assert!(m.due_resolves(t0 + 3599).is_empty());
    assert_eq!(m.due_resolves(t0 + 3600), vec![p]);
    assert_eq!(m.due_resolves(t0 + 3601), vec![p]);
    assert_eq!(m.due_resolves(t0 + 3601), vec![p]);
    apply_event(&mut m, AccountEvent::PoolUpdated {
        address: p,
        pool: RewardPool { round_start: t0 + 3600, min_round_duration: 3600 },
    });
    assert!(m.due_resolves(t0 + 3601).is_empty());
    assert!(!is_resolve_due((t0 + 3600) as i128, t0 + 3599));
    assert!(is_resolve_due((t0 + 3600) as i128, t0 + 3600));
}

#[test]
fn claim_fires_after_threshold() {
    let l: i64 = 1_000;
    let d: i64 = 3600;
    let threshold = 25 * d;
    assert!(!is_claim_due(Some(l), l + threshold - 1, d));
    assert!(is_claim_due(Some(l), l + threshold, d));
    assert!(is_claim_due(Some(l), l + threshold + 1, d));
    assert!(!is_claim_due(None, i64::MAX, d));

    let mut m = AccountMirror::new();
    let a = addr(1);
    let b = addr(2);
    apply_event(&mut m, AccountEvent::PositionUpdated {
        address: a,
        position: position(StakingKind::Lp, &[Some(l)]),
    });
    apply_event(&mut m, AccountEvent::PositionUpdated {
        address: b,
        position: position(StakingKind::Lm, &[None]),
    });
    assert!(m.due_claims(l + threshold - 1, d).is_empty());
    let due = m.due_claims(l + threshold, d);
    assert_eq!(due.len(), 1);
    assert_eq!(due[0].position, a);
    assert_eq!(due[0].kind, StakingKind::Lp);
}

#[test]
fn reward_mint_follows_kind() {
    let mints = RewardMints { lm: addr(7), lp: addr(8) };
    assert_eq!(reward_mint(StakingKind::Lm, &mints), Some(addr(7)));
    assert_eq!(reward_mint(StakingKind::Lp, &mints), Some(addr(8)));
    assert_eq!(reward_mint(StakingKind::Undefined, &mints), None);
}

#[test]
fn bootstrap_drops_undefined_positions() {
    let program = addr(100);
    let mut m = AccountMirror::new();
    let pools = vec![(addr(50), RewardPool { round_start: 10, min_round_duration: 5 })];
    let positions = vec![
        (addr(1), position(StakingKind::Undefined, &[Some(5)])),
        (addr(2), position(StakingKind::Lm, &[Some(7)])),
    ];
    let dropped = m.merge_bootstrap(&pools, &positions);
    assert_eq!(dropped, 1);
    assert!(m.get_position(&addr(1)).is_none());
    assert_eq!(m.get_claim_time(&addr(1)), None);
    assert_eq!(m.get_claim_time(&addr(2)), Some(Some(7)));
    assert_eq!(m.get_resolve_time(&addr(50)), Some(15));
    assert_eq!(m.get_pool(&addr(50)), Some(RewardPool { round_start: 10, min_round_duration: 5 }));
    let f = generate_accounts_filter_map(&m, &program);
    assert_eq!(close_list(&f), vec![addr(2)]);
}

#[test]
fn bootstrap_merges_into_existing_mirror() {
    let mut m = AccountMirror::new();
    apply_event(&mut m, AccountEvent::PositionUpdated {
        address: addr(1),
        position: position(StakingKind::Lm, &[Some(1)]),
    });
    let positions = vec![
        (addr(2), position(StakingKind::Lp, &[Some(2)])),
        (addr(2), position(StakingKind::Lp, &[Some(3)])),
    ];
    assert_eq!(m.merge_bootstrap(&vec![], &positions), 0);
    assert_eq!(m.get_claim_time(&addr(1)), Some(Some(1)));
    assert_eq!(m.get_claim_time(&addr(2)), Some(Some(3)));
    assert_eq!(sorted(m.position_keys()), vec![addr(1), addr(2)]);
}

#[test]
fn refresh_keeps_caches() {
    let mut m = AccountMirror::new();
    apply_event(&mut m, AccountEvent::PositionUpdated {
        address: addr(1),
        position: position(StakingKind::Lm, &[Some(40), Some(30)]),
    });
    apply_event(&mut m, AccountEvent::PoolUpdated {
        address: addr(2),
        pool: RewardPool { round_start: 100, min_round_duration: 50 },
    });
    m.refresh_caches();
    m.refresh_caches();
    assert_eq!(m.get_claim_time(&addr(1)), Some(Some(30)));
    assert_eq!(m.get_resolve_time(&addr(2)), Some(150));
}

#[test]
fn position_keys_follow_create_update_close() {
    let mut m = AccountMirror::new();
    let (a, b) = (addr(1), addr(2));
    apply_event(&mut m, AccountEvent::PositionUpdated { address: a, position: position(StakingKind::Lm, &[]) });
    apply_event(&mut m, AccountEvent::PositionUpdated { address: b, position: position(StakingKind::Lp, &[]) });
    apply_event(&mut m, AccountEvent::PositionClosed { address: a });
    assert_eq!(sorted(m.position_keys()), vec![b]);
    apply_event(&mut m, AccountEvent::PositionUpdated { address: a, position: position(StakingKind::Lm, &[]) });
    apply_event(&mut m, AccountEvent::Other);
    assert_eq!(sorted(m.position_keys()), vec![a, b]);
    apply_event(&mut m, AccountEvent::PositionClosed { address: addr(3) });
    assert_eq!(sorted(m.position_keys()), vec![a, b]);
}

#[test]
fn stream_messages_are_classified() {
    let program = addr(100);
    let mut m = AccountMirror::new();
    let r = process_stream_message(&mut m, StreamMessage::TransportError, &program);
    assert_eq!(r.outcome, Outcome::Retryable);
    assert!(r.resubscribe.is_none());
    let r = process_stream_message(&mut m, StreamMessage::Undecodable, &program);
    assert_eq!(r.outcome, Outcome::Fatal);
    assert!(r.resubscribe.is_none());
    let r = process_stream_message(&mut m, StreamMessage::Event(AccountEvent::Other), &program);
    assert_eq!(r.outcome, Outcome::Success);
    assert!(r.resubscribe.is_none());
}

#[test]
fn filters_are_rebuilt_when_positions_change() {
    let program = addr(100);
    let mut m = AccountMirror::new();
    let new_position = StreamMessage::Event(AccountEvent::PositionUpdated {
        address: addr(1),
        position: position(StakingKind::Lm, &[Some(1)]),
    });
    let r = process_stream_message(&mut m, new_position, &program);
    assert_eq!(r.outcome, Outcome::Success);
    let f = r.resubscribe.expect("a new position changes the filters");
    assert_eq!(close_list(&f), vec![addr(1)]);

    let update = StreamMessage::Event(AccountEvent::PositionUpdated {
        address: addr(1),
        position: position(StakingKind::Lm, &[Some(2)]),
    });
    assert!(process_stream_message(&mut m, update, &program).resubscribe.is_none());

    let pool = StreamMessage::Event(AccountEvent::PoolUpdated {
        address: addr(50),
        pool: RewardPool { round_start: 0, min_round_duration: 1 },
    });
    assert!(process_stream_message(&mut m, pool, &program).resubscribe.is_none());

    let second = StreamMessage::Event(AccountEvent::PositionUpdated {
        address: addr(2),
        position: position(StakingKind::Lp, &[]),
    });
    let f = process_stream_message(&mut m, second, &program).resubscribe.unwrap();
    assert_eq!(close_list(&f), vec![addr(1), addr(2)]);

    let close = StreamMessage::Event(AccountEvent::PositionClosed { address: addr(1) });
    let f = process_stream_message(&mut m, close, &program).resubscribe.unwrap();
    assert_eq!(close_list(&f), vec![addr(2)]);
}

#[test]
fn filter_set_groups() {
    let program = addr(100);
    let m = AccountMirror::new();
    let f = generate_accounts_filter_map(&m, &program);
    assert_eq!(f.groups.len(), 3);
    assert_eq!(f.groups[0].name, "staking_create_update");
    assert_eq!(f.groups[0].filter.owners, vec![program]);
    assert!(f.groups[0].filter.accounts.is_empty());
    assert_eq!(f.groups[0].filter.memcmp.len(), 1);
    assert_eq!(f.groups[0].filter.memcmp[0].offset, 0);
    assert_eq!(f.groups[0].filter.memcmp[0].bytes, get_staking_anchor_discriminator());
    assert_eq!(f.groups[1].name, "user_staking_create_update");
    assert_eq!(f.groups[1].filter.owners, vec![program]);
    assert_eq!(f.groups[1].filter.memcmp[0].bytes, get_user_staking_anchor_discriminator());
    assert_eq!(f.groups[2].name, "user_staking_close");
    assert!(f.groups[2].filter.accounts.is_empty());
    assert!(f.groups[2].filter.owners.is_empty());
    assert!(f.groups[2].filter.memcmp.is_empty());
}

#[test]
fn account_updates_are_classified() {
    let mut pool_data = get_staking_anchor_discriminator();
    pool_data.extend_from_slice(&[1, 2, 3]);
    let mut position_data = get_user_staking_anchor_discriminator();
    position_data.push(9);
    assert_eq!(classify_account_update(1_000, &pool_data), UpdateKind::Pool);
    assert_eq!(classify_account_update(1_000, &position_data), UpdateKind::Position);
    assert_eq!(classify_account_update(0, &position_data), UpdateKind::Closed);
    assert_eq!(classify_account_update(1_000, &[]), UpdateKind::Closed);
    assert_eq!(classify_account_update(1_000, &[0u8; 16]), UpdateKind::Unknown);
    assert_eq!(classify_account_update(1_000, &pool_data[..7]), UpdateKind::Unknown);
}
