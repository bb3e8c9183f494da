use vstd::prelude::*;
use crate::address::{addresses_of, Address};
use crate::scheduler::{
    claim_due, is_claim_due, is_resolve_due, resolve_due, task_positions, ClaimTask,
};
use crate::model::{
    lemma_earliest_claim_is_minimum, compute_earliest_claim, compute_next_resolve_time, earliest_claim, next_resolve_time,
    PositionView, RewardPool, UserPosition,
};

verus! {

/// A reward pool held by the mirror, with its cached resolve time.
pub struct PoolEntry {
    pub address: Address,
    pub pool: RewardPool,
    pub next_resolve_time: i128,
}

/// A user position held by the mirror, with its cached earliest claim time.
pub struct PositionEntry {
    pub address: Address,
    pub position: UserPosition,
    pub claim_time: Option<i64>,
}

/// The in-memory mirror of the reward pools and user positions, keyed by
/// address, together with the two caches derived from it: the time at which
/// each pool's round is due to be resolved, and the earliest pending claim
/// time of each position.
pub struct AccountMirror {
    pools: Vec<PoolEntry>,
    positions: Vec<PositionEntry>,
    pool_map: Ghost<Map<Seq<u8>, RewardPool>>,
    position_map: Ghost<Map<Seq<u8>, PositionView>>,
    resolve_map: Ghost<Map<Seq<u8>, int>>,
    claim_map: Ghost<Map<Seq<u8>, Option<i64>>>,
}

impl AccountMirror {
    /// The reward pools, by address.
    pub closed spec fn pools(&self) -> Map<Seq<u8>, RewardPool> {
        self.pool_map@
    }

    /// The user positions, by address.
    pub closed spec fn positions(&self) -> Map<Seq<u8>, PositionView> {
        self.position_map@
    }

    /// The resolve-time cache: for each pool, when its round is due.
    pub closed spec fn resolve_cache(&self) -> Map<Seq<u8>, int> {
        self.resolve_map@
    }

    /// The claim cache: for each position, its earliest pending claim time.
    pub closed spec fn claim_cache(&self) -> Map<Seq<u8>, Option<i64>> {
        self.claim_map@
    }

    /// Each cache holds exactly the value derived from the account it is
    /// keyed by, and nothing else.
    pub open spec fn caches_derived(&self) -> bool {
        &&& self.resolve_cache().dom() == self.pools().dom()
        &&& forall|k: Seq<u8>| #[trigger] self.pools().contains_key(k)
            ==> self.resolve_cache()[k] == next_resolve_time(self.pools()[k])
        &&& self.claim_cache().dom() == self.positions().dom()
        &&& forall|k: Seq<u8>| #[trigger] self.positions().contains_key(k)
            ==> self.claim_cache()[k] == earliest_claim(self.positions()[k].stakes)
    }

    /// The address of the `i`-th pool entry.
    pub closed spec fn pool_key(&self, i: int) -> Seq<u8> {
        self.pools@[i].address@
    }

    /// The address of the `i`-th position entry.
    pub closed spec fn position_key(&self, i: int) -> Seq<u8> {
        self.positions@[i].address@
    }

    /// Pool entries have distinct addresses and agree with the pool map and
    /// the resolve-time map.
    pub closed spec fn pools_wf(&self) -> bool {
        &&& forall|i: int, j: int|
            0 <= i < j < self.pools@.len() ==> self.pool_key(i) != self.pool_key(j)
        &&& forall|i: int| 0 <= i < self.pools@.len() ==> {
            &&& self.pool_map@.contains_key(#[trigger] self.pool_key(i))
            &&& self.pool_map@[self.pool_key(i)] == self.pools@[i].pool
            &&& self.resolve_map@[self.pool_key(i)] == self.pools@[i].next_resolve_time as int
        }
        &&& forall|k: Seq<u8>| #[trigger] self.pool_map@.contains_key(k)
            ==> exists|i: int| 0 <= i < self.pools@.len() && self.pool_key(i) == k
    }

    /// Position entries have distinct addresses and agree with the position
    /// map and the claim map.
    pub closed spec fn positions_wf(&self) -> bool {
        &&& forall|i: int, j: int|
            0 <= i < j < self.positions@.len() ==> self.position_key(i) != self.position_key(j)
        &&& forall|i: int| 0 <= i < self.positions@.len() ==> {
            &&& self.position_map@.contains_key(#[trigger] self.position_key(i))
            &&& self.position_map@[self.position_key(i)] == self.positions@[i].position@
            &&& self.claim_map@[self.position_key(i)] == self.positions@[i].claim_time
        }
        &&& forall|k: Seq<u8>| #[trigger] self.position_map@.contains_key(k)
            ==> exists|i: int| 0 <= i < self.positions@.len() && self.position_key(i) == k
    }

    /// The mirror's invariant: unique addresses, entries in step with the
    /// maps, and caches derived from the accounts.
    pub closed spec fn wf(&self) -> bool {
        &&& self.pools_wf()
        &&& self.positions_wf()
        &&& self.caches_derived()
    }

    /// An empty mirror.
    pub fn new() -> (r: AccountMirror)
        ensures
            r.wf(),
            r.caches_derived(),
            r.pools() == Map::<Seq<u8>, RewardPool>::empty(),
            r.positions() == Map::<Seq<u8>, PositionView>::empty(),
    {
        AccountMirror {
            pools: Vec::new(),
            positions: Vec::new(),
            pool_map: Ghost(Map::empty()),
            position_map: Ghost(Map::empty()),
            resolve_map: Ghost(Map::empty()),
            claim_map: Ghost(Map::empty()),
        }
    }

    /// A well-formed mirror keeps its caches derived from its accounts.
    pub proof fn lemma_wf_caches_derived(&self)
        requires
            self.wf(),
        ensures
            self.caches_derived(),
    {
    }

    /// The caches are a function of the accounts alone: two well-formed
    /// mirrors that hold the same pools and positions hold the same caches,
    /// however each came to be.
    pub proof fn lemma_caches_determined_by_accounts(a: &AccountMirror, b: &AccountMirror)
        requires
            a.wf(),
            b.wf(),
            a.pools() == b.pools(),
            a.positions() == b.positions(),
        ensures
            a.resolve_cache() == b.resolve_cache(),
            a.claim_cache() == b.claim_cache(),
    {
        assert(a.resolve_cache() =~= b.resolve_cache());
        assert(a.claim_cache() =~= b.claim_cache());
    }

    /// The claim cache entry of a position is the minimum of its pending
    /// claim times: absent exactly when no stake has a claim pending.
    pub proof fn lemma_claim_cache_is_minimum(&self, k: Seq<u8>)
        requires
            self.wf(),
            self.positions().contains_key(k),
        ensures
            self.claim_cache().contains_key(k),
            self.claim_cache()[k] is None <==> (forall|i: int|
                0 <= i < self.positions()[k].stakes.len()
                    ==> (#[trigger] self.positions()[k].stakes[i]).claim_time is None),
            self.claim_cache()[k] is Some ==> (exists|i: int|
                0 <= i < self.positions()[k].stakes.len()
                    && (#[trigger] self.positions()[k].stakes[i]).claim_time == self.claim_cache()[k]),
            forall|i: int|
                0 <= i < self.positions()[k].stakes.len()
                    && (#[trigger] self.positions()[k].stakes[i]).claim_time is Some
                    ==> self.claim_cache()[k] is Some
                    && self.claim_cache()[k]->0 <= self.positions()[k].stakes[i].claim_time->0,
    {
        lemma_earliest_claim_is_minimum(self.positions()[k].stakes);
    }

    fn find_pool(&self, address: &Address) -> (r: Option<usize>)
        requires
            self.wf(),
        ensures
            match r {
                Some(i) => i < self.pools@.len() && self.pool_key(i as int) == address@,
                None => !self.pools().contains_key(address@),
            },
    {
        let mut i: usize = 0;
        while i < self.pools.len()
            invariant
                i <= self.pools@.len(),
                forall|j: int| 0 <= j < i ==> self.pool_key(j) != address@,
            decreases self.pools@.len() - i,
        {
            if self.pools[i].address.same(address) {
                return Some(i);
            }
            i += 1;
        }
        None
    }

    fn find_position(&self, address: &Address) -> (r: Option<usize>)
        requires
            self.wf(),
        ensures
            match r {
                Some(i) => i < self.positions@.len() && self.position_key(i as int) == address@,
                None => !self.positions().contains_key(address@),
            },
    {
        let mut i: usize = 0;
        while i < self.positions.len()
            invariant
                i <= self.positions@.len(),
                forall|j: int| 0 <= j < i ==> self.position_key(j) != address@,
            decreases self.positions@.len() - i,
        {
            if self.positions[i].address.same(address) {
                return Some(i);
            }
            i += 1;
        }
        None
    }

    /// Inserts or replaces the reward pool at `address` and recomputes its
    /// resolve time.
    pub fn upsert_pool(&mut self, address: Address, pool: RewardPool)
        requires
            old(self).wf(),
        ensures
            final(self).wf(),
            final(self).caches_derived(),
            final(self).pools() == old(self).pools().insert(address@, pool),
            final(self).positions() == old(self).positions(),
            final(self).claim_cache() == old(self).claim_cache(),
            final(self).resolve_cache() == old(self).resolve_cache().insert(
                address@,
                next_resolve_time(pool),
            ),
    {
        let t = compute_next_resolve_time(&pool);
        let ghost old_self = *self;
        let found = self.find_pool(&address);
        match found {
            Some(i) => {
                self.pools[i] = PoolEntry { address, pool, next_resolve_time: t };
            },
            None => {
                self.pools.push(PoolEntry { address, pool, next_resolve_time: t });
            },
        }
        self.pool_map = Ghost(self.pool_map@.insert(address@, pool));
        self.resolve_map = Ghost(self.resolve_map@.insert(address@, t as int));
        proof {
            assert(self.positions_wf()) by {
                assert forall|i: int| 0 <= i < self.positions@.len() implies
                    #[trigger] self.position_key(i) == old_self.position_key(i) by {}
                assert forall|i: int, j: int|
            0 <= i < j < self.positions@.len() implies self.position_key(i) != self.position_key(j) by {
                    assert(old_self.position_key(i) != old_self.position_key(j));
                }
                assert forall|k: Seq<u8>| #[trigger] self.position_map@.contains_key(k)
            implies exists|i: int| 0 <= i < self.positions@.len() && self.position_key(i) == k by {
                    let i = choose|i: int| 0 <= i < old_self.positions@.len() && old_self.position_key(i) == k;
                    assert(self.position_key(i) == k);
                }
            }
            assert forall|i: int, j: int| 0 <= i < j < self.pools@.len() implies
                self.pool_key(i) != self.pool_key(j) by {
                if found is None {
                    if j == self.pools@.len() - 1 {
                        assert(old_self.pool_map@.contains_key(old_self.pool_key(i)));
                    } else {
                        assert(old_self.pool_key(i) != old_self.pool_key(j));
                    }
                } else {
                    assert(old_self.pool_key(i) != old_self.pool_key(j));
                }
            }
            assert forall|i: int| 0 <= i < self.pools@.len() implies {
                &&& self.pool_map@.contains_key(#[trigger] self.pool_key(i))
                &&& self.pool_map@[self.pool_key(i)] == self.pools@[i].pool
                &&& self.resolve_map@[self.pool_key(i)] == self.pools@[i].next_resolve_time as int
            } by {
                if self.pool_key(i) != address@ {
                    assert(self.pools@[i] == old_self.pools@[i]);
                    assert(old_self.pool_map@.contains_key(old_self.pool_key(i)));
                } else {
                    match found {
                        Some(f) => {
                            if i != f as int {
                                assert(self.pools@[i] == old_self.pools@[i]);
                                assert(old_self.pool_key(i) == old_self.pool_key(f as int));
                            }
                        },
                        None => {
                            if i != self.pools@.len() - 1 {
                                assert(self.pools@[i] == old_self.pools@[i]);
                                assert(old_self.pool_map@.contains_key(old_self.pool_key(i)));
                            }
                        },
                    }
                }
            }
            assert forall|k: Seq<u8>| #[trigger] self.pool_map@.contains_key(k) implies
                exists|i: int| 0 <= i < self.pools@.len() && self.pool_key(i) == k by {
                if k == address@ {
                    match found {
                        Some(i) => assert(self.pool_key(i as int) == k),
                        None => assert(self.pool_key(self.pools@.len() - 1) == k),
                    }
                } else {
                    let i = choose|i: int|
                        0 <= i < old_self.pools@.len() && old_self.pool_key(i) == k;
                    assert(self.pool_key(i) == k);
                }
            }
        }
    }

    /// Inserts or replaces the user position at `address` and recomputes its
    /// claim time. Returns whether the address is new to the mirror.
    pub fn upsert_position(&mut self, address: Address, position: UserPosition) -> (is_new: bool)
        requires
            old(self).wf(),
        ensures
            final(self).wf(),
            final(self).caches_derived(),
            is_new == !old(self).positions().contains_key(address@),
            final(self).positions() == old(self).positions().insert(address@, position@),
            final(self).pools() == old(self).pools(),
            final(self).resolve_cache() == old(self).resolve_cache(),
            final(self).claim_cache() == old(self).claim_cache().insert(
                address@,
                earliest_claim(position@.stakes),
            ),
    {
        let c = compute_earliest_claim(&position.locked_stakes);
        let ghost view = position@;
        let ghost old_self = *self;
        let found = self.find_position(&address);
        match found {
            Some(i) => {
                self.positions[i] = PositionEntry { address, position, claim_time: c };
            },
            None => {
                self.positions.push(PositionEntry { address, position, claim_time: c });
            },
        }
        self.position_map = Ghost(self.position_map@.insert(address@, view));
        self.claim_map = Ghost(self.claim_map@.insert(address@, c));
        proof {
            assert(self.pools_wf()) by {
                assert forall|i: int| 0 <= i < self.pools@.len() implies
                    #[trigger] self.pool_key(i) == old_self.pool_key(i) by {}
                assert forall|i: int, j: int|
            0 <= i < j < self.pools@.len() implies self.pool_key(i) != self.pool_key(j) by {
                    assert(old_self.pool_key(i) != old_self.pool_key(j));
                }
                assert forall|k: Seq<u8>| #[trigger] self.pool_map@.contains_key(k)
            implies exists|i: int| 0 <= i < self.pools@.len() && self.pool_key(i) == k by {
                    let i = choose|i: int| 0 <= i < old_self.pools@.len() && old_self.pool_key(i) == k;
                    assert(self.pool_key(i) == k);
                }
            }
            assert forall|i: int, j: int| 0 <= i < j < self.positions@.len() implies
                self.position_key(i) != self.position_key(j) by {
                if found is None {
                    if j == self.positions@.len() - 1 {
                        assert(old_self.position_map@.contains_key(old_self.position_key(i)));
                    } else {
                        assert(old_self.position_key(i) != old_self.position_key(j));
                    }
                } else {
                    assert(old_self.position_key(i) != old_self.position_key(j));
                }
            }
            assert forall|i: int| 0 <= i < self.positions@.len() implies {
                &&& self.position_map@.contains_key(#[trigger] self.position_key(i))
                &&& self.position_map@[self.position_key(i)] == self.positions@[i].position@
                &&& self.claim_map@[self.position_key(i)] == self.positions@[i].claim_time
            } by {
                if self.position_key(i) != address@ {
                    assert(self.positions@[i] == old_self.positions@[i]);
                    assert(old_self.position_map@.contains_key(old_self.position_key(i)));
                } else {
                    match found {
                        Some(f) => {
                            if i != f as int {
                                assert(self.positions@[i] == old_self.positions@[i]);
                                assert(old_self.position_key(i) == old_self.position_key(f as int));
                            }
                        },
                        None => {
                            if i != self.positions@.len() - 1 {
                                assert(self.positions@[i] == old_self.positions@[i]);
                                assert(old_self.position_map@.contains_key(old_self.position_key(i)));
                            }
                        },
                    }
                }
            }
            assert forall|k: Seq<u8>| #[trigger] self.position_map@.contains_key(k) implies
                exists|i: int| 0 <= i < self.positions@.len() && self.position_key(i) == k by {
                if k == address@ {
                    match found {
                        Some(i) => assert(self.position_key(i as int) == k),
                        None => assert(self.position_key(self.positions@.len() - 1) == k),
                    }
                } else {
                    let i = choose|i: int|
                        0 <= i < old_self.positions@.len() && old_self.position_key(i) == k;
                    assert(self.position_key(i) == k);
                }
            }
        }
        found.is_none()
    }

    /// The addresses of the user positions, each once. This is the list that
    /// close events are watched for.
    pub fn position_keys(&self) -> (r: Vec<Address>)
        requires
            self.wf(),
        ensures
            addresses_of(r@).no_duplicates(),
            addresses_of(r@).to_set() == self.positions().dom(),
    {
        let mut r: Vec<Address> = Vec::new();
        let mut i: usize = 0;
        while i < self.positions.len()
            invariant
                self.wf(),
                i <= self.positions@.len(),
                r@.len() == i,
                forall|j: int| 0 <= j < i ==> #[trigger] r@[j]@ == self.position_key(j),
            decreases self.positions@.len() - i,
        {
            r.push(self.positions[i].address);
            i += 1;
        }
        let ghost keys = addresses_of(r@);
        assert forall|a: int, b: int| 0 <= a < keys.len() && 0 <= b < keys.len() && a != b
            implies keys[a] != keys[b] by {
            if a < b {
                assert(self.position_key(a) != self.position_key(b));
            } else {
                assert(self.position_key(b) != self.position_key(a));
            }
        }
        assert forall|k: Seq<u8>| keys.to_set().contains(k) <==> self.positions().contains_key(k) by {
            if self.positions().contains_key(k) {
                let j = choose|j: int| 0 <= j < self.positions@.len() && self.position_key(j) == k;
                assert(keys[j] == k);
            }
            if keys.to_set().contains(k) {
                let j = choose|j: int| 0 <= j < keys.len() && keys[j] == k;
                assert(self.position_map@.contains_key(self.position_key(j)));
            }
        }
        assert(keys.to_set() =~= self.positions().dom());
        r
    }

    /// The user position at `address`, if the mirror holds one.
    pub fn get_position(&self, address: &Address) -> (r: Option<&UserPosition>)
        requires
            self.wf(),
        ensures
            match r {
                Some(p) => self.positions().contains_key(address@) && self.positions()[address@] == p@,
                None => !self.positions().contains_key(address@),
            },
    {
        match self.find_position(address) {
            Some(i) => Some(&self.positions[i].position),
            None => None,
        }
    }

    /// The reward pool at `address`, if the mirror holds one.
    pub fn get_pool(&self, address: &Address) -> (r: Option<RewardPool>)
        requires
            self.wf(),
        ensures
            match r {
                Some(p) => self.pools().contains_key(address@) && self.pools()[address@] == p,
                None => !self.pools().contains_key(address@),
            },
    {
        match self.find_pool(address) {
            Some(i) => Some(self.pools[i].pool),
            None => None,
        }
    }

    /// The cached claim time of the position at `address`: `None` where the
    /// mirror holds no such position.
    pub fn get_claim_time(&self, address: &Address) -> (r: Option<Option<i64>>)
        requires
            self.wf(),
        ensures
            match r {
                Some(c) => self.claim_cache().contains_key(address@) && self.claim_cache()[address@] == c,
                None => !self.claim_cache().contains_key(address@),
            },
    {
        match self.find_position(address) {
            Some(i) => Some(self.positions[i].claim_time),
            None => None,
        }
    }

    /// The cached resolve time of the pool at `address`: `None` where the
    /// mirror holds no such pool.
    pub fn get_resolve_time(&self, address: &Address) -> (r: Option<i128>)
        requires
            self.wf(),
        ensures
            match r {
                Some(t) => self.resolve_cache().contains_key(address@)
                    && self.resolve_cache()[address@] == t as int,
                None => !self.resolve_cache().contains_key(address@),
            },
    {
        match self.find_pool(address) {
            Some(i) => Some(self.pools[i].next_resolve_time),
            None => None,
        }
    }

    /// The pools whose round is due to be resolved at `now`, each once.
    pub fn due_resolves(&self, now: i64) -> (r: Vec<Address>)
        requires
            self.wf(),
        ensures
            addresses_of(r@).no_duplicates(),
            forall|k: Seq<u8>| #[trigger] addresses_of(r@).contains(k) <==> (
                self.resolve_cache().contains_key(k)
                && resolve_due(self.resolve_cache()[k], now as int)),
    {
        let mut r: Vec<Address> = Vec::new();
        let ghost mut idx: Seq<int> = Seq::empty();
        let mut i: usize = 0;
        while i < self.pools.len()
            invariant
                self.wf(),
                i <= self.pools@.len(),
                idx.len() == r@.len(),
                forall|j: int| 0 <= j < idx.len() ==> 0 <= #[trigger] idx[j] < i
                    && r@[j]@ == self.pool_key(idx[j])
                    && resolve_due(self.pools@[idx[j]].next_resolve_time as int, now as int),
                forall|a: int, b: int| 0 <= a < b < idx.len() ==> idx[a] < idx[b],
                forall|j: int| 0 <= j < i && resolve_due(self.pools@[j].next_resolve_time as int, now as int)
                    ==> exists|m: int| 0 <= m < idx.len() && idx[m] == j,
            decreases self.pools@.len() - i,
        {
            let ghost prev = idx;
            if is_resolve_due(self.pools[i].next_resolve_time, now) {
                r.push(self.pools[i].address);
                proof { idx = idx.push(i as int); }
            }
            proof {
                assert forall|j: int| 0 <= j <= i && resolve_due(self.pools@[j].next_resolve_time as int, now as int)
                    implies exists|m: int| 0 <= m < idx.len() && idx[m] == j by {
                    if j < i {
                        let m = choose|m: int| 0 <= m < prev.len() && prev[m] == j;
                        assert(idx[m] == j);
                    } else {
                        assert(idx[idx.len() - 1] == j);
                    }
                }
            }
            i += 1;
        }
        let ghost keys = addresses_of(r@);
        assert forall|a: int, b: int| 0 <= a < keys.len() && 0 <= b < keys.len() && a != b
            implies keys[a] != keys[b] by {
            if a < b {
                assert(self.pool_key(idx[a]) != self.pool_key(idx[b]));
            } else {
                assert(self.pool_key(idx[b]) != self.pool_key(idx[a]));
            }
        }
        assert forall|k: Seq<u8>| #[trigger] keys.contains(k) <==> (
            self.resolve_cache().contains_key(k) && resolve_due(self.resolve_cache()[k], now as int)) by {
            if keys.contains(k) {
                let j = choose|j: int| 0 <= j < keys.len() && keys[j] == k;
                assert(self.pool_map@.contains_key(self.pool_key(idx[j])));
            }
            if self.resolve_cache().contains_key(k) && resolve_due(self.resolve_cache()[k], now as int) {
                let j = choose|j: int| 0 <= j < self.pools@.len() && self.pool_key(j) == k;
                assert(self.pool_map@.contains_key(self.pool_key(j)));
                let m = choose|m: int| 0 <= m < idx.len() && idx[m] == j;
                assert(keys[m] == k);
            }
        }
        r
    }

    /// The positions whose earliest pending claim has waited out the
    /// auto-claim threshold at `now`, each once, with their staking kind.
    pub fn due_claims(&self, now: i64, min_round_duration: i64) -> (r: Vec<ClaimTask>)
        requires
            self.wf(),
        ensures
            task_positions(r@).no_duplicates(),
            forall|k: Seq<u8>| #[trigger] task_positions(r@).contains(k) <==> (
                self.claim_cache().contains_key(k)
                && claim_due(self.claim_cache()[k], now as int, min_round_duration as int)),
            forall|j: int| 0 <= j < r@.len() ==> self.positions().contains_key(#[trigger] r@[j].position@)
                && r@[j].kind == self.positions()[r@[j].position@].kind,
    {
        let mut r: Vec<ClaimTask> = Vec::new();
        let ghost mut idx: Seq<int> = Seq::empty();
        let mut i: usize = 0;
        while i < self.positions.len()
            invariant
                self.wf(),
                i <= self.positions@.len(),
                idx.len() == r@.len(),
                forall|j: int| 0 <= j < idx.len() ==> 0 <= #[trigger] idx[j] < i
                    && r@[j].position@ == self.position_key(idx[j])
                    && r@[j].kind == self.positions@[idx[j]].position.kind
                    && claim_due(self.positions@[idx[j]].claim_time, now as int, min_round_duration as int),
                forall|a: int, b: int| 0 <= a < b < idx.len() ==> idx[a] < idx[b],
                forall|j: int| 0 <= j < i && claim_due(self.positions@[j].claim_time, now as int, min_round_duration as int)
                    ==> exists|m: int| 0 <= m < idx.len() && idx[m] == j,
            decreases self.positions@.len() - i,
        {
            let ghost prev = idx;
            let e = &self.positions[i];
            if is_claim_due(e.claim_time, now, min_round_duration) {
                r.push(ClaimTask { position: e.address, kind: e.position.kind });
                proof { idx = idx.push(i as int); }
            }
            proof {
                assert forall|j: int| 0 <= j <= i && claim_due(self.positions@[j].claim_time, now as int, min_round_duration as int)
                    implies exists|m: int| 0 <= m < idx.len() && idx[m] == j by {
                    if j < i {
                        let m = choose|m: int| 0 <= m < prev.len() && prev[m] == j;
                        assert(idx[m] == j);
                    } else {
                        assert(idx[idx.len() - 1] == j);
                    }
                }
            }
            i += 1;
        }
        let ghost keys = task_positions(r@);
        assert forall|a: int, b: int| 0 <= a < keys.len() && 0 <= b < keys.len() && a != b
            implies keys[a] != keys[b] by {
            if a < b {
                assert(self.position_key(idx[a]) != self.position_key(idx[b]));
            } else {
                assert(self.position_key(idx[b]) != self.position_key(idx[a]));
            }
        }
        assert forall|j: int| 0 <= j < r@.len() implies self.positions().contains_key(#[trigger] r@[j].position@)
            && r@[j].kind == self.positions()[r@[j].position@].kind by {
            assert(self.position_map@.contains_key(self.position_key(idx[j])));
        }
        assert forall|k: Seq<u8>| #[trigger] keys.contains(k) <==> (
            self.claim_cache().contains_key(k)
            && claim_due(self.claim_cache()[k], now as int, min_round_duration as int)) by {
            if keys.contains(k) {
                let j = choose|j: int| 0 <= j < keys.len() && keys[j] == k;
                assert(self.position_map@.contains_key(self.position_key(idx[j])));
            }
            if self.claim_cache().contains_key(k) && claim_due(self.claim_cache()[k], now as int, min_round_duration as int) {
                let j = choose|j: int| 0 <= j < self.positions@.len() && self.position_key(j) == k;
                assert(self.position_map@.contains_key(self.position_key(j)));
                let m = choose|m: int| 0 <= m < idx.len() && idx[m] == j;
                assert(keys[m] == k);
            }
        }
        r
    }

    /// Recomputes every entry of both caches from the accounts. The caches
    /// are already derived, so recomputing leaves each value as it was.
    pub fn refresh_caches(&mut self)
        requires
            old(self).wf(),
        ensures
            final(self).wf(),
            final(self).caches_derived(),
            final(self).pools() == old(self).pools(),
            final(self).positions() == old(self).positions(),
            final(self).resolve_cache() == old(self).resolve_cache(),
            final(self).claim_cache() == old(self).claim_cache(),
    {
        let ghost old_self = *self;
        let mut i: usize = 0;
        while i < self.pools.len()
            invariant
                old_self.wf(),
                i <= self.pools@.len(),
                self.pools@ == old_self.pools@,
                self.positions@ == old_self.positions@,
                self.pool_map == old_self.pool_map,
                self.position_map == old_self.position_map,
                self.resolve_map == old_self.resolve_map,
                self.claim_map == old_self.claim_map,
            decreases self.pools@.len() - i,
        {
            let t = compute_next_resolve_time(&self.pools[i].pool);
            proof {
                assert(old_self.pool_map@.contains_key(old_self.pool_key(i as int)));
                assert(old_self.resolve_map@[old_self.pool_key(i as int)] == old_self.pools@[i as int].next_resolve_time as int);
            }
            let e = PoolEntry {
                address: self.pools[i].address,
                pool: self.pools[i].pool,
                next_resolve_time: t,
            };
            self.pools[i] = e;
            assert(self.pools@ =~= old_self.pools@);
            i += 1;
        }
        let mut j: usize = 0;
        while j < self.positions.len()
            invariant
                old_self.wf(),
                j <= self.positions@.len(),
                self.pools@ == old_self.pools@,
                self.positions@ == old_self.positions@,
                self.pool_map == old_self.pool_map,
                self.position_map == old_self.position_map,
                self.resolve_map == old_self.resolve_map,
                self.claim_map == old_self.claim_map,
            decreases self.positions@.len() - j,
        {
            let c = compute_earliest_claim(&self.positions[j].position.locked_stakes);
            proof {
                assert(old_self.position_map@.contains_key(old_self.position_key(j as int)));
                assert(old_self.claim_map@[old_self.position_key(j as int)] == old_self.positions@[j as int].claim_time);
            }
            self.positions[j].claim_time = c;
            assert(self.positions@ =~= old_self.positions@);
            j += 1;
        }
        proof {
            assert(self.pools_wf()) by {
                assert forall|a: int| 0 <= a < self.pools@.len() implies
                    #[trigger] self.pool_key(a) == old_self.pool_key(a) by {}
                assert forall|a: int, b: int|
            0 <= a < b < self.pools@.len() implies self.pool_key(a) != self.pool_key(b) by {
                    assert(old_self.pool_key(a) != old_self.pool_key(b));
                }
                assert forall|k: Seq<u8>| #[trigger] self.pool_map@.contains_key(k)
            implies exists|a: int| 0 <= a < self.pools@.len() && self.pool_key(a) == k by {
                    let a = choose|a: int| 0 <= a < old_self.pools@.len() && old_self.pool_key(a) == k;
                    assert(self.pool_key(a) == k);
                }
            }
            assert(self.positions_wf()) by {
                assert forall|a: int| 0 <= a < self.positions@.len() implies
                    #[trigger] self.position_key(a) == old_self.position_key(a) by {}
                assert forall|a: int, b: int|
            0 <= a < b < self.positions@.len() implies self.position_key(a) != self.position_key(b) by {
                    assert(old_self.position_key(a) != old_self.position_key(b));
                }
                assert forall|k: Seq<u8>| #[trigger] self.position_map@.contains_key(k)
            implies exists|a: int| 0 <= a < self.positions@.len() && self.position_key(a) == k by {
                    let a = choose|a: int| 0 <= a < old_self.positions@.len() && old_self.position_key(a) == k;
                    assert(self.position_key(a) == k);
                }
            }
        }
    }

    /// Removes the user position at `address` and its claim-cache entry.
    /// Returns whether it was there.
    pub fn remove_position(&mut self, address: &Address) -> (was_present: bool)
        requires
            old(self).wf(),
        ensures
            final(self).wf(),
            final(self).caches_derived(),
            was_present == old(self).positions().contains_key(address@),
            final(self).positions() == old(self).positions().remove(address@),
            final(self).pools() == old(self).pools(),
            final(self).resolve_cache() == old(self).resolve_cache(),
            final(self).claim_cache() == old(self).claim_cache().remove(address@),
    {
        let ghost old_self = *self;
        let found = self.find_position(address);
        if found.is_none() {
            assert(self.position_map@.remove(address@) =~= self.position_map@);
            assert(self.claim_map@.remove(address@) =~= self.claim_map@);
            return false;
        }
        let i = found.unwrap();
        {
            {
                self.positions.remove(i);
                self.position_map = Ghost(self.position_map@.remove(address@));
                self.claim_map = Ghost(self.claim_map@.remove(address@));
                proof {
                    let n = old_self.positions@.len();
                    assert forall|j: int| 0 <= j < n - 1 implies
                        #[trigger] self.position_key(j) == old_self.position_key(
                            if j < i { j } else { j + 1 },
                        ) && self.positions@[j] == old_self.positions@[if j < i { j } else { j + 1 }] by {}
                    assert(self.pools_wf()) by {
                        assert forall|j: int| 0 <= j < self.pools@.len() implies
                            #[trigger] self.pool_key(j) == old_self.pool_key(j) by {}
                        assert forall|a: int, b: int|
                    0 <= a < b < self.pools@.len() implies self.pool_key(a) != self.pool_key(b) by {
                            assert(old_self.pool_key(a) != old_self.pool_key(b));
                        }
                        assert forall|k: Seq<u8>| #[trigger] self.pool_map@.contains_key(k)
                    implies exists|j: int| 0 <= j < self.pools@.len() && self.pool_key(j) == k by {
                            let j = choose|j: int| 0 <= j < old_self.pools@.len() && old_self.pool_key(j) == k;
                            assert(self.pool_key(j) == k);
                        }
                    }
                    assert forall|a: int, b: int| 0 <= a < b < self.positions@.len() implies
                        self.position_key(a) != self.position_key(b) by {
                        let oa = if a < i { a } else { a + 1 };
                        let ob = if b < i { b } else { b + 1 };
                        assert(old_self.position_key(oa) != old_self.position_key(ob));
                    }
                    assert forall|j: int| 0 <= j < self.positions@.len() implies {
                        &&& self.position_map@.contains_key(#[trigger] self.position_key(j))
                        &&& self.position_map@[self.position_key(j)] == self.positions@[j].position@
                        &&& self.claim_map@[self.position_key(j)] == self.positions@[j].claim_time
                    } by {
                        let oj = if j < i { j } else { j + 1 };
                        assert(old_self.position_key(oj) != old_self.position_key(i as int));
                        assert(old_self.position_map@.contains_key(old_self.position_key(oj)));
                    }
                    assert forall|k: Seq<u8>| #[trigger] self.position_map@.contains_key(k) implies
                        exists|j: int| 0 <= j < self.positions@.len() && self.position_key(j) == k by {
                        let oj = choose|oj: int|
                            0 <= oj < old_self.positions@.len() && old_self.position_key(oj) == k;
                        assert(oj != i);
                        let j = if oj < i { oj } else { oj - 1 };
                        assert(self.position_key(j) == k);
                    }
                }
            }
        }
        true
    }
}

} // verus!
