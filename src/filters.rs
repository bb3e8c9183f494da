use vstd::prelude::*;
use vstd::string::StringSliceAdditionalSpecFns;
use crate::address::{addresses_of, Address};
use crate::discriminator::{
    discriminator_of, get_staking_anchor_discriminator, get_user_staking_anchor_discriminator,
};
use crate::mirror::AccountMirror;

verus! {

/// A predicate on account data: the bytes at `offset` equal `bytes`.
pub struct MemcmpFilter {
    pub offset: u64,
    pub bytes: Vec<u8>,
}

/// One group of a subscription: accounts listed by address, or accounts owned
/// by one of `owners` whose data meets every `memcmp` predicate.
pub struct AccountsFilter {
    pub accounts: Vec<Address>,
    pub owners: Vec<Address>,
    pub memcmp: Vec<MemcmpFilter>,
}

/// A named group of a subscription.
pub struct NamedFilter {
    pub name: String,
    pub filter: AccountsFilter,
}

/// The account groups that the stream subscription watches.
pub struct FilterSet {
    pub groups: Vec<NamedFilter>,
}

/// `f` watches the accounts of one type: those owned by `program` whose data
/// starts with `disc`.
pub open spec fn watches_type(f: AccountsFilter, program: Seq<u8>, disc: Seq<u8>) -> bool {
    &&& f.accounts@.len() == 0
    &&& addresses_of(f.owners@) == seq![program]
    &&& f.memcmp@.len() == 1
    &&& f.memcmp@[0].offset == 0
    &&& f.memcmp@[0].bytes@ == disc
}

/// `f` watches exactly the addresses in `keys`, each listed once.
pub open spec fn watches_addresses(f: AccountsFilter, keys: Set<Seq<u8>>) -> bool {
    &&& f.owners@.len() == 0
    &&& f.memcmp@.len() == 0
    &&& addresses_of(f.accounts@).no_duplicates()
    &&& addresses_of(f.accounts@).to_set() == keys
}

/// The discriminator of reward pool accounts.
pub open spec fn pool_discriminator() -> Seq<u8> {
    discriminator_of("Staking".spec_bytes())
}

/// The discriminator of user position accounts.
pub open spec fn position_discriminator() -> Seq<u8> {
    discriminator_of("UserStaking".spec_bytes())
}

/// `r` is the subscription filter set for a mirror whose user positions are
/// `keys`, under the program `program`.
pub open spec fn filters_for(r: FilterSet, keys: Set<Seq<u8>>, program: Seq<u8>) -> bool {
    &&& r.groups@.len() == 3
    &&& r.groups@[0].name@ == "staking_create_update"@
    &&& watches_type(r.groups@[0].filter, program, pool_discriminator())
    &&& r.groups@[1].name@ == "user_staking_create_update"@
    &&& watches_type(r.groups@[1].filter, program, position_discriminator())
    &&& r.groups@[2].name@ == "user_staking_close"@
    &&& watches_addresses(r.groups@[2].filter, keys)
}

fn type_watch(program_id: &Address, disc: Vec<u8>) -> (r: AccountsFilter)
    ensures
        watches_type(r, program_id@, disc@),
{
    let mut owners: Vec<Address> = Vec::new();
    owners.push(*program_id);
    let mut memcmp: Vec<MemcmpFilter> = Vec::new();
    memcmp.push(MemcmpFilter { offset: 0, bytes: disc });
    assert(addresses_of(owners@) =~= seq![program_id@]);
    AccountsFilter { accounts: Vec::new(), owners, memcmp }
}

/// The subscription filters for the current mirror: creations and updates of
/// reward pools and of user positions, matched by owner and discriminator,
/// and the close watch, which lists every user position the mirror holds (a
/// closed account no longer matches by owner or discriminator).
pub fn generate_accounts_filter_map(mirror: &AccountMirror, program_id: &Address) -> (r: FilterSet)
    requires
        mirror.wf(),
    ensures
        filters_for(r, mirror.positions().dom(), program_id@),
{
    let pool_watch = type_watch(program_id, get_staking_anchor_discriminator());
    let position_watch = type_watch(program_id, get_user_staking_anchor_discriminator());
    let close_watch = AccountsFilter {
        accounts: mirror.position_keys(),
        owners: Vec::new(),
        memcmp: Vec::new(),
    };
    let mut groups: Vec<NamedFilter> = Vec::new();
    groups.push(NamedFilter { name: "staking_create_update".to_owned(), filter: pool_watch });
    groups.push(
        NamedFilter { name: "user_staking_create_update".to_owned(), filter: position_watch },
    );
    groups.push(NamedFilter { name: "user_staking_close".to_owned(), filter: close_watch });
    FilterSet { groups }
}

} // verus!
