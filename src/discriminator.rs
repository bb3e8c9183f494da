use vstd::prelude::*;
use vstd::string::StringSliceAdditionalSpecFns;

verus! {

/// The SHA-256 digest of a byte string.
pub uninterp spec fn sha256_of(data: Seq<u8>) -> Seq<u8>;

/// Relies on `solana_sdk::hash::hash`: the SHA-256 digest of `data`, 32 bytes.
#[verifier::external_body]
fn sha256(data: &[u8]) -> (r: [u8; 32])
    ensures
        r@ == sha256_of(data@),
{
    solana_sdk::hash::hash(data).to_bytes()
}

/// The bytes of `account:`, the prefix that account discriminators are hashed with.
pub open spec fn account_prefix() -> Seq<u8> {
    seq![97u8, 99u8, 99u8, 111u8, 117u8, 110u8, 116u8, 58u8]
}

/// The 8-byte type tag that leads the data of an account of type `name`.
pub open spec fn discriminator_of(name: Seq<u8>) -> Seq<u8> {
    sha256_of(account_prefix() + name).subrange(0, 8)
}

/// The discriminator of the account type named `name`: the first 8 bytes of
/// the SHA-256 digest of `account:<name>`.
pub fn derive_discriminator(name: &str) -> (r: Vec<u8>)
    ensures
        r@ == discriminator_of(name.spec_bytes()),
        r@.len() == 8,
{
    let mut preimage: Vec<u8> = vec![97u8, 99u8, 99u8, 111u8, 117u8, 110u8, 116u8, 58u8];
    assert(preimage@ =~= account_prefix());
    let name_bytes = name.as_bytes();
    let mut i: usize = 0;
    while i < name_bytes.len()
        invariant
            i <= name_bytes@.len(),
            name_bytes@ == name.spec_bytes(),
            preimage@ =~= account_prefix() + name_bytes@.subrange(0, i as int),
        decreases name_bytes@.len() - i,
    {
        preimage.push(name_bytes[i]);
        i += 1;
    }
    assert(name_bytes@.subrange(0, name_bytes@.len() as int) =~= name_bytes@);
    let digest = sha256(preimage.as_slice());
    let mut r: Vec<u8> = Vec::new();
    let mut k: usize = 0;
    while k < 8
        invariant
            k <= 8,
            digest@.len() == 32,
            r@ =~= digest@.subrange(0, k as int),
        decreases 8 - k,
    {
        r.push(digest[k]);
        k += 1;
    }
    r
}

/// The discriminator of reward pool accounts (`Staking`).
pub fn get_staking_anchor_discriminator() -> (r: Vec<u8>)
    ensures
        r@ == discriminator_of("Staking".spec_bytes()),
        r@.len() == 8,
{
    derive_discriminator("Staking")
}

/// The discriminator of user position accounts (`UserStaking`).
pub fn get_user_staking_anchor_discriminator() -> (r: Vec<u8>)
    ensures
        r@ == discriminator_of("UserStaking".spec_bytes()),
        r@.len() == 8,
{
    derive_discriminator("UserStaking")
}

} // verus!
