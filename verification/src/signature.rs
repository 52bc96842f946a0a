//! The proof of ownership: an ed25519 signature of the remote identity over
//! a challenge that names the network and the claiming local account.

use crate::types::{AccountId, RelayChainAccountId, Signature};
use vstd::bytes::{
    lemma_auto_spec_u64_to_from_le_bytes, spec_u64_from_le_bytes, spec_u64_to_le_bytes,
    u64_to_le_bytes,
};
use vstd::prelude::*;

verus! {

/// Whether `sp_core::ed25519::Pair::verify` accepts `signature` for `message`
/// under the public key `public`.
pub uninterp spec fn ed25519_valid(signature: Seq<u8>, message: Seq<u8>, public: Seq<u8>) -> bool;

/// The public key of the pair that `sp_core::ed25519::Pair::from_seed` derives from `seed`.
pub uninterp spec fn ed25519_public(seed: Seq<u8>) -> Seq<u8>;

/// The signature that the pair derived from `seed` gives `message` with
/// `sp_core::ed25519::Pair::sign`.
pub uninterp spec fn ed25519_signature(seed: Seq<u8>, message: Seq<u8>) -> Seq<u8>;

/// Calls `sp_core::ed25519::Pair::verify` on the three byte strings. The
/// outcome is a function of them alone; it is unproved that it is the
/// ed25519 verification equation.
#[verifier::external_body]
fn ed25519_verify(signature: &Signature, message: &[u8], public: &RelayChainAccountId) -> (valid:
    bool)
    ensures
        valid == ed25519_valid(signature@, message@, public@),
{
    <sp_core::ed25519::Pair as sp_core::Pair>::verify(
        &sp_core::ed25519::Signature::from_raw(*signature),
        message,
        &sp_core::ed25519::Public::from_raw(*public),
    )
}

/// Calls `sp_core::ed25519::Pair::from_seed` and returns the bytes of the
/// pair's public key, which the seed alone determines.
#[verifier::external_body]
fn ed25519_derive_public(seed: &[u8; 32]) -> (public: RelayChainAccountId)
    ensures
        public@ == ed25519_public(seed@),
{
    let pair = <sp_core::ed25519::Pair as sp_core::Pair>::from_seed(seed);
    <sp_core::ed25519::Pair as sp_core::Pair>::public(&pair).0
}

/// Calls `sp_core::ed25519::Pair::sign` with the pair of `seed` and returns
/// the signature's bytes. Signing is deterministic: seed and message
/// determine the signature.
#[verifier::external_body]
fn ed25519_sign(seed: &[u8; 32], message: &[u8]) -> (signature: Signature)
    ensures
        signature@ == ed25519_signature(seed@, message@),
{
    let pair = <sp_core::ed25519::Pair as sp_core::Pair>::from_seed(seed);
    <sp_core::ed25519::Pair as sp_core::Pair>::sign(&pair, message).0
}

/// The message a contributor signs: the network identifier followed by the
/// eight little-endian bytes of the claiming local account.
pub open spec fn challenge(network_id: Seq<u8>, account: AccountId) -> Seq<u8> {
    network_id + spec_u64_to_le_bytes(account)
}

/// Whether `signature` proves, on the network `network_id`, that the owner
/// of `remote_id` names `account` as the payout address.
pub open spec fn proof_valid(
    network_id: Seq<u8>,
    account: AccountId,
    remote_id: Seq<u8>,
    signature: Seq<u8>,
) -> bool {
    ed25519_valid(signature, challenge(network_id, account), remote_id)
}

/// A challenge names one network and one account: two challenges are equal
/// only if both the network identifiers and the accounts are.
pub proof fn challenge_binds_network_and_account(
    network_a: Seq<u8>,
    account_a: AccountId,
    network_b: Seq<u8>,
    account_b: AccountId,
)
    requires
        challenge(network_a, account_a) == challenge(network_b, account_b),
    ensures
        network_a == network_b,
        account_a == account_b,
{
    lemma_auto_spec_u64_to_from_le_bytes();
    let tail_a = spec_u64_to_le_bytes(account_a);
    let tail_b = spec_u64_to_le_bytes(account_b);
    let whole = challenge(network_a, account_a);
    assert(whole.len() == network_a.len() + 8);
    assert(whole.len() == network_b.len() + 8);
    assert(network_a =~= whole.subrange(0, network_a.len() as int));
    assert(network_b =~= challenge(network_b, account_b).subrange(0, network_b.len() as int));
    assert(tail_a =~= whole.subrange(network_a.len() as int, whole.len() as int));
    assert(tail_b =~= challenge(network_b, account_b).subrange(
        network_b.len() as int,
        whole.len() as int,
    ));
    assert(spec_u64_from_le_bytes(tail_a) == account_a);
    assert(spec_u64_from_le_bytes(tail_b) == account_b);
}

/// Builds the challenge for `account` on the network `network_id`.
pub fn challenge_message(network_id: &[u8], account: AccountId) -> (message: Vec<u8>)
    ensures
        message@ == challenge(network_id@, account),
{
    let mut message: Vec<u8> = Vec::new();
    let mut i: usize = 0;
    while i < network_id.len()
        invariant
            i <= network_id.len(),
            message@ == network_id@.subrange(0, i as int),
        decreases network_id.len() - i,
    {
        message.push(network_id[i]);
        assert(network_id@.subrange(0, i + 1) =~= network_id@.subrange(0, i as int).push(
            network_id@[i as int],
        ));
        i += 1;
    }
    assert(network_id@.subrange(0, i as int) =~= network_id@);
    let mut tail = u64_to_le_bytes(account);
    message.append(&mut tail);
    message
}

/// Checks a proof of ownership: the signature must be valid, under the
/// remote identity as public key, for exactly the challenge of this network
/// and this account.
pub fn verify_proof(
    network_id: &[u8],
    account: AccountId,
    remote_id: &RelayChainAccountId,
    signature: &Signature,
) -> (valid: bool)
    ensures
        valid == proof_valid(network_id@, account, remote_id@, signature@),
{
    let message = challenge_message(network_id, account);
    ed25519_verify(signature, message.as_slice(), remote_id)
}

/// An ed25519 key pair of a contributor: the seed and the public key that
/// belongs to it.
#[derive(Clone, Copy, Debug)]
pub struct KeyPair {
    seed: [u8; 32],
    public: RelayChainAccountId,
}

impl KeyPair {
    #[verifier::type_invariant]
    spec fn matched(self) -> bool {
        self.public@ == ed25519_public(self.seed@)
    }

    /// The secret seed.
    pub closed spec fn seed_bytes(self) -> Seq<u8> {
        self.seed@
    }

    /// The public key, which is the contributor's remote identity.
    pub closed spec fn public_bytes(self) -> Seq<u8> {
        self.public@
    }

    /// The pair that belongs to `seed`.
    pub fn from_seed(seed: [u8; 32]) -> (pair: KeyPair)
        ensures
            pair.seed_bytes() == seed@,
            pair.public_bytes() == ed25519_public(seed@),
    {
        let public = ed25519_derive_public(&seed);
        KeyPair { seed, public }
    }

    /// The secret seed.
    pub fn seed(&self) -> (seed: [u8; 32])
        ensures
            seed@ == self.seed_bytes(),
    {
        self.seed
    }

    /// The public key, which is the contributor's remote identity.
    pub fn public(&self) -> (public: RelayChainAccountId)
        ensures
            public@ == self.public_bytes(),
            public@ == ed25519_public(self.seed_bytes()),
    {
        proof {
            use_type_invariant(self);
        }
        self.public
    }

    /// Signs `message` with this pair.
    pub fn sign(&self, message: &[u8]) -> (signature: Signature)
        ensures
            signature@ == ed25519_signature(self.seed_bytes(), message@),
    {
        ed25519_sign(&self.seed, message)
    }

    /// Signs the challenge that names `account` as the payout address on the
    /// network `network_id`.
    pub fn sign_challenge(&self, network_id: &[u8], account: AccountId) -> (signature: Signature)
        ensures
            signature@ == ed25519_signature(self.seed_bytes(), challenge(network_id@, account)),
    {
        let message = challenge_message(network_id, account);
        ed25519_sign(&self.seed, message.as_slice())
    }
}

} // verus!
