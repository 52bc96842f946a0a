//! Primitive types shared by every component.

use vstd::prelude::*;

verus! {

/// An amount of tokens.
pub type Balance = u128;

/// A block height, supplied by the block clock.
pub type BlockNumber = u64;

/// A local account, the destination of payouts.
pub type AccountId = u64;

/// An asset of the ledger.
pub type TokenId = u32;

/// A remote-chain identity: the contributor's ed25519 public key.
pub type RelayChainAccountId = [u8; 32];

/// A detached ed25519 signature.
pub type Signature = [u8; 64];

/// The native token, in which rewards are paid.
pub const MGA_TOKEN_ID: TokenId = 0u32;

/// Why an operation was rejected. A rejected operation changes nothing.
#[derive(Clone, Copy, Debug, PartialEq, Eq, Structural)]
pub enum Error {
    /// The remote identity has no reward record.
    UnknownContributor,
    /// The record already has a payout address.
    AlreadyAssociated,
    /// The signature does not prove ownership of the remote identity.
    InvalidProof,
    /// The remote identity has no payout address yet.
    NotAssociated,
    /// The promised rewards would exceed the allocation ceiling.
    AllocationExceeded,
    /// The ledger refused to move the funds.
    TransferFailed,
    /// The caller may not change this payout address.
    Unauthorized,
}

/// Who asks for an operation.
#[derive(Clone, Copy, Debug, PartialEq, Eq, Structural)]
pub enum Origin {
    /// A signed call of a local account.
    Signed(AccountId),
    /// The privileged administrative origin.
    Root,
}

} // verus!
