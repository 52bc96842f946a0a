//! Allocation of a fixed reward pool to remote-chain contributors, released
//! to them over time against a one-time proof of ownership.
//!
//! - [`vesting`]: reward records, and how much of a reward is unlocked and
//!   claimable at a block height.
//! - [`signature`]: the proof of ownership, an ed25519 signature over a
//!   challenge that names the network and the claiming account.
//! - [`registry`]: the records of all contributors and the allocation pool;
//!   registration, genesis, association, change of payout address, claims.
//! - [`ledger`]: balances in memory, and transfers that move an amount whole
//!   or fail.
//! - [`chain`]: registry, ledger, block clock and log as one chain, to which
//!   calls are dispatched and which settles every block.
//! - [`invariants`]: what holds of the chain after any sequence of calls and
//!   blocks.
//! - [`testnet`]: the test network's genesis and key pairs.
//! - [`fraction`]: exact integer scaling.
//! - [`types`]: the primitive types.

pub mod chain;
pub mod fraction;
pub mod invariants;
pub mod ledger;
pub mod registry;
pub mod signature;
pub mod testnet;
pub mod types;
pub mod vesting;
