//! The test network: its constants, its genesis, and key pairs to play
//! contributors with.

use crate::chain::{Chain, ChainView};
use crate::ledger::{deposit_next, Balances, Ledger};
use crate::registry::{Registry, RegistryView};
use crate::signature::{ed25519_public, KeyPair};
use crate::types::{AccountId, Balance, BlockNumber, TokenId, MGA_TOKEN_ID};
use crate::vesting::Ratio;
use vstd::prelude::*;

verus! {

/// The percentage of a reward that unlocks at association.
pub const TEST_INITIALIZATION_PERCENT: u32 = 20u32;

/// The number of blocks over which the rest of a reward vests.
pub const TEST_VESTING_PERIOD: BlockNumber = 8u64;

/// The block at which a fresh chain stands.
pub const GENESIS_BLOCK: BlockNumber = 1u64;

/// The account that is endowed at genesis.
pub const ENDOWED_ACCOUNT: AccountId = 0u64;

/// The token of the genesis endowment.
pub const ENDOWED_TOKEN: TokenId = 0u32;

/// The amount of the genesis endowment.
pub const ENDOWMENT: Balance = 2_000_000_000u128;

/// The allocation ceiling of the chain that `empty` builds.
pub const DEFAULT_ALLOCATION: Balance = 2500u128;

/// The number from which the seeds of the test key pairs count up.
pub const FIRST_SEED: u128 = 12345678901234567890123456789012u128;

/// The network identifier of the test network: the bytes of `test-`.
pub open spec fn test_network_id() -> Seq<u8> {
    seq![0x74u8, 0x65u8, 0x73u8, 0x74u8, 0x2du8]
}

/// The identifier of the treasury: the bytes of `py/trsry`.
pub open spec fn treasury_pallet_id() -> Seq<u8> {
    seq![0x70u8, 0x79u8, 0x2fu8, 0x74u8, 0x72u8, 0x73u8, 0x72u8, 0x79u8]
}

/// The identifier of the reward pallet: the bytes of `Crowdloa`.
pub open spec fn crowdloan_pallet_id() -> Seq<u8> {
    seq![0x43u8, 0x72u8, 0x6fu8, 0x77u8, 0x64u8, 0x6cu8, 0x6fu8, 0x61u8]
}

/// The account of the pallet `pallet_id`: the little-endian number whose
/// eight bytes are `modl` and the first four bytes of the identifier.
pub open spec fn pallet_account_of(pallet_id: Seq<u8>) -> AccountId {
    (0x6d + 0x6f * 0x100 + 0x64 * 0x1_0000 + 0x6c * 0x100_0000 + pallet_id[0] * 0x1_0000_0000
        + pallet_id[1] * 0x100_0000_0000 + pallet_id[2] * 0x1_0000_0000_0000 + pallet_id[3]
        * 0x100_0000_0000_0000) as AccountId
}

/// The account of the pallet `pallet_id`.
pub fn pallet_account(pallet_id: &[u8; 8]) -> (account: AccountId)
    ensures
        account == pallet_account_of(pallet_id@),
{
    let b0: u64 = pallet_id[0] as u64;
    let b1: u64 = pallet_id[1] as u64;
    let b2: u64 = pallet_id[2] as u64;
    let b3: u64 = pallet_id[3] as u64;
    0x6c64_6f6d + b0 * 0x1_0000_0000 + b1 * 0x100_0000_0000 + b2 * 0x1_0000_0000_0000 + b3
        * 0x100_0000_0000_0000
}

/// The account of the treasury.
pub fn treasury_account() -> (account: AccountId)
    ensures
        account == pallet_account_of(treasury_pallet_id()),
        account == 0x742f_7970_6c64_6f6d,
{
    let pallet_id: [u8; 8] = [0x70, 0x79, 0x2f, 0x74, 0x72, 0x73, 0x72, 0x79];
    assert(pallet_id@ =~= treasury_pallet_id());
    pallet_account(&pallet_id)
}

/// The account that holds the pooled reserve of the reward pallet.
pub fn crowdloan_account() -> (account: AccountId)
    ensures
        account == pallet_account_of(crowdloan_pallet_id()),
        account == 0x776f_7243_6c64_6f6d,
{
    let pallet_id: [u8; 8] = [0x43, 0x72, 0x6f, 0x77, 0x64, 0x6c, 0x6f, 0x61];
    assert(pallet_id@ =~= crowdloan_pallet_id());
    pallet_account(&pallet_id)
}

/// The accounts whose dust the ledger never sweeps: the treasury alone.
pub struct DustRemovalWhitelist;

impl DustRemovalWhitelist {
    /// Whether `a` is on the list.
    pub fn contains(a: &AccountId) -> (listed: bool)
        ensures
            listed == (*a == pallet_account_of(treasury_pallet_id())),
    {
        *a == treasury_account()
    }
}

/// The network identifier of the test network.
pub fn network_identifier() -> (network_id: Vec<u8>)
    ensures
        network_id@ == test_network_id(),
{
    let mut network_id: Vec<u8> = Vec::new();
    network_id.push(0x74);
    network_id.push(0x65);
    network_id.push(0x73);
    network_id.push(0x74);
    network_id.push(0x2d);
    assert(network_id@ =~= test_network_id());
    network_id
}

/// The balances of a fresh chain with the allocation `crowdloan_allocation`:
/// the endowment, and the allocation in the reserve.
pub open spec fn genesis_balances(crowdloan_allocation: Balance) -> Balances {
    deposit_next(
        deposit_next(Balances::empty(), ENDOWED_TOKEN, ENDOWED_ACCOUNT, ENDOWMENT),
        MGA_TOKEN_ID,
        pallet_account_of(crowdloan_pallet_id()),
        crowdloan_allocation,
    )
}

/// A fresh chain with the allocation `crowdloan_allocation`.
pub open spec fn genesis_view(crowdloan_allocation: Balance) -> ChainView {
    ChainView {
        block_number: GENESIS_BLOCK,
        log: Seq::empty(),
        balances: genesis_balances(crowdloan_allocation),
        registry: RegistryView::empty(
            crowdloan_allocation,
            Ratio::of_parts(200_000_000),
            TEST_VESTING_PERIOD,
            test_network_id(),
        ),
        reserve: pallet_account_of(crowdloan_pallet_id()),
    }
}

/// A fresh chain is sound, so that everything that holds of sound chains
/// holds of whatever comes out of it.
pub proof fn genesis_is_sound(crowdloan_allocation: Balance)
    ensures
        genesis_view(crowdloan_allocation).wf(),
        genesis_view(crowdloan_allocation).registry.initialization_ratio.parts() == 200_000_000,
{
    Ratio::lemma_of_parts(200_000_000);
    let registry = genesis_view(crowdloan_allocation).registry;
    assert(registry.records.dom() =~= registry.ids.to_set());
}

/// Builds the test chain at its first block: nobody is registered, the
/// allocation ceiling is `crowdloan_allocation`, and the reserve holds that
/// much of the native token.
pub fn genesis(crowdloan_allocation: Balance) -> (chain: Chain)
    ensures
        chain.wf(),
        chain@ == genesis_view(crowdloan_allocation),
{
    let reserve = crowdloan_account();
    let mut tokens = Ledger::new();
    let _ = tokens.deposit(ENDOWED_TOKEN, ENDOWED_ACCOUNT, ENDOWMENT);
    let _ = tokens.deposit(MGA_TOKEN_ID, reserve, crowdloan_allocation);
    let crowdloan = Registry::new(
        crowdloan_allocation,
        Ratio::from_percent(TEST_INITIALIZATION_PERCENT),
        TEST_VESTING_PERIOD,
        network_identifier(),
    );
    Chain::new(GENESIS_BLOCK, tokens, crowdloan, reserve)
}

/// Builds the test chain with the default allocation.
pub fn empty() -> (chain: Chain)
    ensures
        chain.wf(),
        chain@ == genesis_view(DEFAULT_ALLOCATION),
{
    genesis(DEFAULT_ALLOCATION)
}

/// The last `width` decimal digits of `value` in ASCII, most significant
/// first.
pub open spec fn decimal(value: nat, width: nat) -> Seq<u8>
    decreases width,
{
    if width == 0 {
        Seq::empty()
    } else {
        decimal(value / 10, (width - 1) as nat).push((0x30 + value % 10) as u8)
    }
}

/// The seed that spells `value` in 32 decimal digits.
pub fn decimal_seed(value: u128) -> (seed: [u8; 32])
    ensures
        seed@ == decimal(value as nat, 32),
{
    let mut seed: [u8; 32] = [0u8; 32];
    let mut rest: u128 = value;
    let mut written: usize = 0;
    assert(seed@.subrange(32, 32) =~= Seq::empty());
    while written < 32
        invariant
            written <= 32,
            decimal(value as nat, 32) =~= decimal(rest as nat, (32 - written) as nat)
                + seed@.subrange(32 - written, 32),
        decreases 32 - written,
    {
        let digit: u8 = 0x30 + (rest % 10) as u8;
        let ghost before = seed@;
        seed[31 - written] = digit;
        proof {
            assert(seed@.subrange(31 - written, 32) =~= seq![digit] + before.subrange(
                32 - written,
                32,
            ));
            assert(decimal(rest as nat, (32 - written) as nat) == decimal(
                rest as nat / 10,
                (31 - written) as nat,
            ).push(digit));
        }
        rest = rest / 10;
        written += 1;
    }
    assert(seed@.subrange(0, 32) =~= seed@);
    seed
}

/// The first `num` test key pairs: pair number `i` has the seed that spells
/// `FIRST_SEED + i` in decimal digits.
pub fn get_ed25519_pairs(num: u32) -> (pairs: Vec<KeyPair>)
    ensures
        pairs@.len() == num,
        forall|i: int|
            0 <= i < num ==> {
                &&& (#[trigger] pairs@[i]).seed_bytes() == decimal((FIRST_SEED + i) as nat, 32)
                &&& pairs@[i].public_bytes() == ed25519_public(
                    decimal((FIRST_SEED + i) as nat, 32),
                )
            },
{
    let mut pairs: Vec<KeyPair> = Vec::new();
    let mut i: u32 = 0;
    while i < num
        invariant
            i <= num,
            pairs@.len() == i,
            forall|j: int|
                0 <= j < i ==> {
                    &&& (#[trigger] pairs@[j]).seed_bytes() == decimal(
                        (FIRST_SEED + j) as nat,
                        32,
                    )
                    &&& pairs@[j].public_bytes() == ed25519_public(
                        decimal((FIRST_SEED + j) as nat, 32),
                    )
                },
        decreases num - i,
    {
        pairs.push(KeyPair::from_seed(decimal_seed(FIRST_SEED + i as u128)));
        i += 1;
    }
    pairs
}

} // verus!
