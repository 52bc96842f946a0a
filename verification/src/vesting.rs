//! Reward records and the vesting arithmetic: how much of a reward is
//! unlocked at a block height, and how much of that is still to be paid.

use crate::fraction::{
    lemma_scale_bounds, lemma_scale_monotonic, mul_div_floor, scale,
};
use crate::types::{AccountId, Balance, BlockNumber};
use vstd::prelude::*;

verus! {

/// The number of parts in a whole.
pub const BILLION: u32 = 1_000_000_000u32;

/// A fraction of at most one, in parts per billion.
#[derive(Clone, Copy, Debug, PartialEq, Eq)]
pub struct Ratio {
    parts: u32,
}

impl Ratio {
    #[verifier::type_invariant]
    spec fn in_range(self) -> bool {
        self.parts <= BILLION
    }

    /// The numerator of the fraction over one billion.
    pub closed spec fn parts(self) -> nat {
        self.parts as nat
    }

    /// The ratio of `parts` billionths, or one whole where that is less.
    pub closed spec fn of_parts(parts: nat) -> Ratio {
        Ratio { parts: if parts <= BILLION { parts as u32 } else { BILLION } }
    }

    /// `of_parts` gives the ratio of the parts it is given, capped at a whole.
    pub proof fn lemma_of_parts(parts: nat)
        ensures
            Self::of_parts(parts).wf(),
            Self::of_parts(parts).parts() == if parts <= BILLION { parts } else { BILLION as nat },
    {
    }

    /// Every ratio built by this module is at most one.
    pub open spec fn wf(self) -> bool {
        self.parts() <= BILLION
    }

    /// The ratio of `parts` billionths; more than a billion parts count as one whole.
    pub fn from_parts(parts: u32) -> (ratio: Ratio)
        ensures
            ratio.wf(),
            ratio == Self::of_parts(parts as nat),
            ratio.parts() == if parts <= BILLION { parts } else { BILLION },
    {
        if parts <= BILLION {
            Ratio { parts }
        } else {
            Ratio { parts: BILLION }
        }
    }

    /// The ratio of `percent` hundredths; more than a hundred count as one whole.
    pub fn from_percent(percent: u32) -> (ratio: Ratio)
        ensures
            ratio.wf(),
            ratio == Self::of_parts(percent as nat * 10_000_000),
            ratio.parts() == if percent <= 100 { percent * 10_000_000 } else { BILLION as int },
    {
        if percent <= 100 {
            Ratio { parts: percent * 10_000_000 }
        } else {
            Ratio { parts: BILLION }
        }
    }

    /// The numerator of the fraction over one billion.
    pub fn deconstruct(&self) -> (parts: u32)
        ensures
            parts == self.parts(),
            self.wf(),
    {
        proof {
            use_type_invariant(self);
        }
        self.parts
    }

    /// This fraction of `amount`, rounded down.
    pub fn mul_floor(&self, amount: Balance) -> (part: Balance)
        ensures
            part == scale(amount as int, self.parts() as int, BILLION as int),
            part <= amount,
    {
        proof {
            use_type_invariant(self);
            lemma_scale_bounds(amount as int, self.parts as int, BILLION as int);
        }
        mul_div_floor(amount, self.parts as u64, BILLION as u64)
    }
}

/// What one contributor was promised and has received so far.
#[derive(Clone, Copy, Debug, PartialEq, Eq)]
pub struct RewardRecord {
    /// The total promised to this contributor.
    pub total_reward: Balance,
    /// The cumulative amount already paid out.
    pub claimed: Balance,
    /// The local account entitled to the funds; `None` until association.
    pub payout_address: Option<AccountId>,
    /// Whether the contributor's participation met the relay-vote threshold.
    pub vote_threshold_met: bool,
    /// The block at which linear vesting starts.
    pub vesting_start: BlockNumber,
    /// The block at which everything eligible is unlocked.
    pub vesting_end: BlockNumber,
}

impl RewardRecord {
    /// The portion that unlocks at once, outside the vesting schedule.
    pub open spec fn immediate(self, ratio: Ratio) -> int {
        scale(self.total_reward as int, ratio.parts() as int, BILLION as int)
    }

    /// The most this contributor can ever receive: the whole reward where the
    /// vote threshold was met, else the immediate portion alone.
    pub open spec fn eligible_total(self, ratio: Ratio) -> int {
        if self.vote_threshold_met {
            self.total_reward as int
        } else {
            self.immediate(ratio)
        }
    }

    /// The part of the vesting portion that has unlocked by `block`.
    pub open spec fn vested_linear(self, ratio: Ratio, block: BlockNumber) -> int {
        let vesting = self.eligible_total(ratio) - self.immediate(ratio);
        if block <= self.vesting_start {
            0
        } else if block >= self.vesting_end {
            vesting
        } else {
            scale(
                vesting,
                block - self.vesting_start,
                self.vesting_end - self.vesting_start,
            )
        }
    }

    /// The cumulative amount unlocked by `block`.
    pub open spec fn unlocked_to_date(self, ratio: Ratio, block: BlockNumber) -> int {
        self.immediate(ratio) + self.vested_linear(ratio, block)
    }

    /// The amount a claim at `block` pays out.
    pub open spec fn claimable_at(self, ratio: Ratio, block: BlockNumber) -> int {
        let unlocked = self.unlocked_to_date(ratio, block);
        let eligible = self.eligible_total(ratio);
        let capped = if unlocked <= eligible { unlocked } else { eligible };
        if capped >= self.claimed { capped - self.claimed } else { 0 }
    }

    /// What the registry maintains of every record it holds.
    pub open spec fn wf(self, ratio: Ratio) -> bool {
        &&& self.claimed <= self.eligible_total(ratio)
        &&& self.vesting_start <= self.vesting_end
        &&& self.payout_address is None ==> self.claimed == 0
    }

    /// A fresh record: nothing claimed, no payout address, no schedule yet.
    pub fn new(total_reward: Balance, vote_threshold_met: bool) -> (record: RewardRecord)
        ensures
            record == (RewardRecord {
                total_reward,
                claimed: 0,
                payout_address: None,
                vote_threshold_met,
                vesting_start: 0,
                vesting_end: 0,
            }),
    {
        RewardRecord {
            total_reward,
            claimed: 0,
            payout_address: None,
            vote_threshold_met,
            vesting_start: 0,
            vesting_end: 0,
        }
    }

    /// The portion that unlocks at once.
    pub fn initial_payment(&self, ratio: Ratio) -> (amount: Balance)
        ensures
            amount == self.immediate(ratio),
    {
        ratio.mul_floor(self.total_reward)
    }

    /// The most this contributor can ever receive.
    pub fn eligible(&self, ratio: Ratio) -> (amount: Balance)
        ensures
            amount == self.eligible_total(ratio),
    {
        if self.vote_threshold_met {
            self.total_reward
        } else {
            ratio.mul_floor(self.total_reward)
        }
    }

    /// The cumulative amount unlocked by `current_block`.
    pub fn unlocked(&self, ratio: Ratio, current_block: BlockNumber) -> (amount: Balance)
        ensures
            amount == self.unlocked_to_date(ratio, current_block),
            amount <= self.eligible_total(ratio),
    {
        let immediate = ratio.mul_floor(self.total_reward);
        let eligible = if self.vote_threshold_met { self.total_reward } else { immediate };
        let vesting = eligible - immediate;
        let vested = if current_block <= self.vesting_start {
            0
        } else if current_block >= self.vesting_end {
            vesting
        } else {
            let elapsed = current_block - self.vesting_start;
            let duration = self.vesting_end - self.vesting_start;
            proof {
                lemma_scale_bounds(vesting as int, elapsed as int, duration as int);
            }
            mul_div_floor(vesting, elapsed, duration)
        };
        immediate + vested
    }

    /// The amount a claim at `current_block` pays out: what is unlocked,
    /// capped at what is eligible, less what was paid already; never negative.
    pub fn claimable(&self, ratio: Ratio, current_block: BlockNumber) -> (amount: Balance)
        ensures
            amount == self.claimable_at(ratio, current_block),
    {
        let unlocked = self.unlocked(ratio, current_block);
        let eligible = self.eligible(ratio);
        let capped = if unlocked <= eligible { unlocked } else { eligible };
        if capped >= self.claimed {
            capped - self.claimed
        } else {
            0
        }
    }
}

/// The unlocked amount lies between the immediate portion and the eligible
/// total, which is at most the whole reward.
pub proof fn lemma_unlocked_bounds(record: RewardRecord, ratio: Ratio, block: BlockNumber)
    requires
        ratio.wf(),
    ensures
        0 <= record.immediate(ratio) <= record.unlocked_to_date(ratio, block),
        record.unlocked_to_date(ratio, block) <= record.eligible_total(ratio),
        record.eligible_total(ratio) <= record.total_reward,
{
    lemma_scale_bounds(record.total_reward as int, ratio.parts() as int, BILLION as int);
    let vesting = record.eligible_total(ratio) - record.immediate(ratio);
    if record.vesting_start < block < record.vesting_end {
        lemma_scale_bounds(
            vesting,
            block - record.vesting_start,
            record.vesting_end - record.vesting_start,
        );
    }
}

/// The unlocked amount never shrinks as blocks pass.
pub proof fn unlocked_amount_never_shrinks(
    record: RewardRecord,
    ratio: Ratio,
    earlier: BlockNumber,
    later: BlockNumber,
)
    requires
        ratio.wf(),
        earlier <= later,
    ensures
        record.unlocked_to_date(ratio, earlier) <= record.unlocked_to_date(ratio, later),
{
    lemma_scale_bounds(record.total_reward as int, ratio.parts() as int, BILLION as int);
    let vesting = record.eligible_total(ratio) - record.immediate(ratio);
    let start = record.vesting_start;
    let end = record.vesting_end;
    if start < later < end {
        lemma_scale_bounds(vesting, later - start, end - start);
        if start < earlier {
            lemma_scale_monotonic(vesting, earlier - start, later - start, end - start);
        }
    } else if start < earlier < end {
        lemma_scale_bounds(vesting, earlier - start, end - start);
    }
}

/// From the end of the schedule on, exactly the eligible total is unlocked:
/// the rounding of intermediate blocks leaves no remainder behind.
pub proof fn schedule_end_unlocks_everything(
    record: RewardRecord,
    ratio: Ratio,
    block: BlockNumber,
)
    requires
        block >= record.vesting_end,
        block > record.vesting_start,
    ensures
        record.unlocked_to_date(ratio, block) == record.eligible_total(ratio),
        record.claimed <= record.eligible_total(ratio) ==> record.claimable_at(ratio, block)
            == record.eligible_total(ratio) - record.claimed,
{
}

/// Up to the start of the schedule only the immediate portion is unlocked.
pub proof fn schedule_start_unlocks_the_immediate_portion(
    record: RewardRecord,
    ratio: Ratio,
    block: BlockNumber,
)
    requires
        block <= record.vesting_start,
    ensures
        record.unlocked_to_date(ratio, block) == record.immediate(ratio),
{
}

/// Where the vote threshold was not met, nothing beyond the immediate
/// portion ever unlocks.
pub proof fn unmet_threshold_caps_at_the_immediate_portion(
    record: RewardRecord,
    ratio: Ratio,
    block: BlockNumber,
)
    requires
        !record.vote_threshold_met,
    ensures
        record.unlocked_to_date(ratio, block) == record.immediate(ratio),
        record.eligible_total(ratio) == record.immediate(ratio),
{
    if record.vesting_start < block < record.vesting_end {
        let duration = record.vesting_end - record.vesting_start;
        assert(scale(0, block - record.vesting_start, duration) == 0) by (nonlinear_arith)
            requires
                duration > 0,
        ;
    }
}

} // verus!
