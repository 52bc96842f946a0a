//! What holds of the chain whatever is submitted to it, in whatever order.

use crate::chain::{
    lemma_claim_keeps_wf, lemma_dispatch_keeps_wf, lemma_roll_by_keeps_wf,
    lemma_settle_first_keeps_wf, Call, ChainView,
};
use crate::registry::{
    genesis_state, lemma_associate_keeps_wf, lemma_register_keeps_wf, lemma_settle_keeps_wf,
    RegistryView,
};
use crate::types::{AccountId, Balance, BlockNumber, Error, Origin, RelayChainAccountId};
use crate::vesting::lemma_unlocked_bounds;
use vstd::prelude::*;

verus! {

/// One thing that happens to the chain.
pub enum Step {
    /// `origin` submits `call`.
    Submit { origin: Origin, call: Call },
    /// The clock moves on by one block, which is settled.
    NextBlock,
}

impl ChainView {
    /// The chain after `step`. The clock stops at the last block there is.
    pub open spec fn step(self, step: Step) -> ChainView {
        match step {
            Step::Submit { origin, call } => self.dispatch_next(origin, call),
            Step::NextBlock => if self.block_number < u64::MAX {
                self.next_block()
            } else {
                self
            },
        }
    }

    /// The chain after `steps`, first to last.
    pub open spec fn run(self, steps: Seq<Step>) -> ChainView
        decreases steps.len(),
    {
        if steps.len() == 0 {
            self
        } else {
            self.run(steps.drop_last()).step(steps.last())
        }
    }
}

/// Whether the registry `later` can have come out of the registry `earlier`:
/// the ceiling is the same and the promised total within it, no record is
/// gone, no record has claimed less than before or more than it is eligible
/// for, and a record that had a payout address has one still, with its
/// reward, its threshold outcome and its schedule as they were.
pub open spec fn follows(earlier: RegistryView, later: RegistryView) -> bool {
    &&& later.wf()
    &&& later.ceiling == earlier.ceiling
    &&& later.initialization_ratio == earlier.initialization_ratio
    &&& later.vesting_period == earlier.vesting_period
    &&& later.network_id == earlier.network_id
    &&& later.total_promised <= later.ceiling
    &&& forall|id: Seq<u8>| #[trigger]
        earlier.records.contains_key(id) ==> {
            &&& later.records.contains_key(id)
            &&& earlier.records[id].claimed <= later.records[id].claimed
            &&& later.records[id].claimed <= later.records[id].eligible_total(
                later.initialization_ratio,
            )
            &&& earlier.records[id].payout_address is Some ==> {
                &&& later.records[id].payout_address is Some
                &&& later.records[id].total_reward == earlier.records[id].total_reward
                &&& later.records[id].vote_threshold_met == earlier.records[id].vote_threshold_met
                &&& later.records[id].vesting_start == earlier.records[id].vesting_start
                &&& later.records[id].vesting_end == earlier.records[id].vesting_end
            }
        }
}

/// Following is transitive: what follows a registry that follows another
/// follows that other one too.
pub proof fn lemma_follows_chains(first: RegistryView, second: RegistryView, third: RegistryView)
    requires
        follows(first, second),
        follows(second, third),
    ensures
        follows(first, third),
{
    assert forall|id: Seq<u8>| #[trigger] first.records.contains_key(id) implies {
        &&& third.records.contains_key(id)
        &&& first.records[id].claimed <= third.records[id].claimed
        &&& first.records[id].payout_address is Some ==> {
            &&& third.records[id].payout_address is Some
            &&& third.records[id].total_reward == first.records[id].total_reward
            &&& third.records[id].vote_threshold_met == first.records[id].vote_threshold_met
            &&& third.records[id].vesting_start == first.records[id].vesting_start
            &&& third.records[id].vesting_end == first.records[id].vesting_end
        }
    } by {
        assert(second.records.contains_key(id));
    }
}

/// After a claim the registry follows the one before it.
pub proof fn lemma_claim_follows(state: ChainView, id: Seq<u8>)
    requires
        state.wf(),
    ensures
        follows(state.registry, state.claim_next(id).registry),
{
    lemma_claim_keeps_wf(state, id);
    if state.registry.records.contains_key(id) {
        lemma_unlocked_bounds(
            state.registry.records[id],
            state.registry.initialization_ratio,
            state.block_number,
        );
    }
}

/// After any call the registry follows the one before it.
pub proof fn lemma_dispatch_follows(state: ChainView, origin: Origin, call: Call)
    requires
        state.wf(),
    ensures
        follows(state.registry, state.dispatch_next(origin, call).registry),
{
    lemma_dispatch_keeps_wf(state, origin, call);
    match call {
        Call::Claim { remote_id } => {
            lemma_claim_follows(state, remote_id@);
        },
        _ => {},
    }
}

/// After the settlement of the first `count` identities the registry
/// follows the one before it.
pub proof fn lemma_settle_follows(state: ChainView, count: nat)
    requires
        state.wf(),
    ensures
        state.settle_first(count).wf(),
        follows(state.registry, state.settle_first(count).registry),
    decreases count,
{
    if count > 0 {
        let before = state.settle_first((count - 1) as nat);
        lemma_settle_follows(state, (count - 1) as nat);
        lemma_claim_follows(before, state.registry.ids[count - 1]);
        lemma_follows_chains(
            state.registry,
            before.registry,
            before.claim_next(state.registry.ids[count - 1]).registry,
        );
    }
}

/// After any step the chain is sound, its clock has not gone back, and its
/// registry follows the one before it.
pub proof fn lemma_step_follows(state: ChainView, step: Step)
    requires
        state.wf(),
    ensures
        state.step(step).wf(),
        state.step(step).block_number >= state.block_number,
        follows(state.registry, state.step(step).registry),
{
    match step {
        Step::Submit { origin, call } => {
            lemma_dispatch_keeps_wf(state, origin, call);
            lemma_dispatch_follows(state, origin, call);
        },
        Step::NextBlock => {
            if state.block_number < u64::MAX {
                let advanced = ChainView {
                    block_number: (state.block_number + 1) as BlockNumber,
                    ..state
                };
                lemma_settle_follows(advanced, advanced.registry.ids.len());
                lemma_settle_first_keeps_wf(advanced, advanced.registry.ids.len());
            }
        },
    }
}

/// After any sequence of steps the chain is sound, its clock has not gone
/// back, and its registry follows the one it started with.
pub proof fn lemma_run_follows(state: ChainView, steps: Seq<Step>)
    requires
        state.wf(),
    ensures
        state.run(steps).wf(),
        state.run(steps).block_number >= state.block_number,
        follows(state.registry, state.run(steps).registry),
    decreases steps.len(),
{
    if steps.len() > 0 {
        let before = state.run(steps.drop_last());
        lemma_run_follows(state, steps.drop_last());
        lemma_step_follows(before, steps.last());
        lemma_follows_chains(state.registry, before.registry, before.step(steps.last()).registry);
    }
}

/// The promised total never passes the ceiling. A registration that would
/// take it there is rejected with `AllocationExceeded` and changes nothing;
/// one that is accepted adds exactly its reward.
pub proof fn allocation_stays_within_ceiling(
    state: RegistryView,
    id: Seq<u8>,
    reward: Balance,
    met: bool,
)
    requires
        state.wf(),
    ensures
        state.register_next(id, reward, met).total_promised <= state.ceiling,
        state.register_next(id, reward, met).ceiling == state.ceiling,
        state.total_promised + reward > state.ceiling ==> {
            &&& state.register_result(id, reward) == Err::<(), Error>(Error::AllocationExceeded)
            &&& state.register_next(id, reward, met) == state
        },
        state.register_result(id, reward) is Ok ==> state.register_next(
            id,
            reward,
            met,
        ).total_promised == state.total_promised + reward,
        state.register_result(id, reward) is Err ==> state.register_next(id, reward, met)
            == state,
{
    lemma_register_keeps_wf(state, id, reward, met);
}

/// However many lines of an allocation list are registered, the promised
/// total stays within the ceiling.
pub proof fn allocation_list_stays_within_ceiling(
    state: RegistryView,
    contributors: Seq<(RelayChainAccountId, Balance, bool)>,
)
    requires
        state.wf(),
    ensures
        genesis_state(state, contributors).wf(),
        genesis_state(state, contributors).ceiling == state.ceiling,
        genesis_state(state, contributors).total_promised <= state.ceiling,
    decreases contributors.len(),
{
    if contributors.len() > 0 {
        let line = contributors.last();
        allocation_list_stays_within_ceiling(state, contributors.drop_last());
        lemma_register_keeps_wf(
            genesis_state(state, contributors.drop_last()),
            line.0@,
            line.1,
            line.2,
        );
    }
}

/// Whatever is submitted to the chain, and however many blocks pass, the
/// promised total stays within the ceiling, which stays what it was.
pub proof fn allocation_holds_on_every_run(state: ChainView, steps: Seq<Step>)
    requires
        state.wf(),
    ensures
        state.run(steps).registry.ceiling == state.registry.ceiling,
        state.run(steps).registry.total_promised <= state.registry.ceiling,
{
    lemma_run_follows(state, steps);
}

/// An identity is associated once: after an association that succeeded,
/// whatever else happens in between, every further association of the same
/// identity fails, for a signed caller with `AlreadyAssociated`, and leaves
/// the record as it was.
pub proof fn association_happens_once(
    state: ChainView,
    origin: Origin,
    remote_id: RelayChainAccountId,
    signature: Seq<u8>,
    account: AccountId,
    steps: Seq<Step>,
    later_origin: Origin,
    later_signature: Seq<u8>,
    later_account: AccountId,
)
    requires
        state.wf(),
        state.associate_result(origin, remote_id@, signature, account) is Ok,
    ensures
        ({
            let later = state.associate_next(origin, remote_id, signature, account).run(steps);
            &&& later.registry.associated(remote_id@)
            &&& later.associate_result(later_origin, remote_id@, later_signature, later_account)
                == Err::<(), Error>(
                if later_origin is Root {
                    Error::Unauthorized
                } else {
                    Error::AlreadyAssociated
                },
            )
            &&& later.associate_next(
                later_origin,
                remote_id,
                later_signature,
                later_account,
            ).registry == later.registry
        }),
{
    let associated = state.associate_next(origin, remote_id, signature, account);
    lemma_associate_keeps_wf(
        state.registry,
        remote_id@,
        account,
        state.block_number,
        true,
    );
    assert(associated.registry.records.contains_key(remote_id@));
    lemma_run_follows(associated, steps);
}

/// What a record has claimed never shrinks and never passes what the record
/// is eligible for, whatever is submitted and however many blocks pass.
pub proof fn claims_only_grow(state: ChainView, steps: Seq<Step>, id: Seq<u8>)
    requires
        state.wf(),
        state.registry.records.contains_key(id),
    ensures
        state.run(steps).registry.records.contains_key(id),
        state.registry.records[id].claimed <= state.run(steps).registry.records[id].claimed,
        state.run(steps).registry.records[id].claimed <= state.run(
            steps,
        ).registry.records[id].eligible_total(state.registry.initialization_ratio),
{
    lemma_run_follows(state, steps);
}

/// A claim adds to what the record has claimed exactly what it pays, and
/// touches no other record.
pub proof fn claim_counts_what_it_pays(state: ChainView, id: Seq<u8>, other: Seq<u8>)
    requires
        state.wf(),
        other != id,
    ensures
        state.claim_result(id) is Ok ==> {
            &&& state.registry.records.contains_key(id)
            &&& state.claim_next(id).registry.records[id].claimed
                == state.registry.records[id].claimed + state.claim_result(id)->Ok_0
            &&& state.claim_result(id)->Ok_0 == state.registry.records[id].claimable_at(
                state.registry.initialization_ratio,
                state.block_number,
            )
        },
        state.registry.records.contains_key(other) ==> state.claim_next(
            id,
        ).registry.records[other] == state.registry.records[other],
{
    if state.registry.records.contains_key(id) {
        lemma_unlocked_bounds(
            state.registry.records[id],
            state.registry.initialization_ratio,
            state.block_number,
        );
    }
}

/// A claim that fails changes nothing, on the ledger or in the registry, so
/// a retry in the same block is due the same amount and ends the same way.
pub proof fn failed_claim_changes_nothing(state: ChainView, id: Seq<u8>)
    requires
        state.claim_result(id) is Err,
    ensures
        state.claim_next(id) == state,
        state.claim_next(id).registry.due(id, state.block_number) == state.registry.due(
            id,
            state.block_number,
        ),
        state.claim_next(id).claim_result(id) == state.claim_result(id),
{
}

/// A refused transfer fails the claim with `TransferFailed` and leaves what
/// the record has claimed as it was.
pub proof fn refused_transfer_pays_nothing(state: RegistryView, id: Seq<u8>, block: BlockNumber)
    requires
        state.associated(id),
        state.records[id].claimable_at(state.initialization_ratio, block) > 0,
    ensures
        state.settle_result(id, block, false) == Err::<Balance, Error>(Error::TransferFailed),
        state.settle_next(id, block, false) == state,
{
}

/// A second claim in the same block succeeds and pays nothing: after a
/// claim that succeeded, the same claim again returns zero and changes
/// nothing.
pub proof fn second_claim_pays_nothing(state: ChainView, id: Seq<u8>)
    requires
        state.wf(),
        state.claim_result(id) is Ok,
    ensures
        state.claim_next(id).claim_result(id) == Ok::<Balance, Error>(0),
        state.claim_next(id).claim_next(id) == state.claim_next(id),
{
    lemma_unlocked_bounds(
        state.registry.records[id],
        state.registry.initialization_ratio,
        state.block_number,
    );
    lemma_settle_keeps_wf(state.registry, id, state.block_number, true);
}

/// Whether two chains differ at most in their logs.
pub open spec fn same_but_log(left: ChainView, right: ChainView) -> bool {
    &&& left.block_number == right.block_number
    &&& left.balances == right.balances
    &&& left.registry == right.registry
    &&& left.reserve == right.reserve
}

/// What a call does, to the registry and on the ledger, and how it ends,
/// does not depend on the log.
pub proof fn lemma_dispatch_ignores_log(left: ChainView, right: ChainView, origin: Origin, call: Call)
    requires
        same_but_log(left, right),
    ensures
        left.dispatch_result(origin, call) == right.dispatch_result(origin, call),
        same_but_log(left.dispatch_next(origin, call), right.dispatch_next(origin, call)),
{
}

/// The steps that submit `calls` one after the other on behalf of `origin`.
pub open spec fn submissions(origin: Origin, calls: Seq<Call>) -> Seq<Step> {
    Seq::new(calls.len(), |i: int| Step::Submit { origin, call: calls[i] })
}

/// A batch does to the registry and on the ledger what its calls would do
/// if they were submitted one after the other: bundling changes nothing
/// for any of them.
pub proof fn batch_is_its_calls_in_order(state: ChainView, origin: Origin, calls: Seq<Call>)
    ensures
        same_but_log(state.batch_items(origin, calls), state.run(submissions(origin, calls))),
        same_but_log(state.batch_next(origin, calls), state.run(submissions(origin, calls))),
    decreases calls.len(),
{
    if calls.len() > 0 {
        let steps = submissions(origin, calls);
        batch_is_its_calls_in_order(state, origin, calls.drop_last());
        assert(steps.drop_last() =~= submissions(origin, calls.drop_last()));
        assert(steps.last() == Step::Submit { origin, call: calls.last() });
        lemma_dispatch_ignores_log(
            state.batch_items(origin, calls.drop_last()),
            state.run(steps.drop_last()),
            origin,
            calls.last(),
        );
    }
}

/// Rolling on by one block more is rolling on and then one block more.
pub proof fn lemma_roll_by_one_more(state: ChainView, blocks: nat)
    ensures
        state.roll_by(blocks + 1) == state.roll_by(blocks).next_block(),
    decreases blocks,
{
    if blocks > 0 {
        lemma_roll_by_one_more(state.next_block(), (blocks - 1) as nat);
    } else {
        assert(state.next_block().roll_by(0) == state.next_block());
    }
}

/// Rolling on by `blocks` blocks is taking that many steps of one block.
pub proof fn rolling_is_stepping(state: ChainView, blocks: nat)
    requires
        state.wf(),
        state.block_number + blocks <= u64::MAX,
    ensures
        state.roll_by(blocks) == state.run(Seq::new(blocks, |i: int| Step::NextBlock)),
    decreases blocks,
{
    let steps = Seq::new(blocks, |i: int| Step::NextBlock);
    if blocks > 0 {
        let fewer = (blocks - 1) as nat;
        rolling_is_stepping(state, fewer);
        lemma_roll_by_one_more(state, fewer);
        lemma_roll_by_keeps_wf(state, fewer);
        assert(steps.drop_last() =~= Seq::new(fewer, |i: int| Step::NextBlock));
    }
}

} // verus!
