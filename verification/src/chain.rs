//! A chain in memory around the registry: a block clock, a ledger with the
//! pooled reserve, and the log of what happened. Calls are dispatched one
//! at a time, in order; every block settles what has vested.

use crate::ledger::{transfer_next, transfer_result, Balances, Ledger};
use crate::registry::{
    lemma_associate_keeps_wf, lemma_change_keeps_wf, lemma_register_keeps_wf,
    lemma_settle_keeps_wf, Registry, RegistryView,
};
use crate::signature::proof_valid;
use crate::types::{
    AccountId, Balance, BlockNumber, Error, Origin, RelayChainAccountId, Signature, MGA_TOKEN_ID,
};
use crate::vesting::RewardRecord;
use vstd::prelude::*;

verus! {

/// What the registry lets the outside world see.
#[derive(Clone, Copy, Debug, PartialEq, Eq)]
pub enum Event {
    /// A remote identity was bound to a payout address.
    NativeIdentityAssociated {
        remote_id: RelayChainAccountId,
        account: AccountId,
        total_reward: Balance,
    },
    /// An association was rejected.
    AssociationFailed { remote_id: RelayChainAccountId, error: Error },
    /// The payouts of a remote identity were redirected.
    RewardAddressUpdated { remote_id: RelayChainAccountId, previous: AccountId, current: AccountId },
    /// An amount was paid to a payout address.
    RewardsPaid { account: AccountId, amount: Balance },
}

/// What the batch dispatcher lets the outside world see.
#[derive(Clone, Copy, Debug, PartialEq, Eq)]
pub enum UtilityEvent {
    /// One call of a batch succeeded.
    ItemCompleted,
    /// One call of a batch failed; the batch went on.
    ItemFailed { error: Error },
    /// Every call of a batch succeeded.
    BatchCompleted,
    /// A batch ended, and some of its calls had failed.
    BatchCompletedWithErrors,
}

/// An entry of the chain's log.
#[derive(Clone, Copy, Debug, PartialEq, Eq)]
pub enum RuntimeEvent {
    Crowdloan(Event),
    Utility(UtilityEvent),
}

/// An operation that can be submitted to the chain.
#[derive(Clone, Copy, Debug, PartialEq, Eq)]
pub enum Call {
    /// Bind a remote identity to a payout address, with a proof of ownership.
    Associate { remote_id: RelayChainAccountId, signature: Signature, local_account: AccountId },
    /// Redirect the payouts of a remote identity.
    ChangeRewardAddress { remote_id: RelayChainAccountId, new_account: AccountId },
    /// Promise a reward to a remote identity.
    RegisterContributor {
        remote_id: RelayChainAccountId,
        total_reward: Balance,
        vote_threshold_met: bool,
    },
    /// Pay out what has unlocked for a remote identity.
    Claim { remote_id: RelayChainAccountId },
}

/// The chain as a mathematical value.
pub struct ChainView {
    /// The current block.
    pub block_number: BlockNumber,
    /// Everything that was logged, oldest first.
    pub log: Seq<RuntimeEvent>,
    /// The ledger.
    pub balances: Balances,
    /// The registry.
    pub registry: RegistryView,
    /// The account that holds the pooled reserve.
    pub reserve: AccountId,
}

impl ChainView {
    /// The invariant of the chain: that of its registry.
    pub open spec fn wf(self) -> bool {
        self.registry.wf()
    }

    /// This chain with one more entry in its log.
    pub open spec fn emit(self, event: RuntimeEvent) -> ChainView {
        ChainView { log: self.log.push(event), ..self }
    }

    /// Whether the ledger would move what a claim of `id` is due now.
    pub open spec fn can_pay(self, id: Seq<u8>) -> bool {
        match self.registry.due(id, self.block_number) {
            Ok(payout) => transfer_result(
                self.balances,
                MGA_TOKEN_ID,
                self.reserve,
                payout.to,
                payout.amount,
            ) is Ok,
            Err(_) => false,
        }
    }

    /// The outcome of a claim of `id` in the current block: the amount paid.
    pub open spec fn claim_result(self, id: Seq<u8>) -> Result<Balance, Error> {
        self.registry.settle_result(id, self.block_number, self.can_pay(id))
    }

    /// The chain after a claim of `id`: a claim that pays moves the amount
    /// from the reserve to the payout address, counts it as claimed and logs
    /// it; any other claim changes nothing.
    pub open spec fn claim_next(self, id: Seq<u8>) -> ChainView {
        match self.claim_result(id) {
            Ok(amount) => if amount == 0 {
                self
            } else {
                let to = self.registry.records[id].payout_address->0;
                ChainView {
                    balances: transfer_next(self.balances, MGA_TOKEN_ID, self.reserve, to, amount),
                    registry: self.registry.settle_next(id, self.block_number, true),
                    log: self.log.push(
                        RuntimeEvent::Crowdloan(Event::RewardsPaid { account: to, amount }),
                    ),
                    ..self
                }
            },
            Err(_) => self,
        }
    }

    /// The outcome of an association submitted by `origin`.
    pub open spec fn associate_result(
        self,
        origin: Origin,
        id: Seq<u8>,
        signature: Seq<u8>,
        account: AccountId,
    ) -> Result<(), Error> {
        if origin is Root {
            Err(Error::Unauthorized)
        } else {
            self.registry.associate_result(
                id,
                proof_valid(self.registry.network_id, account, id, signature),
            )
        }
    }

    /// The chain after an association submitted by `origin`: the registry
    /// binds the identity where it accepts, and the log tells either way.
    pub open spec fn associate_next(
        self,
        origin: Origin,
        remote_id: RelayChainAccountId,
        signature: Seq<u8>,
        account: AccountId,
    ) -> ChainView {
        match self.associate_result(origin, remote_id@, signature, account) {
            Ok(_) => ChainView {
                registry: self.registry.associate_next(
                    remote_id@,
                    account,
                    self.block_number,
                    true,
                ),
                log: self.log.push(
                    RuntimeEvent::Crowdloan(
                        Event::NativeIdentityAssociated {
                            remote_id,
                            account,
                            total_reward: self.registry.records[remote_id@].total_reward,
                        },
                    ),
                ),
                ..self
            },
            Err(error) => self.emit(
                RuntimeEvent::Crowdloan(Event::AssociationFailed { remote_id, error }),
            ),
        }
    }

    /// The chain after `origin` redirected the payouts of an identity.
    pub open spec fn change_next(
        self,
        origin: Origin,
        remote_id: RelayChainAccountId,
        account: AccountId,
    ) -> ChainView {
        match self.registry.change_result(remote_id@, origin) {
            Ok(_) => ChainView {
                registry: self.registry.change_next(remote_id@, account, origin),
                log: self.log.push(
                    RuntimeEvent::Crowdloan(
                        Event::RewardAddressUpdated {
                            remote_id,
                            previous: self.registry.records[remote_id@].payout_address->0,
                            current: account,
                        },
                    ),
                ),
                ..self
            },
            Err(_) => self,
        }
    }

    /// The outcome of a registration submitted by `origin`.
    pub open spec fn register_result(self, origin: Origin, id: Seq<u8>, reward: Balance)
        -> Result<(), Error> {
        if origin is Root {
            self.registry.register_result(id, reward)
        } else {
            Err(Error::Unauthorized)
        }
    }

    /// The chain after a registration submitted by `origin`.
    pub open spec fn register_next(self, origin: Origin, id: Seq<u8>, reward: Balance, met: bool)
        -> ChainView {
        if origin is Root {
            ChainView { registry: self.registry.register_next(id, reward, met), ..self }
        } else {
            self
        }
    }

    /// The outcome of `call`, submitted by `origin`.
    pub open spec fn dispatch_result(self, origin: Origin, call: Call) -> Result<(), Error> {
        match call {
            Call::Associate { remote_id, signature, local_account } => self.associate_result(
                origin,
                remote_id@,
                signature@,
                local_account,
            ),
            Call::ChangeRewardAddress { remote_id, new_account } => self.registry.change_result(
                remote_id@,
                origin,
            ),
            Call::RegisterContributor { remote_id, total_reward, vote_threshold_met } =>
                self.register_result(origin, remote_id@, total_reward),
            Call::Claim { remote_id } => match self.claim_result(remote_id@) {
                Ok(_) => Ok(()),
                Err(error) => Err(error),
            },
        }
    }

    /// The chain after `call`, submitted by `origin`.
    pub open spec fn dispatch_next(self, origin: Origin, call: Call) -> ChainView {
        match call {
            Call::Associate { remote_id, signature, local_account } => self.associate_next(
                origin,
                remote_id,
                signature@,
                local_account,
            ),
            Call::ChangeRewardAddress { remote_id, new_account } => self.change_next(
                origin,
                remote_id,
                new_account,
            ),
            Call::RegisterContributor { remote_id, total_reward, vote_threshold_met } =>
                self.register_next(origin, remote_id@, total_reward, vote_threshold_met),
            Call::Claim { remote_id } => self.claim_next(remote_id@),
        }
    }

    /// The entry that the batch dispatcher logs for one of its calls.
    pub open spec fn item_event(outcome: Result<(), Error>) -> RuntimeEvent {
        match outcome {
            Ok(_) => RuntimeEvent::Utility(UtilityEvent::ItemCompleted),
            Err(error) => RuntimeEvent::Utility(UtilityEvent::ItemFailed { error }),
        }
    }

    /// The chain after the calls of a batch: each one is carried out on what
    /// the ones before it left, and logged, whether it succeeds or fails.
    pub open spec fn batch_items(self, origin: Origin, calls: Seq<Call>) -> ChainView
        decreases calls.len(),
    {
        if calls.len() == 0 {
            self
        } else {
            let before = self.batch_items(origin, calls.drop_last());
            before.dispatch_next(origin, calls.last()).emit(
                Self::item_event(before.dispatch_result(origin, calls.last())),
            )
        }
    }

    /// The number of calls of a batch that fail.
    pub open spec fn batch_failures(self, origin: Origin, calls: Seq<Call>) -> nat
        decreases calls.len(),
    {
        if calls.len() == 0 {
            0
        } else {
            let before = self.batch_items(origin, calls.drop_last());
            let failed: nat = if before.dispatch_result(origin, calls.last()) is Err {
                1
            } else {
                0
            };
            self.batch_failures(origin, calls.drop_last()) + failed
        }
    }

    /// The chain after a batch: after its calls, the log says whether all
    /// of them succeeded.
    pub open spec fn batch_next(self, origin: Origin, calls: Seq<Call>) -> ChainView {
        self.batch_items(origin, calls).emit(
            RuntimeEvent::Utility(
                if self.batch_failures(origin, calls) == 0 {
                    UtilityEvent::BatchCompleted
                } else {
                    UtilityEvent::BatchCompletedWithErrors
                },
            ),
        )
    }

    /// The chain after a claim for each of the first `count` registered
    /// identities, in the order of their registration.
    pub open spec fn settle_first(self, count: nat) -> ChainView
        decreases count,
    {
        if count == 0 {
            self
        } else {
            self.settle_first((count - 1) as nat).claim_next(self.registry.ids[count - 1])
        }
    }

    /// The chain after the settlement of a block: a claim for every
    /// registered identity. Claims that fail are passed over.
    pub open spec fn settle_all(self) -> ChainView {
        self.settle_first(self.registry.ids.len())
    }

    /// The chain one block later, settled.
    pub open spec fn next_block(self) -> ChainView {
        ChainView { block_number: (self.block_number + 1) as BlockNumber, ..self }.settle_all()
    }

    /// The chain `blocks` blocks later.
    pub open spec fn roll_by(self, blocks: nat) -> ChainView
        decreases blocks,
    {
        if blocks == 0 {
            self
        } else {
            self.next_block().roll_by((blocks - 1) as nat)
        }
    }

    /// The chain at block `target`: unchanged if it is there already or
    /// beyond, else rolled on block by block.
    pub open spec fn roll_to(self, target: BlockNumber) -> ChainView {
        if self.block_number >= target {
            self
        } else {
            self.roll_by((target - self.block_number) as nat)
        }
    }

    /// The entries of the log that the registry wrote, oldest first.
    pub open spec fn crowdloan_events(self) -> Seq<Event> {
        self.log.filter_map(
            |entry: RuntimeEvent|
                match entry {
                    RuntimeEvent::Crowdloan(inner) => Some(inner),
                    _ => None,
                },
        )
    }

    /// The entries of the log that the batch dispatcher wrote, oldest first.
    pub open spec fn utility_events(self) -> Seq<UtilityEvent> {
        self.log.filter_map(
            |entry: RuntimeEvent|
                match entry {
                    RuntimeEvent::Utility(inner) => Some(inner),
                    _ => None,
                },
        )
    }
}

/// No call breaks the chain's invariant, moves its clock, replaces its
/// reserve account or its configuration, or forgets a registered identity.
pub proof fn lemma_dispatch_keeps_wf(state: ChainView, origin: Origin, call: Call)
    requires
        state.wf(),
    ensures
        state.dispatch_next(origin, call).wf(),
        state.dispatch_next(origin, call).block_number == state.block_number,
        state.dispatch_next(origin, call).reserve == state.reserve,
        state.dispatch_next(origin, call).registry.ceiling == state.registry.ceiling,
        state.dispatch_next(origin, call).registry.total_promised <= state.registry.ceiling,
{
    match call {
        Call::Associate { remote_id, signature, local_account } => {
            lemma_associate_keeps_wf(
                state.registry,
                remote_id@,
                local_account,
                state.block_number,
                true,
            );
        },
        Call::ChangeRewardAddress { remote_id, new_account } => {
            lemma_change_keeps_wf(state.registry, remote_id@, new_account, origin);
        },
        Call::RegisterContributor { remote_id, total_reward, vote_threshold_met } => {
            lemma_register_keeps_wf(state.registry, remote_id@, total_reward, vote_threshold_met);
        },
        Call::Claim { remote_id } => {
            lemma_claim_keeps_wf(state, remote_id@);
        },
    }
}

/// A claim keeps the chain's invariant and touches neither the clock nor
/// the list of registered identities.
pub proof fn lemma_claim_keeps_wf(state: ChainView, id: Seq<u8>)
    requires
        state.wf(),
    ensures
        state.claim_next(id).wf(),
        state.claim_next(id).block_number == state.block_number,
        state.claim_next(id).reserve == state.reserve,
        state.claim_next(id).registry.ids == state.registry.ids,
        state.claim_next(id).registry.ceiling == state.registry.ceiling,
        state.claim_next(id).registry.total_promised == state.registry.total_promised,
{
    lemma_settle_keeps_wf(state.registry, id, state.block_number, true);
}

/// The chain: clock, log, ledger and registry.
#[derive(Debug)]
pub struct Chain {
    /// The current block.
    pub block_number: BlockNumber,
    /// The log, oldest entry first.
    pub events: Vec<RuntimeEvent>,
    /// The ledger.
    pub tokens: Ledger,
    /// The registry.
    pub crowdloan: Registry,
    /// The account that holds the pooled reserve.
    pub reserve: AccountId,
}

impl View for Chain {
    type V = ChainView;

    open spec fn view(&self) -> ChainView {
        ChainView {
            block_number: self.block_number,
            log: self.events@,
            balances: self.tokens@,
            registry: self.crowdloan@,
            reserve: self.reserve,
        }
    }
}

impl Chain {
    /// The invariant that every operation keeps.
    pub open spec fn wf(&self) -> bool {
        self@.wf()
    }

    /// A chain at block `block_number` with an empty log.
    pub fn new(block_number: BlockNumber, tokens: Ledger, crowdloan: Registry, reserve: AccountId)
        -> (chain: Chain)
        requires
            crowdloan.wf(),
        ensures
            chain.wf(),
            chain@ == (ChainView {
                block_number,
                log: Seq::empty(),
                balances: tokens@,
                registry: crowdloan@,
                reserve,
            }),
    {
        Chain { block_number, events: Vec::new(), tokens, crowdloan, reserve }
    }

    /// Pays `remote_id` what has unlocked for it by the current block and
    /// was not paid before, out of the reserve. Fails with `NotAssociated`
    /// where the identity has no payout address. A claim of nothing succeeds
    /// with zero. Where the ledger refuses the transfer the claim fails with
    /// `TransferFailed`. A failed claim changes nothing.
    pub fn claim(&mut self, remote_id: &RelayChainAccountId) -> (result: Result<Balance, Error>)
        requires
            old(self).wf(),
        ensures
            final(self).wf(),
            result == old(self)@.claim_result(remote_id@),
            final(self)@ == old(self)@.claim_next(remote_id@),
    {
        proof {
            lemma_claim_keeps_wf(self@, remote_id@);
        }
        let payout = match self.crowdloan.claim_due(remote_id, self.block_number) {
            Err(error) => {
                return Err(error);
            },
            Ok(payout) => payout,
        };
        if payout.amount == 0 {
            return Ok(0);
        }
        match self.tokens.transfer(MGA_TOKEN_ID, self.reserve, payout.to, payout.amount) {
            Err(_) => Err(Error::TransferFailed),
            Ok(_) => {
                let settled = self.crowdloan.settle_claim(remote_id, self.block_number, true);
                self.events.push(
                    RuntimeEvent::Crowdloan(
                        Event::RewardsPaid { account: payout.to, amount: payout.amount },
                    ),
                );
                settled
            },
        }
    }

    /// Binds `remote_id` to `local_account` at the current block, for a
    /// signed caller who submits the identity's signature of the challenge.
    /// The privileged origin is `Unauthorized`; the other failures are those
    /// of the registry. The log tells of success and of failure.
    pub fn associate(
        &mut self,
        origin: Origin,
        remote_id: &RelayChainAccountId,
        signature: &Signature,
        local_account: AccountId,
    ) -> (result: Result<(), Error>)
        requires
            old(self).wf(),
        ensures
            final(self).wf(),
            result == old(self)@.associate_result(origin, remote_id@, signature@, local_account),
            final(self)@ == old(self)@.associate_next(
                origin,
                *remote_id,
                signature@,
                local_account,
            ),
    {
        let ghost accepted = proof_valid(
            self@.registry.network_id,
            local_account,
            remote_id@,
            signature@,
        );
        proof {
            lemma_associate_keeps_wf(
                self@.registry,
                remote_id@,
                local_account,
                self.block_number,
                accepted,
            );
        }
        let result = match origin {
            Origin::Root => Err(Error::Unauthorized),
            Origin::Signed(_) => self.crowdloan.associate(
                remote_id,
                signature,
                local_account,
                self.block_number,
            ),
        };
        let event = match result {
            Err(error) => Event::AssociationFailed { remote_id: *remote_id, error },
            Ok(_) => {
                let total_reward = match self.crowdloan.record(remote_id) {
                    Some(record) => record.total_reward,
                    None => 0,
                };
                Event::NativeIdentityAssociated {
                    remote_id: *remote_id,
                    account: local_account,
                    total_reward,
                }
            },
        };
        self.events.push(RuntimeEvent::Crowdloan(event));
        result
    }

    /// Redirects the future payouts of `remote_id` to `new_account`, for the
    /// current payout address or the privileged origin.
    pub fn change_reward_address(
        &mut self,
        origin: Origin,
        remote_id: &RelayChainAccountId,
        new_account: AccountId,
    ) -> (result: Result<(), Error>)
        requires
            old(self).wf(),
        ensures
            final(self).wf(),
            result == old(self)@.registry.change_result(remote_id@, origin),
            final(self)@ == old(self)@.change_next(origin, *remote_id, new_account),
    {
        let before = self.crowdloan.record(remote_id);
        let result = self.crowdloan.change_reward_address(remote_id, new_account, origin);
        if result.is_ok() {
            let previous = match before {
                Some(RewardRecord { payout_address: Some(account), .. }) => account,
                _ => new_account,
            };
            self.events.push(
                RuntimeEvent::Crowdloan(
                    Event::RewardAddressUpdated {
                        remote_id: *remote_id,
                        previous,
                        current: new_account,
                    },
                ),
            );
        }
        result
    }

    /// Promises `total_reward` to `remote_id`, for the privileged origin
    /// alone; anyone else is `Unauthorized`.
    pub fn register_contributor(
        &mut self,
        origin: Origin,
        remote_id: &RelayChainAccountId,
        total_reward: Balance,
        vote_threshold_met: bool,
    ) -> (result: Result<(), Error>)
        requires
            old(self).wf(),
        ensures
            final(self).wf(),
            result == old(self)@.register_result(origin, remote_id@, total_reward),
            final(self)@ == old(self)@.register_next(
                origin,
                remote_id@,
                total_reward,
                vote_threshold_met,
            ),
    {
        match origin {
            Origin::Root => self.crowdloan.register_contributor(
                remote_id,
                total_reward,
                vote_threshold_met,
            ),
            Origin::Signed(_) => Err(Error::Unauthorized),
        }
    }

    /// Carries out `call` on behalf of `origin`.
    pub fn dispatch(&mut self, origin: Origin, call: &Call) -> (result: Result<(), Error>)
        requires
            old(self).wf(),
        ensures
            final(self).wf(),
            result == old(self)@.dispatch_result(origin, *call),
            final(self)@ == old(self)@.dispatch_next(origin, *call),
    {
        match call {
            Call::Associate { remote_id, signature, local_account } => self.associate(
                origin,
                remote_id,
                signature,
                *local_account,
            ),
            Call::ChangeRewardAddress { remote_id, new_account } => self.change_reward_address(
                origin,
                remote_id,
                *new_account,
            ),
            Call::RegisterContributor { remote_id, total_reward, vote_threshold_met } =>
                self.register_contributor(origin, remote_id, *total_reward, *vote_threshold_met),
            Call::Claim { remote_id } => match self.claim(remote_id) {
                Ok(_) => Ok(()),
                Err(error) => Err(error),
            },
        }
    }
}


/// Settling keeps the chain's invariant and touches neither the clock nor
/// the list of registered identities.
pub proof fn lemma_settle_first_keeps_wf(state: ChainView, count: nat)
    requires
        state.wf(),
        count <= state.registry.ids.len(),
    ensures
        state.settle_first(count).wf(),
        state.settle_first(count).block_number == state.block_number,
        state.settle_first(count).reserve == state.reserve,
        state.settle_first(count).registry.ids == state.registry.ids,
        state.settle_first(count).registry.ceiling == state.registry.ceiling,
        state.settle_first(count).registry.total_promised == state.registry.total_promised,
    decreases count,
{
    if count > 0 {
        lemma_settle_first_keeps_wf(state, (count - 1) as nat);
        lemma_claim_keeps_wf(
            state.settle_first((count - 1) as nat),
            state.registry.ids[count - 1],
        );
    }
}

/// Rolling on keeps the chain's invariant and moves the clock by exactly
/// the number of blocks rolled.
pub proof fn lemma_roll_by_keeps_wf(state: ChainView, blocks: nat)
    requires
        state.wf(),
        state.block_number + blocks <= u64::MAX,
    ensures
        state.roll_by(blocks).wf(),
        state.roll_by(blocks).block_number == state.block_number + blocks,
        state.roll_by(blocks).registry.ids == state.registry.ids,
        state.roll_by(blocks).registry.total_promised == state.registry.total_promised,
    decreases blocks,
{
    if blocks > 0 {
        let advanced = ChainView {
            block_number: (state.block_number + 1) as BlockNumber,
            ..state
        };
        lemma_settle_first_keeps_wf(advanced, advanced.registry.ids.len());
        lemma_roll_by_keeps_wf(state.next_block(), (blocks - 1) as nat);
    }
}

impl Chain {
    /// Carries out the calls of a batch in order, each on what the ones
    /// before it left. A call that fails does not stop the batch. Returns
    /// the number of calls that failed.
    pub fn batch(&mut self, origin: Origin, calls: &Vec<Call>) -> (failed: usize)
        requires
            old(self).wf(),
        ensures
            final(self).wf(),
            failed == old(self)@.batch_failures(origin, calls@),
            final(self)@ == old(self)@.batch_next(origin, calls@),
    {
        let mut failed: usize = 0;
        let mut i: usize = 0;
        assert(calls@.take(0) =~= Seq::empty());
        while i < calls.len()
            invariant
                i <= calls.len(),
                failed <= i,
                self.wf(),
                failed == old(self)@.batch_failures(origin, calls@.take(i as int)),
                self@ == old(self)@.batch_items(origin, calls@.take(i as int)),
            decreases calls.len() - i,
        {
            proof {
                assert(calls@.take(i + 1).drop_last() =~= calls@.take(i as int));
                assert(calls@.take(i + 1).last() == calls@[i as int]);
            }
            let outcome = self.dispatch(origin, &calls[i]);
            let entry = match outcome {
                Ok(_) => UtilityEvent::ItemCompleted,
                Err(error) => {
                    failed += 1;
                    UtilityEvent::ItemFailed { error }
                },
            };
            self.events.push(RuntimeEvent::Utility(entry));
            i += 1;
        }
        assert(calls@.take(i as int) =~= calls@);
        let summary = if failed == 0 {
            UtilityEvent::BatchCompleted
        } else {
            UtilityEvent::BatchCompletedWithErrors
        };
        self.events.push(RuntimeEvent::Utility(summary));
        failed
    }

    /// Settles the current block: pays every registered identity what has
    /// unlocked for it. Identities without a payout address, and payouts
    /// that the ledger refuses, are passed over.
    pub fn on_initialize(&mut self)
        requires
            old(self).wf(),
        ensures
            final(self).wf(),
            final(self)@ == old(self)@.settle_all(),
    {
        let count = self.crowdloan.len();
        let mut i: usize = 0;
        while i < count
            invariant
                i <= count,
                count == old(self)@.registry.ids.len(),
                old(self).wf(),
                self.wf(),
                self@ == old(self)@.settle_first(i as nat),
            decreases count - i,
        {
            proof {
                lemma_settle_first_keeps_wf(old(self)@, i as nat);
            }
            match self.crowdloan.remote_id_at(i) {
                Some(remote_id) => {
                    let _ = self.claim(&remote_id);
                },
                None => {},
            }
            i += 1;
        }
    }
}

/// Rolls the chain on to block `n`: until the clock shows `n`, moves it on
/// by one block and settles that block. A chain at `n` or beyond stays as
/// it is.
pub fn roll_to(chain: &mut Chain, n: BlockNumber)
    requires
        old(chain).wf(),
    ensures
        final(chain).wf(),
        final(chain)@ == old(chain)@.roll_to(n),
        final(chain)@.block_number == if old(chain)@.block_number >= n {
            old(chain)@.block_number
        } else {
            n
        },
        final(chain)@.registry.ids == old(chain)@.registry.ids,
        final(chain)@.registry.total_promised == old(chain)@.registry.total_promised,
{
    proof {
        if chain@.block_number < n {
            lemma_roll_by_keeps_wf(chain@, (n - chain@.block_number) as nat);
        }
    }
    while chain.block_number < n
        invariant
            chain.wf(),
            chain@.roll_to(n) == old(chain)@.roll_to(n),
        decreases n - chain.block_number,
    {
        let ghost before = chain@;
        proof {
            let advanced = ChainView {
                block_number: (before.block_number + 1) as BlockNumber,
                ..before
            };
            lemma_settle_first_keeps_wf(advanced, advanced.registry.ids.len());
            assert(before.roll_to(n) == before.next_block().roll_by(
                (n - before.block_number - 1) as nat,
            ));
        }
        chain.block_number = chain.block_number + 1;
        chain.on_initialize();
        proof {
            assert(chain@ == before.next_block());
            assert(chain@.roll_by(0) == chain@);
        }
    }
}

/// The events that the registry logged, oldest first.
pub fn events(chain: &Chain) -> (logged: Vec<Event>)
    ensures
        logged@ == chain@.crowdloan_events(),
{
    let ghost pick = |entry: RuntimeEvent|
        match entry {
            RuntimeEvent::Crowdloan(inner) => Some(inner),
            _ => None,
        };
    let mut logged: Vec<Event> = Vec::new();
    let mut i: usize = 0;
    assert(chain.events@.take(0) =~= Seq::empty());
    while i < chain.events.len()
        invariant
            i <= chain.events.len(),
            pick == |entry: RuntimeEvent|
                match entry {
                    RuntimeEvent::Crowdloan(inner) => Some(inner),
                    _ => None,
                },
            logged@ == chain.events@.take(i as int).filter_map(pick),
        decreases chain.events.len() - i,
    {
        proof {
            chain.events@.lemma_filter_map_take_succ(pick, i as int);
        }
        if let RuntimeEvent::Crowdloan(inner) = chain.events[i] {
            logged.push(inner);
        }
        i += 1;
    }
    assert(chain.events@.take(i as int) =~= chain.events@);
    logged
}

/// The events that the batch dispatcher logged, oldest first.
pub fn batch_events(chain: &Chain) -> (logged: Vec<UtilityEvent>)
    ensures
        logged@ == chain@.utility_events(),
{
    let ghost pick = |entry: RuntimeEvent|
        match entry {
            RuntimeEvent::Utility(inner) => Some(inner),
            _ => None,
        };
    let mut logged: Vec<UtilityEvent> = Vec::new();
    let mut i: usize = 0;
    assert(chain.events@.take(0) =~= Seq::empty());
    while i < chain.events.len()
        invariant
            i <= chain.events.len(),
            pick == |entry: RuntimeEvent|
                match entry {
                    RuntimeEvent::Utility(inner) => Some(inner),
                    _ => None,
                },
            logged@ == chain.events@.take(i as int).filter_map(pick),
        decreases chain.events.len() - i,
    {
        proof {
            chain.events@.lemma_filter_map_take_succ(pick, i as int);
        }
        if let RuntimeEvent::Utility(inner) = chain.events[i] {
            logged.push(inner);
        }
        i += 1;
    }
    assert(chain.events@.take(i as int) =~= chain.events@);
    logged
}


} // verus!
