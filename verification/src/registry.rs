//! The contributor registry: one reward record per remote identity, and the
//! allocation pool that bounds what all of them together were promised.

use crate::fraction::lemma_scale_bounds;
use crate::signature::{proof_valid, verify_proof};
use crate::types::{
    AccountId, Balance, BlockNumber, Error, Origin, RelayChainAccountId, Signature,
};
use crate::vesting::{lemma_unlocked_bounds, Ratio, RewardRecord, BILLION};
use vstd::prelude::*;

verus! {

/// An instruction to the ledger: credit `amount` to the account `to`.
#[derive(Clone, Copy, Debug, PartialEq, Eq, Structural)]
pub struct Payout {
    pub to: AccountId,
    pub amount: Balance,
}

/// The sum of the rewards that `records` promises to the identities `ids`.
pub open spec fn promised_sum(ids: Seq<Seq<u8>>, records: Map<Seq<u8>, RewardRecord>) -> int
    decreases ids.len(),
{
    if ids.len() == 0 {
        0
    } else {
        promised_sum(ids.drop_last(), records) + records[ids.last()].total_reward
    }
}

/// The block at which a schedule that starts at `start` ends: `period`
/// blocks later, or at the last block there is.
pub open spec fn schedule_end(start: BlockNumber, period: BlockNumber) -> BlockNumber {
    if start + period <= u64::MAX {
        (start + period) as BlockNumber
    } else {
        u64::MAX
    }
}

/// The registry as a mathematical value.
pub struct RegistryView {
    /// The registered identities, in the order of their registration.
    pub ids: Seq<Seq<u8>>,
    /// The record of each registered identity.
    pub records: Map<Seq<u8>, RewardRecord>,
    /// The allocation ceiling.
    pub ceiling: Balance,
    /// The sum of all promised rewards.
    pub total_promised: Balance,
    /// The fraction of a reward that unlocks at association.
    pub initialization_ratio: Ratio,
    /// The number of blocks over which the rest vests.
    pub vesting_period: BlockNumber,
    /// The network identifier that every challenge starts with.
    pub network_id: Seq<u8>,
}

impl RegistryView {
    /// The invariant of the registry: identities are registered once, every
    /// record is sound, and the promised total is the sum of the records'
    /// rewards and within the ceiling.
    pub open spec fn wf(self) -> bool {
        &&& self.initialization_ratio.wf()
        &&& self.ids.no_duplicates()
        &&& self.records.dom() =~= self.ids.to_set()
        &&& forall|id: Seq<u8>| #[trigger]
            self.records.contains_key(id) ==> self.records[id].wf(self.initialization_ratio)
        &&& self.total_promised == promised_sum(self.ids, self.records)
        &&& self.total_promised <= self.ceiling
    }

    /// A registry without records.
    pub open spec fn empty(
        ceiling: Balance,
        initialization_ratio: Ratio,
        vesting_period: BlockNumber,
        network_id: Seq<u8>,
    ) -> RegistryView {
        RegistryView {
            ids: Seq::empty(),
            records: Map::empty(),
            ceiling,
            total_promised: 0,
            initialization_ratio,
            vesting_period,
            network_id,
        }
    }

    /// Whether `id` has a record with a payout address.
    pub open spec fn associated(self, id: Seq<u8>) -> bool {
        self.records.contains_key(id) && self.records[id].payout_address is Some
    }

    /// This registry with the record of `id` replaced.
    pub open spec fn with_record(self, id: Seq<u8>, record: RewardRecord) -> RegistryView {
        RegistryView { records: self.records.insert(id, record), ..self }
    }

    /// The outcome of registering `reward` for `id`.
    pub open spec fn register_result(self, id: Seq<u8>, reward: Balance) -> Result<(), Error> {
        if self.total_promised + reward > self.ceiling {
            Err(Error::AllocationExceeded)
        } else if self.associated(id) {
            Err(Error::AlreadyAssociated)
        } else {
            Ok(())
        }
    }

    /// The registry after registering `reward` for `id`: a new identity gets
    /// a fresh record; a known one that is not yet associated has the reward
    /// added to its own and takes the new threshold outcome.
    pub open spec fn register_next(self, id: Seq<u8>, reward: Balance, met: bool) -> RegistryView {
        if self.register_result(id, reward) is Err {
            self
        } else if self.records.contains_key(id) {
            let record = RewardRecord {
                total_reward: (self.records[id].total_reward + reward) as Balance,
                vote_threshold_met: met,
                ..self.records[id]
            };
            RegistryView {
                records: self.records.insert(id, record),
                total_promised: (self.total_promised + reward) as Balance,
                ..self
            }
        } else {
            let record = RewardRecord {
                total_reward: reward,
                claimed: 0,
                payout_address: None,
                vote_threshold_met: met,
                vesting_start: 0,
                vesting_end: 0,
            };
            RegistryView {
                ids: self.ids.push(id),
                records: self.records.insert(id, record),
                total_promised: (self.total_promised + reward) as Balance,
                ..self
            }
        }
    }

    /// The outcome of an association of `id`, given whether the proof of
    /// ownership was accepted.
    pub open spec fn associate_result(self, id: Seq<u8>, proof_accepted: bool) -> Result<
        (),
        Error,
    > {
        if !self.records.contains_key(id) {
            Err(Error::UnknownContributor)
        } else if self.records[id].payout_address is Some {
            Err(Error::AlreadyAssociated)
        } else if !proof_accepted {
            Err(Error::InvalidProof)
        } else {
            Ok(())
        }
    }

    /// The registry after an association of `id` with `account` at `block`.
    pub open spec fn associate_next(
        self,
        id: Seq<u8>,
        account: AccountId,
        block: BlockNumber,
        proof_accepted: bool,
    ) -> RegistryView {
        if self.associate_result(id, proof_accepted) is Err {
            self
        } else {
            self.with_record(
                id,
                RewardRecord {
                    payout_address: Some(account),
                    vesting_start: block,
                    vesting_end: schedule_end(block, self.vesting_period),
                    ..self.records[id]
                },
            )
        }
    }

    /// The outcome of redirecting the payouts of `id` on behalf of `origin`.
    pub open spec fn change_result(self, id: Seq<u8>, origin: Origin) -> Result<(), Error> {
        if !self.associated(id) {
            Err(Error::NotAssociated)
        } else if origin != Origin::Root && origin != Origin::Signed(
            self.records[id].payout_address->0,
        ) {
            Err(Error::Unauthorized)
        } else {
            Ok(())
        }
    }

    /// The registry after redirecting the payouts of `id` to `account`.
    pub open spec fn change_next(self, id: Seq<u8>, account: AccountId, origin: Origin)
        -> RegistryView {
        if self.change_result(id, origin) is Err {
            self
        } else {
            self.with_record(
                id,
                RewardRecord { payout_address: Some(account), ..self.records[id] },
            )
        }
    }

    /// What a claim of `id` at `block` asks of the ledger.
    pub open spec fn due(self, id: Seq<u8>, block: BlockNumber) -> Result<Payout, Error> {
        if !self.associated(id) {
            Err(Error::NotAssociated)
        } else {
            Ok(
                Payout {
                    to: self.records[id].payout_address->0,
                    amount: self.records[id].claimable_at(self.initialization_ratio, block) as Balance,
                },
            )
        }
    }

    /// The outcome of a claim of `id` at `block`, given whether the ledger
    /// moved the funds: the amount paid, which may be zero.
    pub open spec fn settle_result(self, id: Seq<u8>, block: BlockNumber, transferred: bool)
        -> Result<Balance, Error> {
        if !self.associated(id) {
            Err(Error::NotAssociated)
        } else if self.records[id].claimable_at(self.initialization_ratio, block) == 0 {
            Ok(0)
        } else if !transferred {
            Err(Error::TransferFailed)
        } else {
            Ok(self.records[id].claimable_at(self.initialization_ratio, block) as Balance)
        }
    }

    /// The registry after a claim of `id` at `block`: the amount paid is
    /// added to what the record has claimed, and nothing else changes.
    pub open spec fn settle_next(self, id: Seq<u8>, block: BlockNumber, transferred: bool)
        -> RegistryView {
        match self.settle_result(id, block, transferred) {
            Ok(amount) => if amount == 0 {
                self
            } else {
                self.with_record(
                    id,
                    RewardRecord {
                        claimed: (self.records[id].claimed + amount) as Balance,
                        ..self.records[id]
                    },
                )
            },
            Err(_) => self,
        }
    }
}

/// Replacing the record of an identity outside `ids` leaves the sum alone.
pub proof fn lemma_sum_insert_absent(
    ids: Seq<Seq<u8>>,
    records: Map<Seq<u8>, RewardRecord>,
    id: Seq<u8>,
    record: RewardRecord,
)
    requires
        !ids.contains(id),
    ensures
        promised_sum(ids, records.insert(id, record)) == promised_sum(ids, records),
    decreases ids.len(),
{
    if ids.len() > 0 {
        assert(ids.last() == ids[ids.len() - 1]);
        assert forall|j: int| 0 <= j < ids.drop_last().len() implies ids.drop_last()[j] != id by {
            assert(ids[j] == ids.drop_last()[j]);
        }
        lemma_sum_insert_absent(ids.drop_last(), records, id, record);
    }
}

/// Replacing the record of the identity at `index` changes the sum by the
/// difference of the two rewards.
pub proof fn lemma_sum_insert_present(
    ids: Seq<Seq<u8>>,
    records: Map<Seq<u8>, RewardRecord>,
    index: int,
    record: RewardRecord,
)
    requires
        ids.no_duplicates(),
        0 <= index < ids.len(),
    ensures
        promised_sum(ids, records.insert(ids[index], record)) == promised_sum(ids, records)
            - records[ids[index]].total_reward + record.total_reward,
    decreases ids.len(),
{
    let rest = ids.drop_last();
    if index == ids.len() - 1 {
        assert forall|j: int| 0 <= j < rest.len() implies rest[j] != ids[index] by {
            assert(ids[j] == rest[j]);
        }
        lemma_sum_insert_absent(rest, records, ids[index], record);
    } else {
        assert(rest[index] == ids[index]);
        lemma_sum_insert_present(rest, records, index, record);
    }
}

/// No record was promised more than all of them together.
pub proof fn lemma_sum_bounds(ids: Seq<Seq<u8>>, records: Map<Seq<u8>, RewardRecord>, index: int)
    requires
        0 <= index < ids.len(),
    ensures
        0 <= records[ids[index]].total_reward <= promised_sum(ids, records),
    decreases ids.len(),
{
    lemma_sum_nonnegative(ids.drop_last(), records);
    if index < ids.len() - 1 {
        assert(ids.drop_last()[index] == ids[index]);
        lemma_sum_bounds(ids.drop_last(), records, index);
    }
}

/// The sum of rewards is not negative.
pub proof fn lemma_sum_nonnegative(ids: Seq<Seq<u8>>, records: Map<Seq<u8>, RewardRecord>)
    ensures
        0 <= promised_sum(ids, records),
    decreases ids.len(),
{
    if ids.len() > 0 {
        lemma_sum_nonnegative(ids.drop_last(), records);
    }
}

/// Registration keeps the registry sound: in particular the promised total
/// stays within the ceiling, and a rejected registration changes nothing.
pub proof fn lemma_register_keeps_wf(state: RegistryView, id: Seq<u8>, reward: Balance, met: bool)
    requires
        state.wf(),
    ensures
        state.register_next(id, reward, met).wf(),
        state.register_next(id, reward, met).total_promised <= state.ceiling,
        state.register_result(id, reward) is Err ==> state.register_next(id, reward, met)
            == state,
        state.register_result(id, reward) is Ok ==> state.register_next(
            id,
            reward,
            met,
        ).total_promised == state.total_promised + reward,
        state.register_result(id, reward) is Ok ==> state.register_next(
            id,
            reward,
            met,
        ).records[id].total_reward == reward + if state.records.contains_key(id) {
            state.records[id].total_reward
        } else {
            0
        },
{
    let next = state.register_next(id, reward, met);
    let ratio = state.initialization_ratio;
    if state.register_result(id, reward) is Ok {
        let record = next.records[id];
        lemma_scale_bounds(record.total_reward as int, ratio.parts() as int, BILLION as int);
        if state.records.contains_key(id) {
            assert(state.ids.to_set().contains(id));
            let index = state.ids.index_of(id);
            lemma_sum_bounds(state.ids, state.records, index);
            lemma_sum_insert_present(state.ids, state.records, index, record);
            assert(next.records.dom() =~= state.records.dom());
            assert(record.wf(ratio));
        } else {
            assert(!state.ids.to_set().contains(id));
            assert(!state.ids.contains(id));
            lemma_sum_insert_absent(state.ids, state.records, id, record);
            assert(next.ids.drop_last() =~= state.ids);
            assert forall|a: Seq<u8>| next.ids.contains(a) <==> (state.ids.contains(a) || a
                == id) by {
                if state.ids.contains(a) {
                    let j = state.ids.index_of(a);
                    assert(next.ids[j] == a);
                }
                if a == id {
                    assert(next.ids[state.ids.len() as int] == a);
                }
            }
            assert(next.records.dom() =~= next.ids.to_set());
            assert(record.wf(ratio));
        }
    }
}

/// Association keeps the registry sound.
pub proof fn lemma_associate_keeps_wf(
    state: RegistryView,
    id: Seq<u8>,
    account: AccountId,
    block: BlockNumber,
    proof_accepted: bool,
)
    requires
        state.wf(),
    ensures
        state.associate_next(id, account, block, proof_accepted).wf(),
{
    if state.associate_result(id, proof_accepted) is Ok {
        let next = state.associate_next(id, account, block, proof_accepted);
        lemma_record_replaced(state, id, next.records[id]);
        lemma_scale_bounds(
            state.records[id].total_reward as int,
            state.initialization_ratio.parts() as int,
            BILLION as int,
        );
    }
}

/// Redirecting payouts keeps the registry sound.
pub proof fn lemma_change_keeps_wf(
    state: RegistryView,
    id: Seq<u8>,
    account: AccountId,
    origin: Origin,
)
    requires
        state.wf(),
    ensures
        state.change_next(id, account, origin).wf(),
{
    if state.change_result(id, origin) is Ok {
        let next = state.change_next(id, account, origin);
        lemma_record_replaced(state, id, next.records[id]);
    }
}

/// A claim keeps the registry sound: what a record has claimed never
/// exceeds what it is eligible for.
pub proof fn lemma_settle_keeps_wf(
    state: RegistryView,
    id: Seq<u8>,
    block: BlockNumber,
    transferred: bool,
)
    requires
        state.wf(),
    ensures
        state.settle_next(id, block, transferred).wf(),
{
    if state.settle_result(id, block, transferred) is Ok && state.settle_result(
        id,
        block,
        transferred,
    )->Ok_0 != 0 {
        let next = state.settle_next(id, block, transferred);
        lemma_unlocked_bounds(state.records[id], state.initialization_ratio, block);
        lemma_record_replaced(state, id, next.records[id]);
    }
}

/// Replacing the record of a registered identity by a sound one with the
/// same reward leaves the registry sound.
proof fn lemma_record_replaced(state: RegistryView, id: Seq<u8>, record: RewardRecord)
    requires
        state.wf(),
        state.records.contains_key(id),
        record.total_reward == state.records[id].total_reward,
        record.wf(state.initialization_ratio),
    ensures
        state.with_record(id, record).wf(),
{
    assert(state.ids.to_set().contains(id));
    let index = state.ids.index_of(id);
    lemma_sum_insert_present(state.ids, state.records, index, record);
    assert(state.with_record(id, record).records.dom() =~= state.records.dom());
}


/// The sum of the rewards of an allocation list.
pub open spec fn genesis_total(contributors: Seq<(RelayChainAccountId, Balance, bool)>) -> int
    decreases contributors.len(),
{
    if contributors.len() == 0 {
        0
    } else {
        genesis_total(contributors.drop_last()) + contributors.last().1
    }
}

/// The registry that results from registering an allocation list, line by
/// line, with `start`.
pub open spec fn genesis_state(
    start: RegistryView,
    contributors: Seq<(RelayChainAccountId, Balance, bool)>,
) -> RegistryView
    decreases contributors.len(),
{
    if contributors.len() == 0 {
        start
    } else {
        let line = contributors.last();
        genesis_state(start, contributors.drop_last()).register_next(line.0@, line.1, line.2)
    }
}

/// Whether one of the first `upto` lines of an allocation list names `id`.
pub open spec fn listed(
    contributors: Seq<(RelayChainAccountId, Balance, bool)>,
    upto: int,
    id: Seq<u8>,
) -> bool {
    exists|j: int| 0 <= j < upto && j < contributors.len() && (#[trigger] contributors[j]).0@ == id
}

/// The sum of the rewards of the lines of an allocation list that name `id`.
pub open spec fn listed_reward(
    contributors: Seq<(RelayChainAccountId, Balance, bool)>,
    id: Seq<u8>,
) -> int
    decreases contributors.len(),
{
    if contributors.len() == 0 {
        0
    } else if contributors.last().0@ == id {
        listed_reward(contributors.drop_last(), id) + contributors.last().1
    } else {
        listed_reward(contributors.drop_last(), id)
    }
}

/// The threshold outcome of the last line of an allocation list that names
/// `id`.
pub open spec fn listed_outcome(
    contributors: Seq<(RelayChainAccountId, Balance, bool)>,
    id: Seq<u8>,
) -> bool
    decreases contributors.len(),
{
    if contributors.len() == 0 {
        false
    } else if contributors.last().0@ == id {
        contributors.last().2
    } else {
        listed_outcome(contributors.drop_last(), id)
    }
}

/// An identity that none of the first `upto` lines names gets no reward
/// from them.
pub proof fn lemma_unlisted_reward(
    contributors: Seq<(RelayChainAccountId, Balance, bool)>,
    upto: int,
    id: Seq<u8>,
)
    requires
        0 <= upto <= contributors.len(),
        !listed(contributors, upto, id),
    ensures
        listed_reward(contributors.take(upto), id) == 0,
    decreases upto,
{
    if upto > 0 {
        assert(contributors.take(upto).drop_last() =~= contributors.take(upto - 1));
        assert(contributors.take(upto).last() == contributors[upto - 1]);
        assert(contributors[upto - 1].0@ != id);
        assert(!listed(contributors, upto - 1, id)) by {
            if listed(contributors, upto - 1, id) {
                let j = choose|j: int|
                    0 <= j < upto - 1 && j < contributors.len() && (#[trigger] contributors[j]).0@
                        == id;
                assert(contributors[j].0@ == id);
            }
        }
        lemma_unlisted_reward(contributors, upto - 1, id);
    }
}

/// The rewards of the first lines of an allocation list sum to no more than
/// those of all its lines.
pub proof fn lemma_genesis_total_prefix(
    contributors: Seq<(RelayChainAccountId, Balance, bool)>,
    upto: int,
)
    requires
        0 <= upto <= contributors.len(),
    ensures
        0 <= genesis_total(contributors.take(upto)) <= genesis_total(contributors),
    decreases contributors.len() - upto,
{
    if upto == contributors.len() {
        assert(contributors.take(upto) =~= contributors);
        lemma_genesis_total_nonnegative(contributors);
    } else {
        lemma_genesis_total_prefix(contributors, upto + 1);
        lemma_genesis_total_nonnegative(contributors.take(upto));
        assert(contributors.take(upto + 1).drop_last() =~= contributors.take(upto));
    }
}

/// The rewards of an allocation list do not sum to less than nothing.
pub proof fn lemma_genesis_total_nonnegative(
    contributors: Seq<(RelayChainAccountId, Balance, bool)>,
)
    ensures
        0 <= genesis_total(contributors),
    decreases contributors.len(),
{
    if contributors.len() > 0 {
        lemma_genesis_total_nonnegative(contributors.drop_last());
    }
}

/// One registered identity with its record.
#[derive(Clone, Copy, Debug)]
struct Entry {
    remote_id: RelayChainAccountId,
    record: RewardRecord,
}

/// The registry: the records in the order of registration, the allocation
/// pool and the configuration.
#[derive(Debug)]
pub struct Registry {
    entries: Vec<Entry>,
    ceiling: Balance,
    total_promised: Balance,
    initialization_ratio: Ratio,
    vesting_period: BlockNumber,
    network_id: Vec<u8>,
}

spec fn ids_of(entries: Seq<Entry>) -> Seq<Seq<u8>> {
    Seq::new(entries.len(), |i: int| entries[i].remote_id@)
}

spec fn records_of(entries: Seq<Entry>) -> Map<Seq<u8>, RewardRecord> {
    Map::new(
        |id: Seq<u8>| ids_of(entries).contains(id),
        |id: Seq<u8>| entries[ids_of(entries).index_of(id)].record,
    )
}

proof fn lemma_entry_lookup(entries: Seq<Entry>, index: int)
    requires
        ids_of(entries).no_duplicates(),
        0 <= index < entries.len(),
    ensures
        records_of(entries).contains_key(entries[index].remote_id@),
        records_of(entries)[entries[index].remote_id@] == entries[index].record,
        ids_of(entries).index_of(entries[index].remote_id@) == index,
{
    let ids = ids_of(entries);
    assert(ids[index] == entries[index].remote_id@);
    assert(ids.contains(ids[index]));
}

proof fn lemma_entry_replaced(entries: Seq<Entry>, index: int, record: RewardRecord)
    requires
        ids_of(entries).no_duplicates(),
        0 <= index < entries.len(),
    ensures
        ids_of(entries.update(index, Entry { remote_id: entries[index].remote_id, record }))
            == ids_of(entries),
        records_of(entries.update(index, Entry { remote_id: entries[index].remote_id, record }))
            == records_of(entries).insert(entries[index].remote_id@, record),
{
    let id = entries[index].remote_id@;
    let changed = entries.update(index, Entry { remote_id: entries[index].remote_id, record });
    let ids = ids_of(entries);
    assert(ids_of(changed) =~= ids);
    assert(ids[index] == id);
    assert forall|key: Seq<u8>| #[trigger] ids.contains(key) implies records_of(changed)[key]
        == records_of(entries).insert(id, record)[key] by {
        let found = ids.index_of(key);
        assert(ids[found] == key);
    }
    assert(records_of(changed) =~= records_of(entries).insert(id, record));
}

proof fn lemma_entry_pushed(entries: Seq<Entry>, entry: Entry)
    requires
        ids_of(entries).no_duplicates(),
        !ids_of(entries).contains(entry.remote_id@),
    ensures
        ids_of(entries.push(entry)) == ids_of(entries).push(entry.remote_id@),
        ids_of(entries.push(entry)).no_duplicates(),
        records_of(entries.push(entry)) == records_of(entries).insert(
            entry.remote_id@,
            entry.record,
        ),
{
    let id = entry.remote_id@;
    let ids = ids_of(entries);
    let grown = entries.push(entry);
    let grown_ids = ids_of(grown);
    assert(grown_ids =~= ids.push(id));
    assert forall|i: int, j: int|
        0 <= i < grown_ids.len() && 0 <= j < grown_ids.len() && i != j implies grown_ids[i]
        != grown_ids[j] by {
        if i < ids.len() {
            assert(ids[i] == grown_ids[i]);
        }
        if j < ids.len() {
            assert(ids[j] == grown_ids[j]);
        }
    }
    assert forall|key: Seq<u8>| grown_ids.contains(key) <==> (ids.contains(key) || key == id) by {
        if ids.contains(key) {
            assert(grown_ids[ids.index_of(key)] == key);
        }
        if key == id {
            assert(grown_ids[ids.len() as int] == key);
        }
    }
    assert forall|key: Seq<u8>| #[trigger] grown_ids.contains(key) implies records_of(grown)[key]
        == records_of(entries).insert(id, entry.record)[key] by {
        let found = grown_ids.index_of(key);
        assert(grown_ids[found] == key);
        if key != id {
            assert(found < ids.len());
            assert(ids[found] == key);
            assert(ids[ids.index_of(key)] == key);
        }
    }
    assert(records_of(grown) =~= records_of(entries).insert(id, entry.record));
}

/// Whether two identities are the same bytes.
fn same_id(left: &RelayChainAccountId, right: &RelayChainAccountId) -> (same: bool)
    ensures
        same == (left@ == right@),
{
    let mut i: usize = 0;
    while i < 32
        invariant
            i <= 32,
            forall|j: int| 0 <= j < i ==> left@[j] == right@[j],
        decreases 32 - i,
    {
        if left[i] != right[i] {
            return false;
        }
        i += 1;
    }
    assert(left@ =~= right@);
    true
}

impl View for Registry {
    type V = RegistryView;

    closed spec fn view(&self) -> RegistryView {
        RegistryView {
            ids: ids_of(self.entries@),
            records: records_of(self.entries@),
            ceiling: self.ceiling,
            total_promised: self.total_promised,
            initialization_ratio: self.initialization_ratio,
            vesting_period: self.vesting_period,
            network_id: self.network_id@,
        }
    }
}

impl Registry {
    /// The invariant that every operation keeps.
    pub open spec fn wf(&self) -> bool {
        self@.wf()
    }

    /// A registry without records, with the allocation ceiling `ceiling`.
    pub fn new(
        ceiling: Balance,
        initialization_ratio: Ratio,
        vesting_period: BlockNumber,
        network_id: Vec<u8>,
    ) -> (registry: Registry)
        ensures
            registry.wf(),
            registry@ == RegistryView::empty(
                ceiling,
                initialization_ratio,
                vesting_period,
                network_id@,
            ),
    {
        // Taking the ratio apart shows that it is at most one whole.
        let _parts = initialization_ratio.deconstruct();
        let registry = Registry {
            entries: Vec::new(),
            ceiling,
            total_promised: 0,
            initialization_ratio,
            vesting_period,
            network_id,
        };
        proof {
            assert(registry@.ids =~= Seq::empty());
            assert(registry@.records =~= Map::empty());
            assert(registry@.records.dom() =~= registry@.ids.to_set());
        }
        registry
    }

    /// The one-shot genesis: a registry with the allocation ceiling
    /// `ceiling` and one unassociated record for every identity of the
    /// allocation list, or `AllocationExceeded` where the rewards of the list
    /// sum to more than the ceiling. Lines that name the same identity add up.
    pub fn initialize(
        ceiling: Balance,
        initialization_ratio: Ratio,
        vesting_period: BlockNumber,
        network_id: Vec<u8>,
        contributors: &Vec<(RelayChainAccountId, Balance, bool)>,
    ) -> (result: Result<Registry, Error>)
        ensures
            match result {
                Ok(registry) => {
                    &&& genesis_total(contributors@) <= ceiling
                    &&& registry.wf()
                    &&& registry@ == genesis_state(
                        RegistryView::empty(
                            ceiling,
                            initialization_ratio,
                            vesting_period,
                            network_id@,
                        ),
                        contributors@,
                    )
                    &&& registry@.ceiling == ceiling
                    &&& registry@.total_promised == genesis_total(contributors@)
                    &&& forall|id: Seq<u8>|
                        registry@.records.contains_key(id) <==> listed(
                            contributors@,
                            contributors@.len() as int,
                            id,
                        )
                    &&& forall|id: Seq<u8>| #[trigger]
                        registry@.records.contains_key(id) ==> {
                            &&& registry@.records[id].payout_address is None
                            &&& registry@.records[id].claimed == 0
                            &&& registry@.records[id].total_reward == listed_reward(
                                contributors@,
                                id,
                            )
                            &&& registry@.records[id].vote_threshold_met == listed_outcome(
                                contributors@,
                                id,
                            )
                        }
                },
                Err(error) => error == Error::AllocationExceeded && genesis_total(contributors@)
                    > ceiling,
            },
    {
        let ghost start = RegistryView::empty(
            ceiling,
            initialization_ratio,
            vesting_period,
            network_id@,
        );
        let mut registry = Registry::new(ceiling, initialization_ratio, vesting_period, network_id);
        let mut i: usize = 0;
        assert(contributors@.take(0) =~= Seq::empty());
        while i < contributors.len()
            invariant
                i <= contributors.len(),
                registry.wf(),
                registry@ == genesis_state(start, contributors@.take(i as int)),
                registry@.ceiling == ceiling,
                registry@.total_promised == genesis_total(contributors@.take(i as int)),
                forall|id: Seq<u8>|
                    registry@.records.contains_key(id) <==> listed(contributors@, i as int, id),
                forall|id: Seq<u8>| #[trigger]
                    registry@.records.contains_key(id) ==> {
                        &&& registry@.records[id].payout_address is None
                        &&& registry@.records[id].claimed == 0
                        &&& registry@.records[id].total_reward == listed_reward(
                            contributors@.take(i as int),
                            id,
                        )
                        &&& registry@.records[id].vote_threshold_met == listed_outcome(
                            contributors@.take(i as int),
                            id,
                        )
                    },
            decreases contributors.len() - i,
        {
            let (remote_id, reward, met) = contributors[i];
            let ghost before = registry@;
            proof {
                assert(contributors@.take(i + 1).drop_last() =~= contributors@.take(i as int));
                assert(contributors@.take(i + 1).last() == contributors@[i as int]);
                lemma_genesis_total_prefix(contributors@, i + 1);
            }
            match registry.register_contributor(&remote_id, reward, met) {
                Err(_) => {
                    return Err(Error::AllocationExceeded);
                },
                Ok(_) => {},
            }
            proof {
                assert forall|id: Seq<u8>|
                    registry@.records.contains_key(id) <==> listed(
                        contributors@,
                        i + 1,
                        id,
                    ) by {
                    if listed(contributors@, i + 1, id) {
                        let j = choose|j: int|
                            0 <= j < i + 1 && j < contributors@.len() && (
                            #[trigger] contributors@[j]).0@ == id;
                        if j < i {
                            assert(listed(contributors@, i as int, id));
                        }
                    }
                    if before.records.contains_key(id) {
                        assert(listed(contributors@, i as int, id));
                        let j = choose|j: int|
                            0 <= j < i && j < contributors@.len() && (
                            #[trigger] contributors@[j]).0@ == id;
                        assert(contributors@[j].0@ == id);
                        assert(listed(contributors@, i + 1, id));
                    }
                    if id == remote_id@ {
                        assert(contributors@[i as int].0@ == id);
                        assert(listed(contributors@, i + 1, id));
                    }
                }
                if !before.records.contains_key(remote_id@) {
                    lemma_unlisted_reward(contributors@, i as int, remote_id@);
                }
                let lines = contributors@.take(i + 1);
                assert forall|id: Seq<u8>| #[trigger]
                    registry@.records.contains_key(id) implies {
                    &&& registry@.records[id].total_reward == listed_reward(lines, id)
                    &&& registry@.records[id].vote_threshold_met == listed_outcome(lines, id)
                } by {
                    lemma_register_keeps_wf(before, remote_id@, reward, met);
                    assert(lines.drop_last() =~= contributors@.take(i as int));
                    assert(lines.last() == (remote_id, reward, met));
                    if id != remote_id@ {
                        assert(before.records.contains_key(id));
                    }
                }
            }
            i += 1;
        }
        assert(contributors@.take(i as int) =~= contributors@);
        Ok(registry)
    }

    /// The allocation ceiling.
    pub fn ceiling(&self) -> (ceiling: Balance)
        ensures
            ceiling == self@.ceiling,
    {
        self.ceiling
    }

    /// The sum of all promised rewards.
    pub fn total_promised(&self) -> (total: Balance)
        ensures
            total == self@.total_promised,
    {
        self.total_promised
    }

    /// The fraction of a reward that unlocks at association.
    pub fn initialization_ratio(&self) -> (ratio: Ratio)
        ensures
            ratio == self@.initialization_ratio,
    {
        self.initialization_ratio
    }

    /// The number of blocks over which the rest of a reward vests.
    pub fn vesting_period(&self) -> (period: BlockNumber)
        ensures
            period == self@.vesting_period,
    {
        self.vesting_period
    }

    /// The network identifier that every challenge starts with.
    pub fn network_id(&self) -> (network_id: &[u8])
        ensures
            network_id@ == self@.network_id,
    {
        self.network_id.as_slice()
    }

    /// The number of registered identities.
    pub fn len(&self) -> (count: usize)
        ensures
            count == self@.ids.len(),
    {
        self.entries.len()
    }

    /// The identity that was registered as number `index`.
    pub fn remote_id_at(&self, index: usize) -> (remote_id: Option<RelayChainAccountId>)
        ensures
            match remote_id {
                Some(id) => index < self@.ids.len() && id@ == self@.ids[index as int],
                None => index >= self@.ids.len(),
            },
    {
        if index < self.entries.len() {
            Some(self.entries[index].remote_id)
        } else {
            None
        }
    }

    /// The record of `remote_id`, if it has one.
    pub fn record(&self, remote_id: &RelayChainAccountId) -> (record: Option<RewardRecord>)
        requires
            self.wf(),
        ensures
            match record {
                Some(found) => self@.records.contains_key(remote_id@) && found
                    == self@.records[remote_id@],
                None => !self@.records.contains_key(remote_id@),
            },
    {
        match self.position(remote_id) {
            None => None,
            Some(index) => {
                proof {
                    lemma_entry_lookup(self.entries@, index as int);
                }
                Some(self.entries[index].record)
            },
        }
    }

    /// The index of the entry of `remote_id`, if it has one.
    fn position(&self, remote_id: &RelayChainAccountId) -> (found: Option<usize>)
        ensures
            match found {
                Some(index) => index < self.entries.len() && self.entries[index as int].remote_id@
                    == remote_id@,
                None => !ids_of(self.entries@).contains(remote_id@),
            },
    {
        let mut i: usize = 0;
        while i < self.entries.len()
            invariant
                i <= self.entries.len(),
                forall|j: int| 0 <= j < i ==> self.entries[j].remote_id@ != remote_id@,
            decreases self.entries.len() - i,
        {
            if same_id(&self.entries[i].remote_id, remote_id) {
                return Some(i);
            }
            i += 1;
        }
        None
    }

    /// Replaces the record of the entry at `index`.
    fn set_record(&mut self, index: usize, record: RewardRecord)
        requires
            old(self).wf(),
            index < old(self).entries.len(),
        ensures
            final(self)@ == old(self)@.with_record(
                old(self).entries[index as int].remote_id@,
                record,
            ),
            final(self).total_promised == old(self).total_promised,
    {
        let remote_id = self.entries[index].remote_id;
        proof {
            lemma_entry_replaced(self.entries@, index as int, record);
        }
        self.entries.set(index, Entry { remote_id, record });
    }

    /// Promises `total_reward` to `remote_id`. The registration is rejected
    /// with `AllocationExceeded` where the promised total would pass the
    /// ceiling, and with `AlreadyAssociated` where the identity has a payout
    /// address already, whose reward is fixed. A new identity gets a fresh
    /// record; a known one has the reward added to its own.
    pub fn register_contributor(
        &mut self,
        remote_id: &RelayChainAccountId,
        total_reward: Balance,
        vote_threshold_met: bool,
    ) -> (result: Result<(), Error>)
        requires
            old(self).wf(),
        ensures
            final(self).wf(),
            result == old(self)@.register_result(remote_id@, total_reward),
            final(self)@ == old(self)@.register_next(remote_id@, total_reward, vote_threshold_met),
    {
        proof {
            lemma_register_keeps_wf(self@, remote_id@, total_reward, vote_threshold_met);
        }
        if total_reward > self.ceiling - self.total_promised {
            return Err(Error::AllocationExceeded);
        }
        match self.position(remote_id) {
            Some(index) => {
                let record = self.entries[index].record;
                proof {
                    lemma_entry_lookup(self.entries@, index as int);
                    lemma_sum_bounds(self@.ids, self@.records, index as int);
                }
                if record.payout_address.is_some() {
                    return Err(Error::AlreadyAssociated);
                }
                let updated = RewardRecord {
                    total_reward: record.total_reward + total_reward,
                    claimed: record.claimed,
                    payout_address: record.payout_address,
                    vote_threshold_met,
                    vesting_start: record.vesting_start,
                    vesting_end: record.vesting_end,
                };
                self.set_record(index, updated);
                self.total_promised = self.total_promised + total_reward;
            },
            None => {
                let entry = Entry {
                    remote_id: *remote_id,
                    record: RewardRecord::new(total_reward, vote_threshold_met),
                };
                proof {
                    lemma_entry_pushed(self.entries@, entry);
                }
                self.entries.push(entry);
                self.total_promised = self.total_promised + total_reward;
            },
        }
        Ok(())
    }

    /// Binds `remote_id` to the payout address `local_account`, given the
    /// verdict on the proof of ownership. Fails with `UnknownContributor`
    /// where the identity has no record, with `AlreadyAssociated` where it
    /// has a payout address, with `InvalidProof` where the proof was not
    /// accepted. Else the schedule starts at `current_block`.
    pub fn associate_checked(
        &mut self,
        remote_id: &RelayChainAccountId,
        local_account: AccountId,
        current_block: BlockNumber,
        proof_accepted: bool,
    ) -> (result: Result<(), Error>)
        requires
            old(self).wf(),
        ensures
            final(self).wf(),
            result == old(self)@.associate_result(remote_id@, proof_accepted),
            final(self)@ == old(self)@.associate_next(
                remote_id@,
                local_account,
                current_block,
                proof_accepted,
            ),
    {
        proof {
            lemma_associate_keeps_wf(
                self@,
                remote_id@,
                local_account,
                current_block,
                proof_accepted,
            );
        }
        match self.position(remote_id) {
            None => Err(Error::UnknownContributor),
            Some(index) => {
                let record = self.entries[index].record;
                proof {
                    lemma_entry_lookup(self.entries@, index as int);
                }
                if record.payout_address.is_some() {
                    return Err(Error::AlreadyAssociated);
                }
                if !proof_accepted {
                    return Err(Error::InvalidProof);
                }
                let vesting_end = if current_block <= u64::MAX - self.vesting_period {
                    current_block + self.vesting_period
                } else {
                    u64::MAX
                };
                let updated = RewardRecord {
                    total_reward: record.total_reward,
                    claimed: record.claimed,
                    payout_address: Some(local_account),
                    vote_threshold_met: record.vote_threshold_met,
                    vesting_start: current_block,
                    vesting_end,
                };
                self.set_record(index, updated);
                Ok(())
            },
        }
    }

    /// Binds `remote_id` to the payout address `local_account` on the
    /// strength of `signature`, which must be the remote identity's
    /// signature of the challenge that names this network and this account.
    pub fn associate(
        &mut self,
        remote_id: &RelayChainAccountId,
        signature: &Signature,
        local_account: AccountId,
        current_block: BlockNumber,
    ) -> (result: Result<(), Error>)
        requires
            old(self).wf(),
        ensures
            final(self).wf(),
            result == old(self)@.associate_result(
                remote_id@,
                proof_valid(old(self)@.network_id, local_account, remote_id@, signature@),
            ),
            final(self)@ == old(self)@.associate_next(
                remote_id@,
                local_account,
                current_block,
                proof_valid(old(self)@.network_id, local_account, remote_id@, signature@),
            ),
    {
        let accepted = verify_proof(
            self.network_id.as_slice(),
            local_account,
            remote_id,
            signature,
        );
        self.associate_checked(remote_id, local_account, current_block, accepted)
    }

    /// Redirects the future payouts of `remote_id` to `new_account`. Fails
    /// with `NotAssociated` where the identity has no payout address, and
    /// with `Unauthorized` unless `origin` is the current payout address or
    /// the privileged origin. The schedule and the claimed amount stay.
    pub fn change_reward_address(
        &mut self,
        remote_id: &RelayChainAccountId,
        new_account: AccountId,
        origin: Origin,
    ) -> (result: Result<(), Error>)
        requires
            old(self).wf(),
        ensures
            final(self).wf(),
            result == old(self)@.change_result(remote_id@, origin),
            final(self)@ == old(self)@.change_next(remote_id@, new_account, origin),
    {
        proof {
            lemma_change_keeps_wf(self@, remote_id@, new_account, origin);
        }
        match self.position(remote_id) {
            None => Err(Error::NotAssociated),
            Some(index) => {
                let record = self.entries[index].record;
                proof {
                    lemma_entry_lookup(self.entries@, index as int);
                }
                match record.payout_address {
                    None => Err(Error::NotAssociated),
                    Some(current) => {
                        let allowed = match origin {
                            Origin::Root => true,
                            Origin::Signed(who) => who == current,
                        };
                        if !allowed {
                            return Err(Error::Unauthorized);
                        }
                        let updated = RewardRecord {
                            total_reward: record.total_reward,
                            claimed: record.claimed,
                            payout_address: Some(new_account),
                            vote_threshold_met: record.vote_threshold_met,
                            vesting_start: record.vesting_start,
                            vesting_end: record.vesting_end,
                        };
                        self.set_record(index, updated);
                        Ok(())
                    },
                }
            },
        }
    }

    /// What a claim of `remote_id` at `current_block` asks of the ledger:
    /// the payout address and the claimable amount, which may be zero.
    /// Fails with `NotAssociated` where the identity has no payout address.
    pub fn claim_due(&self, remote_id: &RelayChainAccountId, current_block: BlockNumber) -> (result:
        Result<Payout, Error>)
        requires
            self.wf(),
        ensures
            result == self@.due(remote_id@, current_block),
    {
        match self.position(remote_id) {
            None => Err(Error::NotAssociated),
            Some(index) => {
                let record = self.entries[index].record;
                proof {
                    lemma_entry_lookup(self.entries@, index as int);
                }
                match record.payout_address {
                    None => Err(Error::NotAssociated),
                    Some(to) => Ok(
                        Payout {
                            to,
                            amount: record.claimable(self.initialization_ratio, current_block),
                        },
                    ),
                }
            },
        }
    }

    /// Applies a claim of `remote_id` at `current_block`, given whether the
    /// ledger moved the claimable amount. A claim of nothing succeeds and
    /// changes nothing, whatever the ledger said. A refused transfer fails
    /// the claim with `TransferFailed` and changes nothing. Else the amount
    /// is added to what the record has claimed, and returned.
    pub fn settle_claim(
        &mut self,
        remote_id: &RelayChainAccountId,
        current_block: BlockNumber,
        transferred: bool,
    ) -> (result: Result<Balance, Error>)
        requires
            old(self).wf(),
        ensures
            final(self).wf(),
            result == old(self)@.settle_result(remote_id@, current_block, transferred),
            final(self)@ == old(self)@.settle_next(remote_id@, current_block, transferred),
    {
        proof {
            lemma_settle_keeps_wf(self@, remote_id@, current_block, transferred);
        }
        match self.position(remote_id) {
            None => Err(Error::NotAssociated),
            Some(index) => {
                let record = self.entries[index].record;
                proof {
                    lemma_entry_lookup(self.entries@, index as int);
                    lemma_unlocked_bounds(record, self.initialization_ratio, current_block);
                }
                if record.payout_address.is_none() {
                    return Err(Error::NotAssociated);
                }
                let amount = record.claimable(self.initialization_ratio, current_block);
                if amount == 0 {
                    return Ok(0);
                }
                if !transferred {
                    return Err(Error::TransferFailed);
                }
                let updated = RewardRecord {
                    total_reward: record.total_reward,
                    claimed: record.claimed + amount,
                    payout_address: record.payout_address,
                    vote_threshold_met: record.vote_threshold_met,
                    vesting_start: record.vesting_start,
                    vesting_end: record.vesting_end,
                };
                self.set_record(index, updated);
                Ok(amount)
            },
        }
    }
}


} // verus!
