//! An in-memory multi-asset ledger: the balance of every account in every
//! token, and transfers that either move an amount whole or fail.

use crate::types::{AccountId, Balance, TokenId};
use std::collections::HashMap;
use vstd::prelude::*;

verus! {

broadcast use vstd::std_specs::hash::group_hash_axioms;

/// Why the ledger refused to move funds.
#[derive(Clone, Copy, Debug, PartialEq, Eq, Structural)]
pub enum LedgerError {
    /// The paying account holds less than the amount.
    BalanceTooLow,
    /// The receiving account cannot hold the amount on top of its own.
    BalanceOverflow,
}

/// The balances of a ledger: what each account holds of each token. An
/// account without an entry holds nothing.
pub type Balances = Map<(TokenId, AccountId), Balance>;

/// What `who` holds of `token`.
pub open spec fn balance(balances: Balances, token: TokenId, who: AccountId) -> Balance {
    if balances.contains_key((token, who)) {
        balances[(token, who)]
    } else {
        0
    }
}

/// The outcome of crediting `amount` of `token` to `who`.
pub open spec fn deposit_result(
    balances: Balances,
    token: TokenId,
    who: AccountId,
    amount: Balance,
) -> Result<(), LedgerError> {
    if balance(balances, token, who) + amount > u128::MAX {
        Err(LedgerError::BalanceOverflow)
    } else {
        Ok(())
    }
}

/// The balances after crediting `amount` of `token` to `who`.
pub open spec fn deposit_next(
    balances: Balances,
    token: TokenId,
    who: AccountId,
    amount: Balance,
) -> Balances {
    if deposit_result(balances, token, who, amount) is Err {
        balances
    } else {
        balances.insert((token, who), (balance(balances, token, who) + amount) as Balance)
    }
}

/// The outcome of moving `amount` of `token` from `from` to `to`.
pub open spec fn transfer_result(
    balances: Balances,
    token: TokenId,
    from: AccountId,
    to: AccountId,
    amount: Balance,
) -> Result<(), LedgerError> {
    if balance(balances, token, from) < amount {
        Err(LedgerError::BalanceTooLow)
    } else if from != to && balance(balances, token, to) + amount > u128::MAX {
        Err(LedgerError::BalanceOverflow)
    } else {
        Ok(())
    }
}

/// The balances after moving `amount` of `token` from `from` to `to`: on
/// success the payer holds that much less and the payee that much more; a
/// transfer to oneself, and a failed one, leave the amounts as they were.
pub open spec fn transfer_next(
    balances: Balances,
    token: TokenId,
    from: AccountId,
    to: AccountId,
    amount: Balance,
) -> Balances {
    if transfer_result(balances, token, from, to, amount) is Err {
        balances
    } else if from == to {
        balances
    } else {
        balances.insert(
            (token, from),
            (balance(balances, token, from) - amount) as Balance,
        ).insert((token, to), (balance(balances, token, to) + amount) as Balance)
    }
}

/// The place of an account's holding of a token in the table.
spec fn slot(token: TokenId, who: AccountId) -> u128 {
    (token as u128 * 0x1_0000_0000_0000_0000 + who as u128) as u128
}

proof fn lemma_slot_distinct(token_a: TokenId, who_a: AccountId, token_b: TokenId, who_b: AccountId)
    ensures
        slot(token_a, who_a) == slot(token_b, who_b) ==> token_a == token_b && who_a == who_b,
{
}

fn slot_of(token: TokenId, who: AccountId) -> (place: u128)
    ensures
        place == slot(token, who),
{
    token as u128 * 0x1_0000_0000_0000_0000 + who as u128
}

/// The ledger.
#[derive(Debug)]
pub struct Ledger {
    table: HashMap<u128, Balance>,
}

impl View for Ledger {
    type V = Balances;

    closed spec fn view(&self) -> Balances {
        Map::new(
            |holding: (TokenId, AccountId)| self.table@.contains_key(slot(holding.0, holding.1)),
            |holding: (TokenId, AccountId)| self.table@[slot(holding.0, holding.1)],
        )
    }
}

impl Ledger {
    /// A ledger in which nobody holds anything.
    pub fn new() -> (ledger: Ledger)
        ensures
            ledger@ == Balances::empty(),
    {
        let ledger = Ledger { table: HashMap::new() };
        assert(ledger@ =~= Balances::empty());
        ledger
    }

    /// What `who` holds of `token`.
    pub fn balance_of(&self, token: TokenId, who: AccountId) -> (amount: Balance)
        ensures
            amount == balance(self@, token, who),
    {
        match self.table.get(&slot_of(token, who)) {
            Some(amount) => *amount,
            None => 0,
        }
    }

    /// Writes the holding of `who` in `token`.
    fn put(&mut self, token: TokenId, who: AccountId, amount: Balance)
        ensures
            final(self)@ == old(self)@.insert((token, who), amount),
    {
        self.table.insert(slot_of(token, who), amount);
        proof {
            assert forall|holding: (TokenId, AccountId)|
                self.table@.contains_key(slot(holding.0, holding.1)) <==> (holding == (token, who)
                    || old(self).table@.contains_key(slot(holding.0, holding.1))) by {
                lemma_slot_distinct(holding.0, holding.1, token, who);
            }
            assert forall|holding: (TokenId, AccountId)| #[trigger]
                self@.contains_key(holding) implies self@[holding] == old(self)@.insert(
                (token, who),
                amount,
            )[holding] by {
                lemma_slot_distinct(holding.0, holding.1, token, who);
            }
            assert(self@ =~= old(self)@.insert((token, who), amount));
        }
    }

    /// Credits `amount` of `token` to `who` out of nothing. Fails, and
    /// changes nothing, where the account cannot hold that much.
    pub fn deposit(&mut self, token: TokenId, who: AccountId, amount: Balance) -> (result: Result<
        (),
        LedgerError,
    >)
        ensures
            result == deposit_result(old(self)@, token, who, amount),
            final(self)@ == deposit_next(old(self)@, token, who, amount),
    {
        let held = self.balance_of(token, who);
        if amount > u128::MAX - held {
            return Err(LedgerError::BalanceOverflow);
        }
        self.put(token, who, held + amount);
        Ok(())
    }

    /// Moves `amount` of `token` from `from` to `to`, whole or not at all.
    pub fn transfer(
        &mut self,
        token: TokenId,
        from: AccountId,
        to: AccountId,
        amount: Balance,
    ) -> (result: Result<(), LedgerError>)
        ensures
            result == transfer_result(old(self)@, token, from, to, amount),
            final(self)@ == transfer_next(old(self)@, token, from, to, amount),
    {
        let paying = self.balance_of(token, from);
        if paying < amount {
            return Err(LedgerError::BalanceTooLow);
        }
        if from == to {
            return Ok(());
        }
        let receiving = self.balance_of(token, to);
        if amount > u128::MAX - receiving {
            return Err(LedgerError::BalanceOverflow);
        }
        self.put(token, from, paying - amount);
        self.put(token, to, receiving + amount);
        Ok(())
    }
}

} // verus!
