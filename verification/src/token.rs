//! The ledger of the asset the pool is funded in, with the behaviour of a
//! token contract: a missing balance reads as zero, and a transfer moves a
//! non-negative amount the sender holds, or is refused and changes nothing.

use vstd::prelude::*;
use crate::ledger::Address;
use crate::table::Table;

verus! {

/// The failure of a token transfer.
#[derive(PartialEq, Eq, Structural, Clone, Copy, Debug)]
pub enum TokenError {
    /// A balance left the range of its integer type.
    Overflow,
    /// The amount to move was negative.
    NegativeAmount,
    /// The sender holds less than the amount.
    InsufficientBalance,
}

/// The balances of one token.
pub struct MockToken {
    pub balances: Table<Address, i128>,
}

impl MockToken {
    /// The balance of `a`; zero where none is recorded.
    pub open spec fn balance_of(&self, a: Seq<u8>) -> i128 {
        if self.balances@.contains_key(a) {
            self.balances@[a]
        } else {
            0
        }
    }

    pub open spec fn wf(&self) -> bool {
        self.balances.wf()
    }

    /// A token in which nobody holds anything.
    pub fn new() -> (r: Self)
        ensures
            r.wf(),
            forall|a: Seq<u8>| r.balance_of(a) == 0,
    {
        MockToken { balances: Table::new() }
    }

    /// Records `amount` as the balance of `addr`.
    pub fn set_balance(&mut self, addr: &Address, amount: i128)
        requires
            old(self).wf(),
        ensures
            final(self).wf(),
            final(self).balances@ == old(self).balances@.insert(addr@, amount),
    {
        self.balances.insert(addr.duplicate(), amount);
    }

    /// The balance of `addr`.
    pub fn balance(&self, addr: &Address) -> (r: i128)
        requires
            self.wf(),
        ensures
            r == self.balance_of(addr@),
    {
        match self.balances.get(addr) {
            Some(b) => *b,
            None => 0,
        }
    }

    /// What a transfer of `amount` from `from` to `to` meets: the failure,
    /// if any. The sender's balance is spent first, then the receiver's is
    /// raised; a transfer to oneself leaves the balance as it was.
    pub open spec fn transfer_result(&self, from: Seq<u8>, to: Seq<u8>, amount: i128) -> Result<(), TokenError> {
        if amount < 0 {
            Err(TokenError::NegativeAmount)
        } else if self.balance_of(from) < amount {
            Err(TokenError::InsufficientBalance)
        } else if from != to && self.balance_of(to) + amount > i128::MAX {
            Err(TokenError::Overflow)
        } else {
            Ok(())
        }
    }

    /// Whether a transfer of `amount` from `from` to `to` goes through.
    pub open spec fn transfer_fits(&self, from: Seq<u8>, to: Seq<u8>, amount: i128) -> bool {
        self.transfer_result(from, to, amount) is Ok
    }

    /// The failure a refused transfer of `amount` from `from` to `to` meets.
    pub open spec fn transfer_error(&self, from: Seq<u8>, to: Seq<u8>, amount: i128) -> TokenError {
        match self.transfer_result(from, to, amount) {
            Err(e) => e,
            Ok(()) => TokenError::Overflow,
        }
    }

    /// Decides, without changing anything, what a transfer of `amount`
    /// from `from` to `to` would meet.
    pub fn check_transfer(&self, from: &Address, to: &Address, amount: i128) -> (r: Result<(), TokenError>)
        requires
            self.wf(),
        ensures
            r == self.transfer_result(from@, to@, amount),
    {
        if amount < 0 {
            return Err(TokenError::NegativeAmount);
        }
        if self.balance(from) < amount {
            return Err(TokenError::InsufficientBalance);
        }
        if !from.same(to) && self.balance(to).checked_add(amount).is_none() {
            return Err(TokenError::Overflow);
        }
        Ok(())
    }

    /// Moves `amount` from `from` to `to`.
    pub fn transfer(&mut self, from: &Address, to: &Address, amount: i128) -> (r: Result<(), TokenError>)
        requires
            old(self).wf(),
        ensures
            final(self).wf(),
            r == old(self).transfer_result(from@, to@, amount),
            r is Err ==> *final(self) == *old(self),
            r is Ok && from@ == to@ ==> *final(self) == *old(self),
            r is Ok && from@ != to@ ==> final(self).balances@ == old(self).balances@.insert(
                from@,
                (old(self).balance_of(from@) - amount) as i128,
            ).insert(to@, (old(self).balance_of(to@) + amount) as i128),
            r is Ok && from@ != to@ ==> {
                &&& final(self).balance_of(from@) == old(self).balance_of(from@) - amount
                &&& final(self).balance_of(to@) == old(self).balance_of(to@) + amount
                &&& forall|a: Seq<u8>| a != from@ && a != to@ ==> final(self).balance_of(a) == old(
                    self,
                ).balance_of(a)
            },
    {
        self.check_transfer(from, to, amount)?;
        if from.same(to) {
            return Ok(());
        }
        let new_from = self.balance(from) - amount;
        let new_to = self.balance(to) + amount;
        self.balances.insert(from.duplicate(), new_from);
        self.balances.insert(to.duplicate(), new_to);
        Ok(())
    }
}

} // verus!
