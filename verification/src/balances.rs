use std::collections::HashMap;
use vstd::prelude::*;

verus! {

broadcast use vstd::std_specs::hash::group_hash_axioms;

/// Why a payment was refused. A refused payment moves nothing.
#[derive(Clone, Copy, PartialEq, Eq, Structural, Debug)]
pub enum PaymentError {
    /// The payer holds less than the amount.
    InsufficientBalance,
    /// The payment was asked to keep the payer alive, but it would leave the
    /// payer below the minimum balance an account must keep to exist.
    WouldKill,
    /// The payee's balance would wrap.
    Overflow,
}

/// The currency service the buy operation pays through: a map from account to
/// balance, with a configured minimum balance an account must keep to stay
/// alive. An account absent from the map holds zero.
pub struct Balances {
    balances: HashMap<u64, u64>,
    min_balance: u64,
}

impl Balances {
    /// The balance held by `who`.
    pub closed spec fn spec_balance_of(self, who: u64) -> u64 {
        if self.balances@.contains_key(who) {
            self.balances@[who]
        } else {
            0
        }
    }

    /// The minimum balance an account must keep to stay alive.
    pub closed spec fn spec_min_balance(self) -> u64 {
        self.min_balance
    }

    /// Exactly what `transfer` returns, decided by the balances alone.
    pub open spec fn spec_transfer_result(
        self,
        from: u64,
        to: u64,
        amount: u64,
        keep_alive: bool,
    ) -> Result<(), PaymentError> {
        if from == to {
            Ok(())
        } else if self.spec_balance_of(from) < amount {
            Err(PaymentError::InsufficientBalance)
        } else if keep_alive && self.spec_balance_of(from) - amount < self.spec_min_balance() {
            Err(PaymentError::WouldKill)
        } else if self.spec_balance_of(to) + amount > u64::MAX {
            Err(PaymentError::Overflow)
        } else {
            Ok(())
        }
    }

    /// An empty ledger: every account holds zero.
    pub fn new(min_balance: u64) -> (r: Balances)
        ensures
            r.spec_min_balance() == min_balance,
            forall|a: u64| r.spec_balance_of(a) == 0,
    {
        Balances { balances: HashMap::new(), min_balance }
    }

    pub fn min_balance(&self) -> (r: u64)
        ensures
            r == self.spec_min_balance(),
    {
        self.min_balance
    }

    pub fn balance_of(&self, who: u64) -> (r: u64)
        ensures
            r == self.spec_balance_of(who),
    {
        match self.balances.get(&who) {
            Some(b) => *b,
            None => 0,
        }
    }

    /// Overwrite `who`'s balance; no other account is touched.
    pub fn set_balance(&mut self, who: u64, amount: u64)
        ensures
            final(self).spec_balance_of(who) == amount,
            forall|a: u64|
                a != who ==> final(self).spec_balance_of(a) == old(self).spec_balance_of(a),
            final(self).spec_min_balance() == old(self).spec_min_balance(),
    {
        self.balances.insert(who, amount);
    }

    /// Move `amount` from `from` to `to`. With `keep_alive`, refuse a payment
    /// that would leave the payer below the minimum balance. A payment to
    /// oneself moves nothing and succeeds. On any error both balances stand.
    pub fn transfer(&mut self, from: u64, to: u64, amount: u64, keep_alive: bool) -> (r: Result<
        (),
        PaymentError,
    >)
        ensures
            r == old(self).spec_transfer_result(from, to, amount, keep_alive),
            final(self).spec_min_balance() == old(self).spec_min_balance(),
            r is Err || from == to ==> *final(self) == *old(self),
            r is Ok && from != to ==> {
                &&& final(self).spec_balance_of(from) == old(self).spec_balance_of(from) - amount
                &&& final(self).spec_balance_of(to) == old(self).spec_balance_of(to) + amount
                &&& forall|a: u64|
                    a != from && a != to ==> final(self).spec_balance_of(a) == old(
                        self,
                    ).spec_balance_of(a)
            },
    {
        if from == to {
            return Ok(());
        }
        let from_bal = self.balance_of(from);
        if from_bal < amount {
            return Err(PaymentError::InsufficientBalance);
        }
        if keep_alive && from_bal - amount < self.min_balance {
            return Err(PaymentError::WouldKill);
        }
        let to_bal = self.balance_of(to);
        if amount > u64::MAX - to_bal {
            return Err(PaymentError::Overflow);
        }
        self.balances.insert(from, from_bal - amount);
        self.balances.insert(to, to_bal + amount);
        Ok(())
    }
}

} // verus!
