use crate::balances::PaymentError;
use vstd::prelude::*;

verus! {

/// A token record. Identity is `id`; every field but `price` is fixed once the
/// token is minted. `number` is the sequence number the token was created under.
#[derive(Clone, Copy, PartialEq, Eq, Structural, Debug)]
pub struct Kitty {
    pub id: u64,
    pub dna: u64,
    pub price: u64,
    pub gen: u64,
    pub number: u32,
}

impl Kitty {
    /// The same record with its price replaced.
    pub open spec fn spec_with_price(self, price: u64) -> Kitty {
        Kitty { id: self.id, dna: self.dna, price, gen: self.gen, number: self.number }
    }
}

/// Why an operation was refused. Every error leaves the registry, the ledgers
/// and the balances exactly as they were.
#[derive(Clone, Copy, PartialEq, Eq, Structural, Debug)]
pub enum Error {
    /// The referenced token does not exist.
    NotFound,
    /// The acting account is not the token's current owner.
    NotOwner,
    /// The buyer already owns the token.
    AlreadyOwner,
    /// A token with this identifier was already minted.
    AlreadyExists,
    /// A counter or ledger position would wrap.
    Overflow,
    /// The asking price exceeds the buyer's stated maximum.
    PriceTooHigh,
    /// The payment service refused the payment; its reason is carried along.
    PaymentFailed(PaymentError),
}

/// A notification appended to the event log by each successful operation.
#[derive(Clone, Copy, PartialEq, Eq, Structural, Debug)]
pub enum Event {
    /// Created(owner, token)
    Created(u64, u64),
    /// PriceSet(owner, token, new_price)
    PriceSet(u64, u64, u64),
    /// Transferred(from, to, token)
    Transferred(u64, u64, u64),
    /// Bought(buyer, seller, token, price_paid)
    Bought(u64, u64, u64, u64),
}

} // verus!
