use kitties::Balances;
use kitties::Error;
use kitties::Event;
use kitties::Kitty;
use kitties::KittyModule;
use kitties::PaymentError;

const ALICE: u64 = 1;
const BOB: u64 = 2;
const CAROL: u64 = 3;
const BASE_PRICE: u64 = 7;

fn kitty(id: u64, price: u64, number: u32) -> Kitty {
    Kitty { id, dna: id, price, gen: 0, number }
}

#[test]
fn fresh_module_is_empty() {
    let m = KittyModule::new(BASE_PRICE);
    assert_eq!(m.all_kitties_count(), 0);
    assert_eq!(m.owned_kitty_count(ALICE), 0);
    assert_eq!(m.kitty_by_index(0), None);
    assert_eq!(m.kitty(42), None);
    assert_eq!(m.owner_of_kitty(42), None);
    assert_eq!(m.nonce(), 0);
    assert_eq!(m.base_price(), BASE_PRICE);
    assert!(m.events().is_empty());
}

#[test]
fn mint_one_token_to_alice() {
    let mut m = KittyModule::new(BASE_PRICE);
    assert_eq!(m.mint(ALICE, 42, kitty(42, BASE_PRICE, 0)), Ok(()));
    assert_eq!(m.all_kitties_count(), 1);
    assert_eq!(m.owner_of_kitty(42), Some(ALICE));
    assert_eq!(m.owned_kitty_count(ALICE), 1);
}

#[test]
fn mint_round_trip() {
    let mut m = KittyModule::new(BASE_PRICE);
    let k = kitty(42, 10, 0);
    assert_eq!(m.mint(ALICE, 42, k), Ok(()));
    // By id, by global index, and by (owner, 0), the same record comes back.
    assert_eq!(m.kitty(42), Some(k));
    assert_eq!(m.kitty_by_index(0), Some(42));
    assert_eq!(m.kitty_of_owner(ALICE, 0), Some(42));
    assert_eq!(m.kitty(m.kitty_by_index(0).unwrap()), Some(k));
    assert_eq!(m.kitty(m.kitty_of_owner(ALICE, 0).unwrap()), Some(k));
}

#[test]
fn mint_duplicate_id_is_refused() {
    let mut m = KittyModule::new(BASE_PRICE);
    assert_eq!(m.mint(ALICE, 42, kitty(42, 10, 0)), Ok(()));
    assert_eq!(m.mint(BOB, 42, kitty(42, 11, 1)), Err(Error::AlreadyExists));
    // Nothing moved on the failure.
    assert_eq!(m.all_kitties_count(), 1);
    assert_eq!(m.owner_of_kitty(42), Some(ALICE));
    assert_eq!(m.kitty(42), Some(kitty(42, 10, 0)));
    assert_eq!(m.owned_kitty_count(BOB), 0);
    assert_eq!(m.events().len(), 1);
}

#[test]
fn create_kitty_uses_base_price_and_steps_counters() {
    let mut m = KittyModule::new(BASE_PRICE);
    assert_eq!(m.create_kitty(ALICE, 1000), Ok(()));
    assert_eq!(m.create_kitty(ALICE, 2000), Ok(()));
    assert_eq!(m.kitty(1000), Some(kitty(1000, BASE_PRICE, 0)));
    assert_eq!(m.kitty(2000), Some(kitty(2000, BASE_PRICE, 1)));
    assert_eq!(m.nonce(), 2);
    assert_eq!(m.all_kitties_count(), 2);
    assert_eq!(
        m.events().as_slice(),
        &[Event::Created(ALICE, 1000), Event::Created(ALICE, 2000)]
    );
}

#[test]
fn create_kitty_with_taken_id_is_refused() {
    let mut m = KittyModule::new(BASE_PRICE);
    assert_eq!(m.create_kitty(ALICE, 1000), Ok(()));
    assert_eq!(m.create_kitty(BOB, 1000), Err(Error::AlreadyExists));
    assert_eq!(m.nonce(), 1);
    assert_eq!(m.all_kitties_count(), 1);
}

#[test]
fn transfer_swaps_and_pops() {
    let mut m = KittyModule::new(BASE_PRICE);
    assert_eq!(m.mint(ALICE, 10, kitty(10, 5, 0)), Ok(()));
    assert_eq!(m.mint(ALICE, 20, kitty(20, 5, 1)), Ok(()));
    assert_eq!(m.transfer(ALICE, BOB, 10), Ok(()));
    // Alice's ledger holds only the other token, moved into slot 0.
    assert_eq!(m.owned_kitty_count(ALICE), 1);
    assert_eq!(m.kitty_of_owner(ALICE, 0), Some(20));
    assert_eq!(m.kitty_of_owner(ALICE, 1), None);
    // Bob's ledger holds the transferred token at slot 0.
    assert_eq!(m.owned_kitty_count(BOB), 1);
    assert_eq!(m.kitty_of_owner(BOB, 0), Some(10));
    assert_eq!(m.owner_of_kitty(10), Some(BOB));
    assert_eq!(m.owner_of_kitty(20), Some(ALICE));
    // The global registry is untouched by transfers.
    assert_eq!(m.all_kitties_count(), 2);
    assert_eq!(m.kitty_by_index(0), Some(10));
    assert_eq!(m.kitty_by_index(1), Some(20));
}

#[test]
fn transfer_middle_token_moves_last_into_slot() {
    let mut m = KittyModule::new(BASE_PRICE);
    for (id, n) in [(10u64, 0u32), (20, 1), (30, 2)] {
        assert_eq!(m.mint(ALICE, id, kitty(id, 5, n)), Ok(()));
    }
    assert_eq!(m.transfer(ALICE, BOB, 10), Ok(()));
    // The last token (30) moved into the vacated slot 0.
    assert_eq!(m.owned_kitty_count(ALICE), 2);
    assert_eq!(m.kitty_of_owner(ALICE, 0), Some(30));
    assert_eq!(m.kitty_of_owner(ALICE, 1), Some(20));
}

#[test]
fn transfer_by_non_owner_is_refused() {
    let mut m = KittyModule::new(BASE_PRICE);
    assert_eq!(m.mint(ALICE, 10, kitty(10, 5, 0)), Ok(()));
    assert_eq!(m.transfer(BOB, CAROL, 10), Err(Error::NotOwner));
    // Nothing moved.
    assert_eq!(m.owner_of_kitty(10), Some(ALICE));
    assert_eq!(m.owned_kitty_count(ALICE), 1);
    assert_eq!(m.owned_kitty_count(BOB), 0);
    assert_eq!(m.owned_kitty_count(CAROL), 0);
    assert_eq!(m.events().len(), 1);
}

#[test]
fn transfer_missing_token_is_refused() {
    let mut m = KittyModule::new(BASE_PRICE);
    assert_eq!(m.transfer(ALICE, BOB, 99), Err(Error::NotFound));
    assert_eq!(m.transfer_from(ALICE, BOB, 99), Err(Error::NotFound));
}

#[test]
fn transfer_to_self_moves_token_to_ledger_end() {
    let mut m = KittyModule::new(BASE_PRICE);
    assert_eq!(m.mint(ALICE, 10, kitty(10, 5, 0)), Ok(()));
    assert_eq!(m.mint(ALICE, 20, kitty(20, 5, 1)), Ok(()));
    assert_eq!(m.transfer(ALICE, ALICE, 10), Ok(()));
    assert_eq!(m.owned_kitty_count(ALICE), 2);
    assert_eq!(m.kitty_of_owner(ALICE, 0), Some(20));
    assert_eq!(m.kitty_of_owner(ALICE, 1), Some(10));
    assert_eq!(m.owner_of_kitty(10), Some(ALICE));
}

#[test]
fn set_price_by_owner() {
    let mut m = KittyModule::new(BASE_PRICE);
    assert_eq!(m.mint(ALICE, 10, kitty(10, 5, 0)), Ok(()));
    assert_eq!(m.set_price(ALICE, 10, 100), Ok(()));
    assert_eq!(m.kitty(10), Some(kitty(10, 100, 0)));
    assert_eq!(
        m.events().as_slice(),
        &[Event::Created(ALICE, 10), Event::PriceSet(ALICE, 10, 100)]
    );
}

#[test]
fn set_price_refusals() {
    let mut m = KittyModule::new(BASE_PRICE);
    assert_eq!(m.set_price(ALICE, 10, 100), Err(Error::NotFound));
    assert_eq!(m.mint(ALICE, 10, kitty(10, 5, 0)), Ok(()));
    assert_eq!(m.set_price(BOB, 10, 100), Err(Error::NotOwner));
    assert_eq!(m.kitty(10), Some(kitty(10, 5, 0)));
    assert_eq!(m.events().len(), 1);
}

#[test]
fn buy_moves_payment_and_token_and_resets_price() {
    let mut m = KittyModule::new(BASE_PRICE);
    let mut b = Balances::new(0);
    b.set_balance(BOB, 1000);
    b.set_balance(ALICE, 50);
    assert_eq!(m.mint(ALICE, 10, kitty(10, 5, 0)), Ok(()));
    assert_eq!(m.set_price(ALICE, 10, 100), Ok(()));
    assert_eq!(m.buy_kitty(&mut b, BOB, 10, 100), Ok(()));
    // The payment of 100 moved from Bob to Alice.
    assert_eq!(b.balance_of(BOB), 900);
    assert_eq!(b.balance_of(ALICE), 150);
    // The token moved and its price fell back to the base price.
    assert_eq!(m.owner_of_kitty(10), Some(BOB));
    assert_eq!(m.kitty(10), Some(kitty(10, BASE_PRICE, 0)));
    assert_eq!(m.owned_kitty_count(ALICE), 0);
    assert_eq!(m.kitty_of_owner(BOB, 0), Some(10));
    assert_eq!(
        m.events().as_slice(),
        &[
            Event::Created(ALICE, 10),
            Event::PriceSet(ALICE, 10, 100),
            Event::Transferred(ALICE, BOB, 10),
            Event::Bought(BOB, ALICE, 10, 100),
        ]
    );
}

#[test]
fn buy_above_max_price_is_refused() {
    let mut m = KittyModule::new(BASE_PRICE);
    let mut b = Balances::new(0);
    b.set_balance(BOB, 1000);
    assert_eq!(m.mint(ALICE, 10, kitty(10, 5, 0)), Ok(()));
    assert_eq!(m.set_price(ALICE, 10, 100), Ok(()));
    assert_eq!(m.buy_kitty(&mut b, BOB, 10, 50), Err(Error::PriceTooHigh));
    // Nothing moved.
    assert_eq!(b.balance_of(BOB), 1000);
    assert_eq!(b.balance_of(ALICE), 0);
    assert_eq!(m.owner_of_kitty(10), Some(ALICE));
    assert_eq!(m.kitty(10), Some(kitty(10, 100, 0)));
    assert_eq!(m.owned_kitty_count(ALICE), 1);
    assert_eq!(m.owned_kitty_count(BOB), 0);
    assert_eq!(m.events().len(), 2);
}

#[test]
fn buy_refusals_leave_state_alone() {
    let mut m = KittyModule::new(BASE_PRICE);
    let mut b = Balances::new(0);
    b.set_balance(BOB, 30);
    assert_eq!(m.buy_kitty(&mut b, BOB, 10, 100), Err(Error::NotFound));
    assert_eq!(m.mint(ALICE, 10, kitty(10, 50, 0)), Ok(()));
    assert_eq!(m.buy_kitty(&mut b, ALICE, 10, 100), Err(Error::AlreadyOwner));
    // Bob holds 30, the ask is 50: the payment service refuses.
    assert_eq!(
        m.buy_kitty(&mut b, BOB, 10, 100),
        Err(Error::PaymentFailed(PaymentError::InsufficientBalance))
    );
    assert_eq!(b.balance_of(BOB), 30);
    assert_eq!(b.balance_of(ALICE), 0);
    assert_eq!(m.owner_of_kitty(10), Some(ALICE));
    assert_eq!(m.events().len(), 1);
}

#[test]
fn buy_that_would_kill_the_buyer_is_refused() {
    let mut m = KittyModule::new(BASE_PRICE);
    let mut b = Balances::new(10);
    b.set_balance(BOB, 55);
    assert_eq!(m.mint(ALICE, 10, kitty(10, 50, 0)), Ok(()));
    // Paying 50 would leave Bob at 5, under the minimum balance of 10.
    assert_eq!(
        m.buy_kitty(&mut b, BOB, 10, 100),
        Err(Error::PaymentFailed(PaymentError::WouldKill))
    );
    assert_eq!(b.balance_of(BOB), 55);
    assert_eq!(m.owner_of_kitty(10), Some(ALICE));
}

#[test]
fn buy_that_overflows_the_seller_is_refused() {
    let mut m = KittyModule::new(BASE_PRICE);
    let mut b = Balances::new(0);
    b.set_balance(BOB, 100);
    b.set_balance(ALICE, u64::MAX - 10);
    assert_eq!(m.mint(ALICE, 10, kitty(10, 50, 0)), Ok(()));
    assert_eq!(
        m.buy_kitty(&mut b, BOB, 10, 100),
        Err(Error::PaymentFailed(PaymentError::Overflow))
    );
    assert_eq!(b.balance_of(BOB), 100);
    assert_eq!(b.balance_of(ALICE), u64::MAX - 10);
    assert_eq!(m.owner_of_kitty(10), Some(ALICE));
}

#[test]
fn balances_transfer_moves_funds() {
    let mut b = Balances::new(0);
    b.set_balance(ALICE, 100);
    assert_eq!(b.transfer(ALICE, BOB, 40, true), Ok(()));
    assert_eq!(b.balance_of(ALICE), 60);
    assert_eq!(b.balance_of(BOB), 40);
}

#[test]
fn balances_transfer_to_self_moves_nothing() {
    let mut b = Balances::new(0);
    b.set_balance(ALICE, 100);
    assert_eq!(b.transfer(ALICE, ALICE, 40, true), Ok(()));
    assert_eq!(b.balance_of(ALICE), 100);
}

#[test]
fn balances_refusals() {
    let mut b = Balances::new(10);
    b.set_balance(ALICE, 100);
    assert_eq!(
        b.transfer(ALICE, BOB, 200, true),
        Err(PaymentError::InsufficientBalance)
    );
    assert_eq!(b.transfer(ALICE, BOB, 95, true), Err(PaymentError::WouldKill));
    // Without keep-alive the same payment goes through.
    assert_eq!(b.transfer(ALICE, BOB, 95, false), Ok(()));
    assert_eq!(b.balance_of(ALICE), 5);
    assert_eq!(b.balance_of(BOB), 95);
    b.set_balance(CAROL, u64::MAX);
    assert_eq!(b.transfer(BOB, CAROL, 1, false), Err(PaymentError::Overflow));
    assert_eq!(b.balance_of(BOB), 95);
    assert_eq!(b.balance_of(CAROL), u64::MAX);
    assert_eq!(b.min_balance(), 10);
}

#[test]
fn nonce_wraps_after_a_full_byte_of_mints() {
    let mut m = KittyModule::new(BASE_PRICE);
    for i in 0..256u64 {
        assert_eq!(m.create_kitty(ALICE, 10_000 + i), Ok(()));
    }
    // The one-byte salt has come full circle; the sequence counter has not.
    assert_eq!(m.nonce(), 0);
    assert_eq!(m.all_kitties_count(), 256);
    assert_eq!(m.kitty(10_255).map(|k| k.number), Some(255));
}

#[test]
fn global_registry_keeps_creation_order() {
    let mut m = KittyModule::new(BASE_PRICE);
    for (id, n) in [(30u64, 0u32), (10, 1), (20, 2)] {
        assert_eq!(m.mint(ALICE, id, kitty(id, 5, n)), Ok(()));
    }
    assert_eq!(m.all_kitties_count(), 3);
    assert_eq!(m.kitty_by_index(0), Some(30));
    assert_eq!(m.kitty_by_index(1), Some(10));
    assert_eq!(m.kitty_by_index(2), Some(20));
    assert_eq!(m.kitty_by_index(3), None);
}
