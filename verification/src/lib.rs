//! A registry of uniquely identified tokens ("kitties") with dual-indexed
//! ownership ledgers: every token is enumerable globally by creation order and
//! per owner by position, with constant-time swap-and-pop removal when a token
//! changes hands. Minting, price-setting, transfer and atomic buy-with-payment
//! keep all structures consistent; a failed operation changes nothing.

mod balances;
mod kitty;
mod module;

pub use balances::Balances;
pub use balances::PaymentError;
pub use kitty::Error;
pub use kitty::Event;
pub use kitty::Kitty;
pub use module::KittyModule;
pub use module::fresh_kitty;
pub use module::next_nonce;
pub use module::swap_removed;
