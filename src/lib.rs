//! A fixed-capacity escrow ledger for randomized item sales ("gumball
//! machines"), with every offset, bit and counter update proved.

pub mod pubkey;
pub mod bytes;
pub mod error;
pub mod state;
pub mod layout;
pub mod bitmask;
pub mod ledger;
pub mod draw;
pub mod settlement;
pub mod laws;
pub mod buy_back;
pub mod sellers;
pub mod guards;
pub mod admin;
