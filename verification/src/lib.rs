//! A verified model of a balance game: accounts collect temporary balances,
//! move them into their balances, and win when a balance (or the sum of all
//! balances) reaches a configured magic number.

pub mod keyed_map;
pub mod laws;
pub mod model;
pub mod pallet;
pub mod types;
