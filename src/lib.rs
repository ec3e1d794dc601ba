//! A ledger for a single fungible token: balances, delegated allowances and
//! the four state transitions that move them, with every arithmetic step
//! checked and every failure leaving the state untouched.

pub mod address;
pub mod address_map;
pub mod token;
pub mod operations;
pub mod laws;
