//! A token ownership registry with per-token delegates and per-owner
//! operators, a proof-of-existence claim store, and a boolean toggle. Each
//! operation takes the calling account as an argument and returns its
//! notification as part of its result.

pub mod account;
pub mod keyed;
pub mod erc721;
pub mod poe;
pub mod flipper;
