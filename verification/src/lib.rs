//! An in-memory accounting ledger: account balances under a global supply cap,
//! named reward pools, and a seeded per-epoch reward draw with cooldowns and
//! slashing.

pub mod config;
pub mod draw;
pub mod error;
pub mod events;
pub mod laws;
pub mod ledger;
pub mod model;
pub mod pools;
pub mod reward_pool;
pub mod text;
pub mod wins;
