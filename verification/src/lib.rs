pub mod bytes;
pub mod crypto;
pub mod helper;
pub mod slip;
pub mod hop;
pub mod routingpath;
pub mod transaction;
pub mod burnfee;
pub mod golden_ticket;
pub mod block;
pub mod shashmap;
pub mod blockchain;
pub mod mempool;
pub mod wallet;
pub mod config;
pub mod storage;
pub mod types;

use vstd::prelude::*;

verus! {

/// Total supply of base units released over the life of the chain.
pub const TREASURY: u64 = 286_810_000_000_000_00;

/// Number of blocks over which the initial treasury is released as coinbase.
pub const GENESIS_PERIOD: u64 = 21500;

/// Target block interval in milliseconds.
pub const HEARTBEAT: u64 = 100_000;

} // verus!
