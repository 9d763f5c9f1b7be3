//! Persistence layer for periodic liquidity-pool metrics.
//!
//! Four record kinds (depth, swaps, earnings, rune-pool intervals) are stored
//! into interchangeable backends under a single contract: at most one record
//! per natural time key (`end_time`), reads return everything stored, and the
//! earnings kind carries a nested per-pool list that the relational backend
//! keeps in one encoded text column.

pub mod codec;
pub mod records;
pub mod selector;
pub mod storage;
