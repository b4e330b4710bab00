//! Liquidation strategy for Aave-style lending pools.
//!
//! The strategy reads the borrows and supplies of a pool, keeps track of its borrowers, finds
//! those whose debt has outgrown their collateral, and works out the most profitable liquidation
//! among them. What has to be read from the chain or sent to it is named by actions; the caller
//! carries them out and hands back what came of them.

pub mod address;
pub mod approvals;
pub mod blocks;
pub mod collections;
pub mod config;
pub mod digits;
pub mod liquidation;
pub mod numbers;
pub mod opportunity;
pub mod search;
pub mod strategy;
pub mod swap;
pub mod tick;
pub mod underwater;
pub mod update;
