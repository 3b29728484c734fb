//! The staking agents.

pub mod pool;
