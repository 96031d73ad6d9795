//! A permissioned credit-and-rewards ledger: per-participant credit scores,
//! the reward levels they map to, a length-prefixed record codec, and the
//! day-granularity accrual of rewards over a participant's level history.

pub mod accrual;
pub mod address;
pub mod codec;
pub mod error;
pub mod instruction;
pub mod ledger;
pub mod state;
pub mod workflow;
