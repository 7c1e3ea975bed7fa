//! Relief-fund custody and controlled-spending engine.
//!
//! Campaigns collect stablecoin donations; NGOs carve per-beneficiary
//! allocations out of a campaign with per-category spending ceilings, and
//! merchants are paid through a two-phase authorize/execute settlement
//! protocol. The ledgers here are plain owned tables: the host shell that
//! performs authentication, token transfers and event emission hands them
//! plain values and commits bookkeeping only after a transfer succeeds.

pub mod beneficiary;
pub mod error;
pub mod lookup;
pub mod merchant;
pub mod ngo;
pub mod token;
pub mod vault;
