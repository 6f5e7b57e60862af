//! Multi-party document signing and milestone-funded agreements.
//!
//! The library holds the shared data and behaviour model: identities,
//! consent-gated document signing, milestone conditions, quorum voting,
//! escrow bookkeeping with a two-step payout, and the merge functions that
//! let independent replicas converge.

pub mod ids;
pub mod error;
pub mod lookup;
pub mod encoding;
pub mod milestone;
pub mod agreement;
pub mod dao;
pub mod registry;
pub mod merodocs;
pub mod merge;
