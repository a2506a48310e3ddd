//! Supply-chain signals assembled from the deps.dev API.
//!
//! The modules hold what is decided: which requests to make, what their answers amount to, how
//! long an outcome is trusted. Whoever holds a connection makes the requests.

pub mod client;
pub mod coalescing;
pub mod gossip;
pub mod memo;
pub mod popularity;
pub mod project;
pub mod requests;
pub mod trust;
pub mod types;
pub mod typosquat;

pub use crate::deps_dev::client::DepsDevClient;
pub use crate::deps_dev::memo::FetchCompleteness;
pub use crate::deps_dev::project::{deps_dev_system, DepsDevSystem};
pub use crate::deps_dev::types::{
    GossipCooldown, GossipFindings, GossipLowUsage, GossipRiskLevel, ProvenanceStatus,
    ScorecardSummary, SupplyChainTrustSignal,
};
pub use crate::deps_dev::typosquat::TyposquatSignal;
