//! Core logic for dependency tooling across package ecosystems.

pub mod cache_policy;
pub mod deps_dev;
pub mod diagnostic;
pub mod ecosystem;
pub mod ecosystem_registry;
pub mod edit;
pub mod error;
pub mod fallback_completion;
pub mod formatter;
pub mod freshness;
pub mod fs_probe;
pub mod github;
pub mod handler;
pub mod index;
pub mod json;
pub mod net_policy;
pub mod osv;
pub mod position;
pub mod text;
