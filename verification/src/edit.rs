//! Manifest-edit planning, independent of any editor protocol.

pub mod classify;
pub mod plan;
pub mod span;
pub mod vulnerability;

pub use crate::edit::classify::{classify_update, UpdateKind};
pub use crate::edit::plan::{
    collect_update_candidates, collect_update_edits, replacement_text,
    requirement_is_placeholder_for, PlannedUpdate, UnplannableReason, UpdateCandidate,
};
pub use crate::edit::span::{apply_edits, dedup_overlapping_edits, EditSpan, ManifestEdit};
pub use crate::edit::vulnerability::{
    plan_verified_fix, plan_vulnerability_fix, resolve_recommended_fix, resolve_verified_fix,
    VulnFixSkip,
};
