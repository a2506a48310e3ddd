//! The two-call sequence behind a trust signal: the version call, then the project call.

use crate::deps_dev::memo::CallOutcome;
use crate::deps_dev::project::{
    choose_project_key, classify_provenance, provenance_of, usable_project, DepsDevSystem,
};
use crate::deps_dev::requests::{version_url, version_url_of, CallFailure};
use crate::deps_dev::types::{
    DepsDevVersionInfo, ProvenanceStatus, ScorecardSummary, SupplyChainTrustSignal,
};
use crate::github::identity::{dot_segment, is_dot_segment};
use crate::text::{chars_of, string_texts};
use vstd::prelude::*;

verus! {

/// A trust signal that waits for the score of its project.
pub struct PendingSignal {
    /// The provenance that the version call gave.
    pub provenance: ProvenanceStatus,
    /// The licenses that the version call gave.
    pub licenses: Vec<String>,
    /// The project to fetch the score of.
    pub project_key: String,
    /// Whether the relation to the project is only self-reported.
    pub self_reported: bool,
}

/// How a trust signal is to be obtained.
pub enum TrustStart {
    /// The name or the version would retarget the request: there is no signal, and no request is
    /// made.
    Rejected,
    /// The version is to be requested from this URL.
    RequestVersion(String),
}

/// What follows the version call.
pub enum AfterVersion<S> {
    /// Nothing more is to be asked.
    Done(CallOutcome<Option<SupplyChainTrustSignal<S>>>),
    /// The project's score is to be fetched.
    NeedScore(PendingSignal),
}

/// Whether a name and a version can be put into a request path.
pub open spec fn addressable(name: Seq<char>, version: Seq<char>) -> bool {
    !dot_segment(name) && !dot_segment(version)
}

/// Begins a trust signal: a name or version that is `.` or `..` is rejected for good, anything
/// else is requested.
pub fn start_trust_signal(base: &str, system: DepsDevSystem, name: &str, version: &str) -> (r:
    TrustStart)
    ensures
        match r {
            TrustStart::Rejected => !addressable(name@, version@),
            TrustStart::RequestVersion(url) => addressable(name@, version@) && url@
                == version_url_of(base@, system, name@, version@),
        },
{
    let n = chars_of(name);
    let v = chars_of(version);
    if is_dot_segment(n.as_slice()) || is_dot_segment(v.as_slice()) {
        return TrustStart::Rejected;
    }
    TrustStart::RequestVersion(version_url(base, system, name, version))
}

/// Takes the answer of the version call.
///
/// No such version is a definitive "nothing"; a failure is not. With a usable project the score
/// is asked for, without one the signal is complete as it is.
pub fn after_version_call<S>(reply: Result<DepsDevVersionInfo, CallFailure>) -> (r: AfterVersion<
    S,
>)
    ensures
        match reply {
            Err(CallFailure::NotFound) => r == AfterVersion::<S>::Done(
                CallOutcome::Definitive(None),
            ),
            Err(CallFailure::Transient) => r == AfterVersion::<S>::Done(
                CallOutcome::Degraded(None),
            ),
            Ok(info) => {
                let provenance = provenance_of(info.slsa_provenances@, info.attestations@);
                match usable_project(info.related_projects@) {
                    Some((key, self_reported)) => r matches AfterVersion::NeedScore(pending)
                        && pending.provenance == provenance && string_texts(pending.licenses@)
                        == string_texts(info.licenses@) && pending.project_key@ == key
                        && pending.self_reported == self_reported,
                    None => r matches AfterVersion::Done(CallOutcome::Definitive(Some(signal)))
                        && signal.scorecard is None && signal.provenance == Some(provenance)
                        && string_texts(signal.licenses@) == string_texts(info.licenses@),
                }
            },
        },
{
    match reply {
        Err(CallFailure::NotFound) => AfterVersion::Done(CallOutcome::Definitive(None)),
        Err(CallFailure::Transient) => AfterVersion::Done(CallOutcome::Degraded(None)),
        Ok(info) => {
            let provenance = classify_provenance(
                info.slsa_provenances.as_slice(),
                info.attestations.as_slice(),
            );
            match choose_project_key(info.related_projects.as_slice()) {
                Some((project_key, self_reported)) => AfterVersion::NeedScore(
                    PendingSignal {
                        provenance,
                        licenses: info.licenses,
                        project_key,
                        self_reported,
                    },
                ),
                None => AfterVersion::Done(
                    CallOutcome::Definitive(
                        Some(
                            SupplyChainTrustSignal {
                                scorecard: None,
                                provenance: Some(provenance),
                                licenses: info.licenses,
                            },
                        ),
                    ),
                ),
            }
        },
    }
}

/// What the answer of the project call amounts to: no such project is a definitive "no score".
pub fn score_outcome<S>(reply: Result<Option<S>, CallFailure>) -> (r: CallOutcome<Option<S>>)
    ensures
        match reply {
            Ok(score) => r == CallOutcome::Definitive(score),
            Err(CallFailure::NotFound) => r == CallOutcome::<Option<S>>::Definitive(None),
            Err(CallFailure::Transient) => r == CallOutcome::<Option<S>>::Degraded(None),
        },
{
    match reply {
        Ok(score) => CallOutcome::Definitive(score),
        Err(CallFailure::NotFound) => CallOutcome::Definitive(None),
        Err(CallFailure::Transient) => CallOutcome::Degraded(None),
    }
}

/// Completes a pending signal with its project's score.
///
/// The provenance is kept whatever became of the project call. The signal is only as complete as
/// that call: a failed one must not stand for "no score" as long as an answer would. Whether the
/// relation is self-reported is the package's own, never the project's.
pub fn after_project_call<S>(pending: PendingSignal, score: CallOutcome<Option<S>>) -> (r:
    CallOutcome<Option<SupplyChainTrustSignal<S>>>)
    ensures
        r.is_complete() == score.is_complete(),
        r.value() matches Some(signal) && {
            &&& signal.provenance == Some(pending.provenance)
            &&& string_texts(signal.licenses@) == string_texts(pending.licenses@)
            &&& match score.value() {
                Some(s) => signal.scorecard matches Some(card) && card.overall_score == s
                    && card.self_reported == pending.self_reported,
                None => signal.scorecard is None,
            }
        },
{
    let (raw_score, completeness) = score.into_parts();
    let scorecard = match raw_score {
        Some(overall_score) => Some(
            ScorecardSummary { overall_score, self_reported: pending.self_reported },
        ),
        None => None,
    };
    CallOutcome::with_completeness(
        Some(
            SupplyChainTrustSignal {
                scorecard,
                provenance: Some(pending.provenance),
                licenses: pending.licenses,
            },
        ),
        completeness,
    )
}

// ---------------------------------------------------------------------------
// Laws
// ---------------------------------------------------------------------------

/// A request is made for every name and version but `.` and `..`, which would retarget it.
pub proof fn law_only_dot_segments_are_rejected(name: Seq<char>, version: Seq<char>)
    ensures
        addressable(name, version) <==> name != seq!['.'] && name != seq!['.', '.'] && version
            != seq!['.'] && version != seq!['.', '.'],
{
}

} // verus!
