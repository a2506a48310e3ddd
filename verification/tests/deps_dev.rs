//! deps.dev signals: systems, project keys, requests, memos and what answers amount to.

use deps_core::deps_dev::client::VersionFindingsStep;
use deps_core::deps_dev::gossip::{
    batch_outcome, start_version_findings, version_findings_outcome, GossipBatch, GossipBatchEntry,
    GossipBatchPage, GossipResults, GOSSIP_BATCH_MAX_PAGES, GOSSIP_REFRESH_BACKOFF,
};
use deps_core::deps_dev::memo::{
    after_leader, coalesced_outcome, deps_dev_ttls, CallOutcome, CoalescedMemo, FollowStep,
    LeaderEnd, MemoStep, TtlMemo, TtlPolicy, DEPS_DEV_ERROR_TTL, DEPS_DEV_SUCCESS_TTL,
    GOSSIP_ERROR_TTL, MAX_MEMO_ENTRIES,
};
use deps_core::deps_dev::popularity::{
    after_dependents_call, after_package_call, start_popularity, start_similar_packages,
    PackageVersion, PopularityStep,
};
use deps_core::deps_dev::project::{choose_project_key, classify_provenance, is_valid_project_key};
use deps_core::deps_dev::requests::{
    batch_url, call_result, dependents_url, findings_url, package_url, project_url, similar_url,
    version_url, CallEnd, CallFailure, DepsDevCall,
};
use deps_core::deps_dev::trust::{
    after_project_call, after_version_call, score_outcome, start_trust_signal, AfterVersion,
    TrustStart,
};
use deps_core::deps_dev::types::{
    gossip_findings_from_entry, DepsDevVersionInfo, GossipFindingType, GossipFindingWire,
    GossipVersionFindingsWire, ProvenanceEntry, RelatedProject,
};
use deps_core::deps_dev::{
    deps_dev_system, DepsDevClient, DepsDevSystem, FetchCompleteness, GossipCooldown,
    GossipRiskLevel, ProvenanceStatus, SupplyChainTrustSignal,
};
use deps_core::ecosystem::EcosystemId;
use deps_core::error::DepsError;
use deps_core::freshness::PublishTime;

const NOW: u64 = 10_000_000;
const BASE: &str = "https://api.deps.dev";

fn client() -> DepsDevClient<f32> {
    DepsDevClient::new()
}

fn names(v: &[&str]) -> Vec<String> {
    v.iter().map(|s| s.to_string()).collect()
}

#[test]
fn deps_dev_system_covers_seven_ecosystems() {
    assert_eq!(deps_dev_system(EcosystemId::Npm), Some(DepsDevSystem::Npm));
    assert_eq!(
        deps_dev_system(EcosystemId::Cargo),
        Some(DepsDevSystem::Cargo)
    );
    assert_eq!(deps_dev_system(EcosystemId::Go), Some(DepsDevSystem::Go));
    assert_eq!(
        deps_dev_system(EcosystemId::Maven),
        Some(DepsDevSystem::Maven)
    );
    assert_eq!(
        deps_dev_system(EcosystemId::Pypi),
        Some(DepsDevSystem::Pypi)
    );
    assert_eq!(
        deps_dev_system(EcosystemId::Bundler),
        Some(DepsDevSystem::Rubygems)
    );
    assert_eq!(
        deps_dev_system(EcosystemId::NuGet),
        Some(DepsDevSystem::NuGet)
    );
}

#[test]
fn deps_dev_system_as_path_segment_matches_deps_dev_api() {
    assert_eq!(DepsDevSystem::Npm.as_path_segment(), "npm");
    assert_eq!(DepsDevSystem::Cargo.as_path_segment(), "cargo");
    assert_eq!(DepsDevSystem::Go.as_path_segment(), "go");
    assert_eq!(DepsDevSystem::Maven.as_path_segment(), "maven");
    assert_eq!(DepsDevSystem::Pypi.as_path_segment(), "pypi");
    assert_eq!(DepsDevSystem::Rubygems.as_path_segment(), "rubygems");
    assert_eq!(DepsDevSystem::NuGet.as_path_segment(), "nuget");
}

#[test]
fn deps_dev_system_excludes_uncovered_ecosystems() {
    assert_eq!(deps_dev_system(EcosystemId::Composer), None);
    assert_eq!(deps_dev_system(EcosystemId::Dart), None);
    assert_eq!(deps_dev_system(EcosystemId::Swift), None);
    assert_eq!(deps_dev_system(EcosystemId::Gradle), None);
    assert_eq!(deps_dev_system(EcosystemId::Deno), None);
    assert_eq!(deps_dev_system(EcosystemId::GithubActions), None);
}

#[test]
fn is_valid_project_key_accepts_github_style_key() {
    assert!(is_valid_project_key("github.com/expressjs/express"));
}

#[test]
fn is_valid_project_key_rejects_traversal() {
    assert!(!is_valid_project_key("github.com/../../etc"));
    assert!(!is_valid_project_key("github.com/expressjs/.."));
}

#[test]
fn is_valid_project_key_rejects_non_host_first_segment() {
    assert!(!is_valid_project_key("not-a-host/expressjs/express"));
}

#[test]
fn is_valid_project_key_rejects_too_few_or_too_many_segments() {
    assert!(!is_valid_project_key("github.com"));
    assert!(!is_valid_project_key("github.com/a/b/c/d"));
}

#[test]
fn classify_provenance_both_empty_is_none() {
    assert_eq!(classify_provenance(&[], &[]), ProvenanceStatus::Absent);
}

#[test]
fn classify_provenance_any_verified_is_verified() {
    let entries = [ProvenanceEntry { verified: true }];
    assert_eq!(
        classify_provenance(&entries, &[]),
        ProvenanceStatus::Verified
    );
}

#[test]
fn classify_provenance_nonempty_unverified_is_unverified() {
    let entries = [ProvenanceEntry { verified: false }];
    assert_eq!(
        classify_provenance(&entries, &[]),
        ProvenanceStatus::Unverified
    );
}

#[test]
fn project_key_chosen_prefers_an_attested_source_repository() {
    let project = |key: &str, relation: &str, provenance: &str| RelatedProject {
        project_key: key.to_string(),
        relation_type: relation.to_string(),
        relation_provenance: provenance.to_string(),
    };
    let own = project("github.com/a/own", "SOURCE_REPO", "UNVERIFIED_METADATA");
    let issues = project("github.com/a/issues", "ISSUE_TRACKER", "SLSA_ATTESTATION");
    let attested = project("github.com/a/attested", "SOURCE_REPO", "SLSA_ATTESTATION");
    let broken = project("../etc", "SOURCE_REPO", "SLSA_ATTESTATION");
    assert_eq!(
        choose_project_key(&[own.clone(), issues.clone(), attested]),
        Some(("github.com/a/attested".to_string(), false))
    );
    assert_eq!(
        choose_project_key(&[issues, own]),
        Some(("github.com/a/own".to_string(), true))
    );
    assert_eq!(choose_project_key(&[broken]), None);
    assert_eq!(choose_project_key(&[]), None);
}

// --- requests ---

#[test]
fn trust_signal_percent_encodes_go_module_path() {
    assert_eq!(
        version_url(BASE, DepsDevSystem::Go, "github.com/gin-gonic/gin", "v1.9.1"),
        "https://api.deps.dev/v3/systems/go/packages/github.com%2Fgin-gonic%2Fgin/versions/v1.9.1"
    );
}

#[test]
fn trust_signal_percent_encodes_scoped_npm_name() {
    assert_eq!(
        version_url(BASE, DepsDevSystem::Npm, "@babel/core", "7.0.0"),
        "https://api.deps.dev/v3/systems/npm/packages/%40babel%2Fcore/versions/7.0.0"
    );
}

#[test]
fn trust_signal_percent_encodes_maven_coordinate() {
    assert_eq!(
        version_url(BASE, DepsDevSystem::Maven, "org.a:b c", "1+2"),
        "https://api.deps.dev/v3/systems/maven/packages/org.a%3Ab%20c/versions/1%2B2"
    );
}

#[test]
fn every_request_addresses_its_own_path() {
    assert_eq!(
        project_url(BASE, "github.com/a/b"),
        "https://api.deps.dev/v3/projects/github.com%2Fa%2Fb"
    );
    assert_eq!(
        similar_url(BASE, DepsDevSystem::Npm, "crossenv"),
        "https://api.deps.dev/v3alpha/systems/npm/packages/crossenv:similarlyNamedPackages"
    );
    assert_eq!(
        package_url(BASE, DepsDevSystem::Cargo, "\u{e9}~_.-"),
        "https://api.deps.dev/v3alpha/systems/cargo/packages/%C3%A9~_.-"
    );
    assert_eq!(
        dependents_url(BASE, DepsDevSystem::Npm, "a", "1"),
        "https://api.deps.dev/v3alpha/systems/npm/packages/a/versions/1:dependents"
    );
    assert_eq!(
        findings_url(BASE, DepsDevSystem::Npm, "a", "1"),
        "https://api.deps.dev/v3alpha/systems/npm/packages/a/versions/1:findings"
    );
    assert_eq!(batch_url(BASE), "https://api.deps.dev/v3alpha/findingsbatch");
}

#[test]
fn calls_are_labelled_and_named() {
    let call = DepsDevCall::Version { name: "a" };
    assert_eq!((call.label(), call.timed_out_name()), ("version", Some("a")));
    let call = DepsDevCall::Project { key: "k" };
    assert_eq!((call.label(), call.timed_out_name()), ("project", None));
    assert_eq!(DepsDevCall::SimilarlyNamed { name: "a" }.label(), "similarly-named-packages");
    assert_eq!(DepsDevCall::Package { name: "a" }.label(), "package");
    assert_eq!(DepsDevCall::Dependents { name: "a" }.label(), "dependents");
    let call = DepsDevCall::GossipVersionFindings { name: "a" };
    assert_eq!((call.label(), call.timed_out_name()), ("GOSSIP version findings", Some("a")));
}

#[test]
fn only_a_missing_record_is_a_definitive_failure() {
    assert_eq!(call_result(CallEnd::Answered(7)), Ok(7));
    assert_eq!(call_result::<u8>(CallEnd::Unreadable), Err(CallFailure::Transient));
    assert_eq!(call_result::<u8>(CallEnd::TimedOut), Err(CallFailure::Transient));
    let status = |status| CallEnd::<u8>::Failed(DepsError::HttpStatus { url: "u".into(), status });
    assert_eq!(call_result(status(404)), Err(CallFailure::NotFound));
    assert_eq!(call_result(status(500)), Err(CallFailure::Transient));
}

// --- trust signals ---

fn version_info(projects: Vec<RelatedProject>) -> DepsDevVersionInfo {
    DepsDevVersionInfo {
        slsa_provenances: vec![ProvenanceEntry { verified: true }],
        attestations: Vec::new(),
        related_projects: projects,
        licenses: names(&["MIT"]),
    }
}

fn source_repo(key: &str) -> RelatedProject {
    RelatedProject {
        project_key: key.to_string(),
        relation_type: "SOURCE_REPO".to_string(),
        relation_provenance: "UNVERIFIED_METADATA".to_string(),
    }
}

#[test]
fn trust_signal_dot_segment_name_rejected_before_request() {
    let start = |name: &str, version: &str| start_trust_signal(BASE, DepsDevSystem::Npm, name, version);
    assert!(matches!(start("..", "1.0.0"), TrustStart::Rejected));
    assert!(matches!(start("left-pad", "."), TrustStart::Rejected));
    match start("left-pad", "1.0.0") {
        TrustStart::RequestVersion(url) => {
            assert_eq!(url, version_url(BASE, DepsDevSystem::Npm, "left-pad", "1.0.0"));
        }
        TrustStart::Rejected => panic!("an ordinary version is requested"),
    }
}

#[test]
fn trust_signal_renders_score_and_verified_provenance() {
    let info = version_info(vec![source_repo("github.com/expressjs/express")]);
    let pending = match after_version_call::<f32>(Ok(info)) {
        AfterVersion::NeedScore(pending) => pending,
        AfterVersion::Done(_) => panic!("a source repository has a score to ask for"),
    };
    assert_eq!(pending.project_key, "github.com/expressjs/express");
    let outcome = after_project_call(pending, score_outcome(Ok(Some(8.5))));
    assert_eq!(outcome.completeness(), FetchCompleteness::Complete);
    let signal = outcome.into_value().unwrap();
    let card = signal.scorecard.unwrap();
    assert_eq!(card.overall_score, 8.5);
    assert!(card.self_reported);
    assert_eq!(signal.provenance, Some(ProvenanceStatus::Verified));
    assert_eq!(signal.licenses, names(&["MIT"]));
}

#[test]
fn trust_signal_project_call_fails_keeps_provenance() {
    let info = version_info(vec![source_repo("github.com/a/b")]);
    let pending = match after_version_call::<f32>(Ok(info)) {
        AfterVersion::NeedScore(pending) => pending,
        AfterVersion::Done(_) => panic!("a source repository has a score to ask for"),
    };
    let outcome = after_project_call::<f32>(pending, score_outcome(Err(CallFailure::Transient)));
    assert_eq!(outcome.completeness(), FetchCompleteness::Incomplete);
    let signal = outcome.into_value().unwrap();
    assert!(signal.scorecard.is_none());
    assert_eq!(signal.provenance, Some(ProvenanceStatus::Verified));
}

#[test]
fn trust_signal_no_source_repo_omits_scorecard_keeps_provenance() {
    match after_version_call::<f32>(Ok(version_info(Vec::new()))) {
        AfterVersion::Done(CallOutcome::Definitive(Some(signal))) => {
            assert!(signal.scorecard.is_none());
            assert_eq!(signal.provenance, Some(ProvenanceStatus::Verified));
        }
        _ => panic!("without a project the signal is complete"),
    }
}

#[test]
fn trust_signal_invalid_project_key_issues_zero_project_requests() {
    let info = version_info(vec![source_repo("github.com/../../etc")]);
    assert!(matches!(after_version_call::<f32>(Ok(info)), AfterVersion::Done(_)));
}

#[test]
fn trust_signal_404_is_definitive_and_failure_is_not() {
    assert!(matches!(
        after_version_call::<f32>(Err(CallFailure::NotFound)),
        AfterVersion::Done(CallOutcome::Definitive(None))
    ));
    assert!(matches!(
        after_version_call::<f32>(Err(CallFailure::Transient)),
        AfterVersion::Done(CallOutcome::Degraded(None))
    ));
    assert!(matches!(
        score_outcome::<f32>(Err(CallFailure::NotFound)),
        CallOutcome::Definitive(None)
    ));
}

#[test]
fn trust_signal_second_call_within_ttl_issues_zero_requests() {
    let mut c = client();
    let npm = DepsDevSystem::Npm;
    assert!(matches!(c.trust_signal(npm, "a", "1", NOW), MemoStep::Lead));
    assert!(matches!(c.trust_signal(npm, "a", "1", NOW), MemoStep::Follow));
    let mut signal = SupplyChainTrustSignal::default();
    signal.licenses = names(&["MIT"]);
    c.finish_trust_signal(npm, "a", "1", Some(CallOutcome::Definitive(Some(signal))), NOW);
    match c.trust_signal(npm, "a", "1", NOW + DEPS_DEV_SUCCESS_TTL - 1) {
        MemoStep::Hit(outcome) => {
            assert_eq!(outcome.as_value().as_ref().unwrap().licenses, names(&["MIT"]));
        }
        _ => panic!("a fresh outcome is served"),
    }
    assert!(matches!(
        c.trust_signal(npm, "a", "1", NOW + DEPS_DEV_SUCCESS_TTL),
        MemoStep::Lead
    ));
}

#[test]
fn trust_signal_version_call_failure_ttl_is_error_ttl() {
    let mut c = client();
    let npm = DepsDevSystem::Npm;
    c.finish_trust_signal(npm, "a", "1", Some(CallOutcome::Degraded(None)), NOW);
    assert!(matches!(
        c.trust_signal(npm, "a", "1", NOW + DEPS_DEV_ERROR_TTL - 1),
        MemoStep::Hit(_)
    ));
    assert!(matches!(c.trust_signal(npm, "a", "1", NOW + DEPS_DEV_ERROR_TTL), MemoStep::Lead));
}

#[test]
fn trust_signal_in_flight_claim_released_after_failure() {
    let mut c = client();
    let npm = DepsDevSystem::Npm;
    assert!(matches!(c.trust_signal(npm, "a", "1", NOW), MemoStep::Lead));
    c.finish_trust_signal(npm, "a", "1", None, NOW);
    assert_eq!(c.signal_count(), 0);
    assert!(matches!(c.trust_signal(npm, "a", "1", NOW), MemoStep::Lead));
}

#[test]
fn trust_signal_memo_keys_do_not_alias_on_control_characters() {
    let mut c = client();
    let npm = DepsDevSystem::Npm;
    c.finish_trust_signal(npm, "a\0b", "c", Some(CallOutcome::Definitive(None)), NOW);
    assert!(matches!(c.trust_signal(npm, "a", "b\0c", NOW), MemoStep::Lead));
    assert!(matches!(c.trust_signal(DepsDevSystem::Go, "a\0b", "c", NOW), MemoStep::Lead));
    assert!(matches!(c.trust_signal(npm, "a\0b", "c", NOW), MemoStep::Hit(_)));
}

#[test]
fn trust_signal_two_packages_sharing_project_key_issue_one_project_call() {
    let mut c = client();
    assert!(c.known_score("github.com/a/b", NOW).is_none());
    c.keep_score("github.com/a/b", CallOutcome::Definitive(Some(8.0)), NOW);
    assert!(matches!(
        c.known_score("github.com/a/b", NOW + 1),
        Some(CallOutcome::Definitive(Some(score))) if score == 8.0
    ));
    c.keep_score("github.com/a/c", CallOutcome::Degraded(None), NOW);
    assert!(matches!(c.known_score("github.com/a/c", NOW), Some(CallOutcome::Degraded(None))));
    assert!(c.known_score("github.com/a/c", NOW + DEPS_DEV_ERROR_TTL).is_none());
}

#[test]
fn memo_evicts_when_max_entries_reached() {
    let mut c = client();
    for i in 0..MAX_MEMO_ENTRIES {
        c.finish_trust_signal(
            DepsDevSystem::Npm,
            &format!("pkg-{i}"),
            "1.0.0",
            Some(CallOutcome::Definitive(None)),
            NOW,
        );
    }
    assert_eq!(c.signal_count(), MAX_MEMO_ENTRIES);

    c.finish_trust_signal(
        DepsDevSystem::Npm,
        "overflow",
        "1.0.0",
        Some(CallOutcome::Definitive(None)),
        NOW,
    );

    assert!(
        c.signal_count() <= MAX_MEMO_ENTRIES,
        "memo must stay bounded at MAX_MEMO_ENTRIES, got {}",
        c.signal_count()
    );
    assert!(matches!(
        c.trust_signal(DepsDevSystem::Npm, "overflow", "1.0.0", NOW),
        MemoStep::Hit(_)
    ));
}

#[test]
fn project_memo_evicts_when_max_entries_reached() {
    let mut c = client();
    for i in 0..MAX_MEMO_ENTRIES {
        c.keep_score(
            &format!("github.com/org/repo-{i}"),
            CallOutcome::Definitive(Some(8.0)),
            NOW,
        );
    }
    assert_eq!(c.score_count(), MAX_MEMO_ENTRIES);

    c.keep_score("github.com/org/overflow", CallOutcome::Definitive(Some(8.0)), NOW);

    assert!(
        c.score_count() <= MAX_MEMO_ENTRIES,
        "projects memo must stay bounded at MAX_MEMO_ENTRIES, got {}",
        c.score_count()
    );
}

// --- popularity and similar packages ---

#[test]
fn popularity_dot_segment_name_rejected_before_request() {
    assert!(matches!(
        start_popularity(BASE, DepsDevSystem::Npm, ".."),
        PopularityStep::Done(CallOutcome::Definitive(None))
    ));
    match start_popularity(BASE, DepsDevSystem::Npm, "a") {
        PopularityStep::Request(url) => {
            assert_eq!(url, package_url(BASE, DepsDevSystem::Npm, "a"));
        }
        PopularityStep::Done(_) => panic!("an ordinary name is requested"),
    }
}

#[test]
fn popularity_dot_segment_default_version_rejected_before_dependents_request() {
    let version = |version: &str, is_default| PackageVersion { version: version.to_string(), is_default };
    let after = |versions| after_package_call(BASE, DepsDevSystem::Npm, "a", Ok(versions));
    assert!(matches!(
        after(vec![version("..", true)]),
        PopularityStep::Done(CallOutcome::Definitive(None))
    ));
    assert!(matches!(
        after(vec![version("1", false)]),
        PopularityStep::Done(CallOutcome::Definitive(None))
    ));
    match after(vec![version("1", false), version("2", true), version("3", true)]) {
        PopularityStep::Request(url) => {
            assert_eq!(url, dependents_url(BASE, DepsDevSystem::Npm, "a", "2"));
        }
        PopularityStep::Done(_) => panic!("the default version is asked for"),
    }
    assert!(matches!(
        after_package_call(BASE, DepsDevSystem::Npm, "a", Err(CallFailure::Transient)),
        PopularityStep::Done(CallOutcome::Degraded(None))
    ));
    assert!(matches!(
        after_package_call(BASE, DepsDevSystem::Npm, "a", Err(CallFailure::NotFound)),
        PopularityStep::Done(CallOutcome::Definitive(None))
    ));
}

#[test]
fn typosquat_signal_dependents_404_memoizes_error_ttl_not_success_ttl() {
    assert!(matches!(after_dependents_call(Ok(900)), CallOutcome::Definitive(Some(900))));
    assert!(matches!(
        after_dependents_call(Err(CallFailure::NotFound)),
        CallOutcome::Degraded(None)
    ));
    assert!(matches!(
        after_dependents_call(Err(CallFailure::Transient)),
        CallOutcome::Degraded(None)
    ));
}

#[test]
fn similar_packages_dot_segment_name_rejected_before_request() {
    assert!(start_similar_packages(BASE, DepsDevSystem::Npm, ".").is_none());
    assert_eq!(
        start_similar_packages(BASE, DepsDevSystem::Npm, "a"),
        Some(similar_url(BASE, DepsDevSystem::Npm, "a"))
    );
}

#[test]
fn typosquat_signal_concurrent_calls_share_one_candidate_popularity_request() {
    let mut c = client();
    let npm = DepsDevSystem::Npm;
    assert!(matches!(c.popularity(npm, "a", NOW), MemoStep::Lead));
    assert!(matches!(c.popularity(npm, "a", NOW), MemoStep::Follow));
    c.finish_popularity(npm, "a", Some(CallOutcome::Definitive(Some(3))), NOW);
    assert!(matches!(c.popularity(npm, "a", NOW), MemoStep::Hit(CallOutcome::Definitive(Some(3)))));
    assert!(matches!(c.similar_packages(npm, "a", NOW), MemoStep::Lead));
    c.finish_similar_packages(npm, "a", None, NOW);
    assert!(matches!(c.similar_packages(npm, "a", NOW), MemoStep::Lead));
}

// --- findings ---

fn finding(kind: GossipFindingType, end: Option<&str>) -> GossipFindingWire {
    GossipFindingWire {
        finding_type: kind,
        risk: GossipRiskLevel::High,
        cooldown_end: end.map(str::to_string),
        alternative_packages: None,
    }
}

fn entry(version: &str, findings: Vec<GossipFindingWire>) -> GossipVersionFindingsWire {
    GossipVersionFindingsWire { version: version.to_string(), findings, cooldown_end: None }
}

fn page(entries: Vec<(&str, Option<GossipVersionFindingsWire>)>, token: &str) -> GossipBatchPage {
    GossipBatchPage {
        responses: entries
            .into_iter()
            .map(|(name, default_version)| GossipBatchEntry { name: name.to_string(), default_version })
            .collect(),
        next_page_token: token.to_string(),
    }
}

#[test]
fn wire_values_are_read_leniently() {
    assert_eq!(GossipRiskLevel::from_wire("RISK_CRITICAL"), GossipRiskLevel::Critical);
    assert_eq!(GossipRiskLevel::from_wire("RISK_LOW"), GossipRiskLevel::Low);
    assert_eq!(GossipRiskLevel::from_wire("?"), GossipRiskLevel::from_wire("RISK_INFORMATIONAL"));
    assert_eq!(GossipFindingType::from_wire("COOLDOWN"), GossipFindingType::Cooldown);
    assert_eq!(GossipFindingType::from_wire("LOW_USAGE"), GossipFindingType::LowUsage);
    assert_eq!(GossipFindingType::from_wire("MALWARE"), GossipFindingType::Other);
}

#[test]
fn gossip_findings_batch_parses_active_cooldown() {
    let wire = entry(
        "1.2.3",
        vec![
            finding(GossipFindingType::Other, Some("2000-01-01T00:00:00Z")),
            finding(GossipFindingType::Cooldown, Some("1970-01-01T01:00:00Z")),
            finding(GossipFindingType::Cooldown, Some("1970-01-01T02:00:00Z")),
        ],
    );
    let findings = gossip_findings_from_entry(&wire);
    assert_eq!(findings.version, "1.2.3");
    let cooldown = findings.cooldown.unwrap();
    assert_eq!(cooldown, GossipCooldown::new(PublishTime::from_unix_secs(3600), GossipRiskLevel::High));
    assert!(cooldown.is_active(PublishTime::from_unix_secs(3599)));
    assert!(!cooldown.is_active(PublishTime::from_unix_secs(3600)));
    assert!(findings.low_usage.is_none());
}

#[test]
fn cooldown_end_falls_back_to_the_entry() {
    let mut wire = entry("1", vec![finding(GossipFindingType::Cooldown, None)]);
    assert!(gossip_findings_from_entry(&wire).cooldown.is_none());
    wire.cooldown_end = Some("1970-01-01T00:00:05Z".to_string());
    let end = gossip_findings_from_entry(&wire).cooldown.unwrap().end;
    assert_eq!(end.as_unix_secs(), 5);
    wire.cooldown_end = Some("soon".to_string());
    assert!(gossip_findings_from_entry(&wire).cooldown.is_none());
}

#[test]
fn low_usage_carries_its_alternatives() {
    let mut low = finding(GossipFindingType::LowUsage, None);
    low.alternative_packages = Some(names(&["b", "c"]));
    let findings = gossip_findings_from_entry(&entry("1", vec![low]));
    let usage = findings.low_usage.clone().unwrap();
    assert_eq!(usage.risk, GossipRiskLevel::High);
    assert_eq!(usage.alternative_packages, names(&["b", "c"]));
    assert_eq!(findings.duplicate(), findings);
    let bare = gossip_findings_from_entry(&entry("1", vec![finding(GossipFindingType::LowUsage, None)]));
    assert!(bare.low_usage.unwrap().alternative_packages.is_empty());
}

#[test]
fn gossip_findings_batch_follows_next_page_token() {
    let mut batch = GossipBatch::new();
    assert_eq!(batch.page_token(), None);
    batch.accept_page(Some(page(vec![("a", Some(entry("1", Vec::new())))], "next")));
    assert!(!batch.is_finished());
    assert_eq!(batch.page_token(), Some("next"));
    batch.accept_page(Some(page(vec![("b", None)], "")));
    assert!(batch.is_finished());
    let results = batch.into_results();
    assert_eq!(results.get("a").unwrap().as_ref().unwrap().version, "1");
    assert_eq!(results.get("b"), Some(&None));
    assert_eq!(results.get("c"), None);
}

#[test]
fn gossip_findings_batch_failed_page_rejects_the_whole_batch() {
    let mut batch = GossipBatch::new();
    batch.accept_page(Some(page(vec![("a", Some(entry("1", Vec::new())))], "next")));
    batch.accept_page(None);
    assert!(batch.is_finished());
    assert!(batch.into_results().get("a").is_none());
}

#[test]
fn gossip_findings_batch_stops_at_the_page_bound() {
    let mut batch = GossipBatch::new();
    let mut pages = 0;
    while !batch.is_finished() {
        batch.accept_page(Some(page(Vec::new(), "again")));
        pages += 1;
    }
    assert_eq!(pages, GOSSIP_BATCH_MAX_PAGES);
}

#[test]
fn gossip_findings_batch_second_call_within_ttl_issues_zero_requests() {
    let mut c = client();
    let npm = DepsDevSystem::Npm;
    let asked = names(&["a", "b", "c", "a"]);
    let plan = c.gossip_findings_batch(npm, &asked, NOW);
    assert!(plan.ready.is_empty());
    assert_eq!(plan.claimed, names(&["a", "b", "c"]));
    // Someone else asks meanwhile: the names are left to the call under way.
    assert!(c.gossip_findings_batch(npm, &asked, NOW).claimed.is_empty());
    let mut results = GossipResults::new();
    results.insert("a".to_string(), Some(gossip_findings_from_entry(&entry("1", Vec::new()))));
    results.insert("b".to_string(), None);
    let found = c.finish_gossip_batch(npm, &plan.claimed, &results, NOW);
    assert_eq!(found.len(), 1);
    assert_eq!(found[0].0, "a");
    assert_eq!(c.gossip_count(), 3);
    // Within the error lifetime nothing is asked; after it only the name without an answer is.
    let plan = c.gossip_findings_batch(npm, &asked, NOW + GOSSIP_ERROR_TTL - 1);
    assert_eq!(plan.ready.len(), 2);
    assert!(plan.claimed.is_empty());
    let plan = c.gossip_findings_batch(npm, &asked, NOW + GOSSIP_ERROR_TTL);
    assert_eq!(plan.claimed, names(&["c"]));
    c.abandon_gossip_batch(npm, &plan.claimed);
    let plan = c.gossip_findings_batch(npm, &asked, NOW + GOSSIP_ERROR_TTL);
    assert_eq!(plan.claimed, names(&["c"]));
}

#[test]
fn batch_outcome_without_an_answer_is_degraded() {
    let mut results = GossipResults::new();
    results.insert("a".to_string(), None);
    assert!(matches!(batch_outcome("a", &results), CallOutcome::Definitive(None)));
    assert!(matches!(batch_outcome("b", &results), CallOutcome::Degraded(None)));
}

#[test]
fn gossip_refresh_is_throttled_and_drops_what_is_memoized() {
    let mut c = client();
    let npm = DepsDevSystem::Npm;
    let asked = names(&["a", "a", "b"]);
    let claimed = names(&["a"]);
    let mut results = GossipResults::new();
    results.insert("a".to_string(), Some(gossip_findings_from_entry(&entry("1", Vec::new()))));
    c.finish_gossip_batch(npm, &claimed, &results, NOW);
    assert_eq!(c.gossip_count(), 1);
    let eligible = c.force_refresh_gossip_findings(npm, &asked, NOW);
    assert_eq!(eligible, names(&["a", "b"]));
    assert_eq!(c.gossip_count(), 0);
    assert_eq!(c.refresh_attempt_count(), 2);
    // In progress, then within the backoff, then eligible again.
    assert!(c.force_refresh_gossip_findings(npm, &asked, NOW).is_empty());
    let found = c.finish_gossip_refresh(npm, &eligible, &results, NOW);
    assert_eq!(found.len(), 1);
    assert_eq!(c.gossip_count(), 2);
    let later = NOW + GOSSIP_REFRESH_BACKOFF;
    assert!(c.force_refresh_gossip_findings(npm, &asked, later - 1).is_empty());
    let eligible = c.force_refresh_gossip_findings(npm, &asked, later);
    assert_eq!(eligible, names(&["a", "b"]));
    c.abandon_gossip_refresh(npm, &eligible);
    assert!(c.force_refresh_gossip_findings(npm, &asked, later).is_empty());
}

#[test]
fn gossip_last_refresh_attempt_evicts_when_max_entries_reached() {
    let mut c = client();
    let all: Vec<String> = (0..MAX_MEMO_ENTRIES).map(|i| format!("pkg-{i}")).collect();
    c.force_refresh_gossip_findings(DepsDevSystem::Npm, &all, NOW);
    assert_eq!(c.refresh_attempt_count(), MAX_MEMO_ENTRIES);

    c.force_refresh_gossip_findings(DepsDevSystem::Npm, &names(&["overflow"]), NOW);

    assert!(
        c.refresh_attempt_count() <= MAX_MEMO_ENTRIES,
        "backoff map must stay bounded at MAX_MEMO_ENTRIES, got {}",
        c.refresh_attempt_count()
    );
}

#[test]
fn gossip_findings_for_version_returns_requested_version_cooldown() {
    let wire = entry("2", vec![finding(GossipFindingType::Cooldown, Some("1970-01-01T00:00:09Z"))]);
    let outcome = version_findings_outcome(Ok(Some(wire)));
    assert_eq!(outcome.completeness(), FetchCompleteness::Complete);
    let findings = outcome.into_value().unwrap();
    assert_eq!(findings.cooldown.unwrap().end.as_unix_secs(), 9);
    assert!(matches!(version_findings_outcome(Ok(None)), CallOutcome::Definitive(None)));
    assert!(matches!(
        version_findings_outcome(Err(CallFailure::NotFound)),
        CallOutcome::Definitive(None)
    ));
    assert!(matches!(
        version_findings_outcome(Err(CallFailure::Transient)),
        CallOutcome::Degraded(None)
    ));
    assert!(start_version_findings(BASE, DepsDevSystem::Npm, "a", "..").is_none());
    assert_eq!(
        start_version_findings(BASE, DepsDevSystem::Npm, "a", "1"),
        Some(findings_url(BASE, DepsDevSystem::Npm, "a", "1"))
    );
}

#[test]
fn gossip_findings_for_version_is_claimed_and_memoized() {
    let mut c = client();
    let npm = DepsDevSystem::Npm;
    assert!(matches!(c.gossip_findings_for_version(npm, "a", "1", NOW), VersionFindingsStep::Ask));
    assert!(matches!(c.gossip_findings_for_version(npm, "a", "1", NOW), VersionFindingsStep::Busy));
    assert!(matches!(c.gossip_findings_for_version(npm, "a", "2", NOW), VersionFindingsStep::Ask));
    c.finish_version_findings(npm, "a", "1", Some(CallOutcome::Definitive(None)), NOW);
    assert!(matches!(
        c.gossip_findings_for_version(npm, "a", "1", NOW),
        VersionFindingsStep::Hit(None)
    ));
    c.finish_version_findings(npm, "a", "2", None, NOW);
    assert!(matches!(c.gossip_findings_for_version(npm, "a", "2", NOW), VersionFindingsStep::Ask));
}

// --- memo ---

#[test]
fn combining_completeness_is_incomplete_if_either_is() {
    let (c, i) = (FetchCompleteness::Complete, FetchCompleteness::Incomplete);
    assert_eq!(c.combine(c), c);
    assert_eq!(c.combine(i), i);
    assert_eq!(i.combine(c), i);
    assert_eq!(i.combine(i), i);
}

#[test]
fn get_or_fetch_memo_hit_skips_fetch() {
    let key = names(&["k"]);
    let mut memo = CoalescedMemo::new(TtlPolicy::new(1000, 10));
    assert!(matches!(memo.begin(&key, 0), MemoStep::Lead));
    memo.complete(&key, CallOutcome::Definitive(7), 0);
    assert!(matches!(memo.begin(&key, 999), MemoStep::Hit(CallOutcome::Definitive(7))));
    assert_eq!(memo.len(), 1);
}

#[test]
fn get_or_fetch_degraded_expires_on_the_shorter_degraded_ttl() {
    let key = names(&["k"]);
    let mut memo = TtlMemo::new(TtlPolicy::new(1000, 10));
    memo.insert(key.clone(), CallOutcome::Degraded(7), 0);
    assert_eq!(memo.ttl_of(&key), Some(10));
    assert!(memo.get_fresh(&key, 9).is_some());
    assert!(memo.get_fresh(&key, 10).is_none());
    assert!(memo.contains_key(&key));
    memo.remove(&key);
    assert!(!memo.contains_key(&key));
    assert_eq!(deps_dev_ttls().ttl_for(&CallOutcome::Degraded(())), DEPS_DEV_ERROR_TTL);
}

#[test]
fn get_or_fetch_exhaustion_returns_degraded_default() {
    assert!(matches!(coalesced_outcome(None, 5), CallOutcome::Degraded(5)));
    assert!(matches!(
        coalesced_outcome(Some(CallOutcome::Definitive(7)), 5),
        CallOutcome::Definitive(7)
    ));
}

#[test]
fn coalesce_aborted_leader_lets_follower_take_over_and_recover_real_value() {
    let key = names(&["k"]);
    let mut memo: CoalescedMemo<u8> = CoalescedMemo::new(deps_dev_ttls());
    assert!(matches!(memo.begin(&key, 0), MemoStep::Lead));
    assert!(matches!(memo.begin(&key, 0), MemoStep::Follow));
    assert!(memo.in_flight_contains(&key));
    memo.abandon(&key);
    assert!(!memo.in_flight_contains(&key));
    assert!(matches!(after_leader::<u8>(0, LeaderEnd::Cancelled), FollowStep::Retry(1)));
    assert!(matches!(memo.begin(&key, 0), MemoStep::Lead));
    memo.complete(&key, CallOutcome::Definitive(99), 0);
    assert!(matches!(memo.begin(&key, 0), MemoStep::Hit(CallOutcome::Definitive(99))));
    assert!(matches!(after_leader(2, LeaderEnd::Ready(99)), FollowStep::Done(99)));
    assert!(matches!(after_leader::<u8>(1, LeaderEnd::Cancelled), FollowStep::Retry(2)));
    assert!(matches!(after_leader::<u8>(2, LeaderEnd::Cancelled), FollowStep::GiveUp));
}

#[test]
fn followers_of_an_ended_leader_share_its_outcome() {
    let key = names(&["k"]);
    let mut memo: CoalescedMemo<u8> = CoalescedMemo::new(deps_dev_ttls());
    assert!(matches!(memo.begin(&key, 0), MemoStep::Lead));
    for _ in 0..3 {
        assert!(matches!(memo.begin(&key, 0), MemoStep::Follow));
    }
    assert!(matches!(memo.begin(&names(&["other"]), 0), MemoStep::Lead));
    memo.complete(&key, CallOutcome::Degraded(4), 0);
    assert!(!memo.in_flight_contains(&key));
    assert!(memo.in_flight_contains(&names(&["other"])));
    for attempt in 0..=2 {
        assert!(matches!(after_leader(attempt, LeaderEnd::Ready(4)), FollowStep::Done(4)));
    }
}
