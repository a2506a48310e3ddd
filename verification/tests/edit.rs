//! Version classification, edit splicing and update planning.

use deps_core::ecosystem::{Dependency, EcosystemId, ParseResult};
use deps_core::edit::classify::parse_leading_dotted_numeric;
use deps_core::edit::{
    apply_edits, classify_update, collect_update_candidates, collect_update_edits,
    dedup_overlapping_edits, plan_verified_fix, plan_vulnerability_fix, replacement_text,
    requirement_is_placeholder_for, resolve_recommended_fix, resolve_verified_fix, EditSpan,
    ManifestEdit, UnplannableReason, UpdateCandidate, UpdateKind, VulnFixSkip,
};
use deps_core::formatter::{EcosystemFormatter, RequirementStatus, VersionData, VersionTable};
use deps_core::osv::{
    Advisory, Capped, DependencyVulnerabilities, FixRecommendation, UpgradeStatus,
};
use deps_core::position::{Position, Range};

fn range(sl: u32, sc: u32, el: u32, ec: u32) -> Range {
    Range::new(Position::new(sl, sc), Position::new(el, ec))
}

#[test]
fn test_classify_update_major() {
    assert_eq!(classify_update("1.2.3", "2.0.0"), UpdateKind::Major);
}

#[test]
fn test_classify_update_minor() {
    assert_eq!(classify_update("1.2.3", "1.3.0"), UpdateKind::Minor);
}

#[test]
fn test_classify_update_patch() {
    assert_eq!(classify_update("1.2.3", "1.2.4"), UpdateKind::Patch);
}

#[test]
fn test_classify_update_v_prefix() {
    assert_eq!(classify_update("v1.2.3", "v2.0.0"), UpdateKind::Major);
}

#[test]
fn test_classify_update_prerelease_and_build_suffix_ignored() {
    assert_eq!(
        classify_update("1.2.3-alpha.1", "1.2.3+build.5"),
        UpdateKind::Patch
    );
}

#[test]
fn test_classify_update_github_actions_sha_pin_is_unknown() {
    assert_eq!(
        classify_update(
            "a1b2c3d4e5f6a1b2c3d4e5f6a1b2c3d4e5f6a1b2",
            "b2c3d4e5f6a1b2c3d4e5f6a1b2c3d4e5f6a1b2c3"
        ),
        UpdateKind::Unknown
    );
}

#[test]
fn test_classify_update_go_pseudo_version_is_unknown() {
    assert_eq!(
        classify_update("v0.0.0-20210101000000-abcdef123456", "v1.0.0"),
        UpdateKind::Unknown
    );
    assert_eq!(
        classify_update(
            "v1.2.3-0.20210101000000-abcdef123456",
            "v1.2.3-0.20210102000000-abcdef654321"
        ),
        UpdateKind::Unknown
    );
}

#[test]
fn test_classify_update_maven_nuget_range_syntax_is_unknown() {
    assert_eq!(classify_update("[1.0,2.0)", "2.0.0"), UpdateKind::Unknown);
    assert_eq!(classify_update("1.0.0", "[1.0,2.0)"), UpdateKind::Unknown);
}

#[test]
fn test_classify_update_wildcard_latest_workspace_star_is_unknown() {
    assert_eq!(classify_update("*", "1.0.0"), UpdateKind::Unknown);
    assert_eq!(classify_update("latest", "1.0.0"), UpdateKind::Unknown);
    assert_eq!(classify_update("workspace:*", "1.0.0"), UpdateKind::Unknown);
}

#[test]
fn test_classify_update_gradle_strictly_preferred_syntax_is_unknown() {
    assert_eq!(
        classify_update("{strictly 1.0}!!1.2", "1.3.0"),
        UpdateKind::Unknown
    );
}

#[test]
fn test_classify_update_equal_versions_is_patch() {
    assert_eq!(classify_update("1.2.3", "1.2.3"), UpdateKind::Patch);
}

#[test]
fn test_classify_update_four_component_version() {
    assert_eq!(classify_update("1.0.0.0", "1.0.1.0"), UpdateKind::Patch);
}

#[test]
fn test_dedup_overlapping_manifest_edits_drops_the_later_overlap() {
    let edits = vec![
        ManifestEdit {
            range: range(0, 0, 0, 5),
            new_text: "a".to_string(),
        },
        ManifestEdit {
            range: range(0, 2, 0, 7),
            new_text: "b".to_string(),
        },
    ];
    let kept = dedup_overlapping_edits(edits, "test");
    assert_eq!(kept.len(), 1);
    assert_eq!(kept[0].new_text, "a");
}

#[test]
fn test_dedup_non_overlapping_manifest_edits_keeps_both() {
    let edits = vec![
        ManifestEdit {
            range: range(0, 0, 0, 5),
            new_text: "a".to_string(),
        },
        ManifestEdit {
            range: range(1, 0, 1, 5),
            new_text: "b".to_string(),
        },
    ];
    let kept = dedup_overlapping_edits(edits, "test");
    assert_eq!(kept.len(), 2);
}

#[test]
fn test_apply_edits_single_line() {
    let content = "serde = \"1.0.0\"\n";
    let edits = vec![ManifestEdit {
        range: range(0, 9, 0, 14),
        new_text: "1.2.0".to_string(),
    }];
    assert_eq!(apply_edits(content, &edits), "serde = \"1.2.0\"\n");
}

#[test]
fn test_apply_edits_multiple_lines_reverse_splice() {
    let content = "serde = \"1.0.0\"\ntokio = \"1.0.0\"\n";
    let edits = vec![
        ManifestEdit {
            range: range(0, 9, 0, 14),
            new_text: "1.2.0".to_string(),
        },
        ManifestEdit {
            range: range(1, 9, 1, 14),
            new_text: "1.3.0".to_string(),
        },
    ];
    assert_eq!(
        apply_edits(content, &edits),
        "serde = \"1.2.0\"\ntokio = \"1.3.0\"\n"
    );
}

#[test]
fn test_apply_edits_empty_slice_is_a_no_op() {
    let content = "serde = \"1.0.0\"\n";
    assert_eq!(apply_edits(content, &[]), content);
}

#[test]
fn test_apply_edits_drops_inverted_range_instead_of_panicking() {
    let content = "serde = \"1.0.0\"\n";
    let edits = vec![ManifestEdit {
        range: range(0, 14, 0, 9),
        new_text: "evil".to_string(),
    }];
    assert_eq!(apply_edits(content, &edits), content);
}

#[test]
fn test_apply_edits_valid_edit_still_applies_alongside_a_dropped_inverted_one() {
    let content = "serde = \"1.0.0\"\ntokio = \"1.0.0\"\n";
    let edits = vec![
        ManifestEdit {
            range: range(0, 14, 0, 9),
            new_text: "evil".to_string(),
        },
        ManifestEdit {
            range: range(1, 9, 1, 14),
            new_text: "1.3.0".to_string(),
        },
    ];
    assert_eq!(
        apply_edits(content, &edits),
        "serde = \"1.0.0\"\ntokio = \"1.3.0\"\n"
    );
}

// --- planning ---

struct MockDep {
    name: String,
    version_req: String,
    version_range: Range,
    name_range: Range,
    literal: Option<String>,
}

impl Dependency for MockDep {
    fn name(&self) -> &str {
        &self.name
    }
    fn name_range(&self) -> Range {
        self.name_range
    }
    fn version_requirement(&self) -> Option<&str> {
        Some(&self.version_req)
    }
    fn version_range(&self) -> Option<Range> {
        Some(self.version_range)
    }
    fn version_literal(&self) -> Option<&str> {
        self.literal.as_deref()
    }
}

struct MockParseResult {
    deps: Vec<MockDep>,
}

impl ParseResult for MockParseResult {
    type Dep = MockDep;

    fn dependencies(&self) -> &[MockDep] {
        &self.deps
    }
}

/// A formatter whose rewrite and forward resolution are given by functions.
struct MockFormatter {
    rewrite: fn(&str, &str) -> String,
    admits: fn(&str, &str) -> bool,
    always_outdated: bool,
}

fn quoted(version: &str, _current: &str) -> String {
    format!("\"{version}\"")
}

fn plain(version: &str, _current: &str) -> String {
    version.to_string()
}

fn unchanged(_version: &str, current: &str) -> String {
    current.to_string()
}

fn sha_preserving(version: &str, _current: &str) -> String {
    format!("{version} # v-resolved")
}

fn never(_requirement: &str, _target: &str) -> bool {
    false
}

/// Caret semantics on leading numbers: `1` admits `1.0.2`, `0.9` does not.
fn caret(requirement: &str, target: &str) -> bool {
    let (r, t) = match (
        parse_leading_dotted_numeric(requirement),
        parse_leading_dotted_numeric(target),
    ) {
        (Some(r), Some(t)) => (r, t),
        _ => return false,
    };
    t >= r && if r.0 > 0 { t.0 == r.0 } else { t.0 == 0 && t.1 == r.1 }
}

const MOCK_FORMATTER: MockFormatter =
    MockFormatter { rewrite: quoted, admits: never, always_outdated: false };
const STRICT_SEMVER: MockFormatter =
    MockFormatter { rewrite: plain, admits: caret, always_outdated: false };
const FLOOR: MockFormatter = MockFormatter { rewrite: plain, admits: never, always_outdated: false };
const NO_OP: MockFormatter =
    MockFormatter { rewrite: unchanged, admits: never, always_outdated: true };
const SHA_PIN: MockFormatter =
    MockFormatter { rewrite: sha_preserving, admits: never, always_outdated: false };

impl EcosystemFormatter for MockFormatter {
    fn normalize_package_name(&self, name: &str) -> String {
        name.to_lowercase()
    }
    fn requirement_is_placeholder(&self, requirement: &str) -> bool {
        requirement.contains("{{") || requirement.contains("\\(")
    }
    fn requirement_status_for<D: Dependency>(
        &self,
        _dep: &D,
        requirement: &str,
        latest: &str,
    ) -> RequirementStatus {
        if self.always_outdated {
            return RequirementStatus::Outdated;
        }
        let up_to_date = match requirement.strip_prefix('^') {
            Some(base) => caret(base, latest),
            None => requirement == latest,
        };
        if up_to_date {
            RequirementStatus::UpToDate
        } else {
            RequirementStatus::Outdated
        }
    }
    fn requirement_already_resolves_to(&self, requirement: &str, target: &str) -> bool {
        (self.admits)(requirement, target)
    }
    fn format_version_replacing_for<D: Dependency>(
        &self,
        _dep: &D,
        version: &str,
        current: &str,
    ) -> String {
        (self.rewrite)(version, current)
    }
    fn osv_version_to_native(&self, version: &str) -> String {
        version.to_string()
    }
    fn is_safe_version_string(&self, version: &str) -> bool {
        !version.is_empty()
            && version.chars().all(|c| c.is_ascii_alphanumeric() || ".-+_".contains(c))
    }
    fn resolve_in_use_version<D: Dependency>(
        &self,
        dep: &D,
        normalized_name: &str,
        versions: &VersionData<'_>,
        _ecosystem: EcosystemId,
    ) -> Option<String> {
        let requirement = dep.version_requirement()?;
        let (_, candidates) =
            versions.resolved_version_candidates.iter().find(|(n, _)| n == normalized_name)?;
        candidates.iter().find(|c| c.starts_with(requirement)).cloned()
    }
}

fn dep(name: &str, req: &str, version_range: Range) -> MockDep {
    MockDep {
        name: name.to_string(),
        version_req: req.to_string(),
        version_range,
        name_range: Range::default(),
        literal: None,
    }
}

fn parse_result(deps: Vec<MockDep>) -> MockParseResult {
    MockParseResult { deps }
}

fn latest(pairs: &[(&str, &str)]) -> VersionTable {
    let mut table = VersionTable::new();
    for (name, version) in pairs {
        table.insert(name, version);
    }
    table
}

#[test]
fn test_collect_update_edits_renamed_occurrence_resolves_its_own_pin() {
    let content = "serde = \"0.9\"\nserde = \"1.0\"\n";
    let pr = parse_result(vec![
        dep("serde", "0.9", range(0, 9, 0, 12)),
        dep("serde", "1.0", range(1, 9, 1, 12)),
    ]);
    let cached = latest(&[("serde", "1.2.0")]);
    let resolved = VersionTable::new();
    let candidates = [(
        "serde".to_string(),
        vec!["0.9.15".to_string(), "1.0.219".to_string()],
    )];
    let versions = VersionData {
        cached: &cached,
        resolved: &resolved,
        resolved_version_candidates: &candidates,
        ecosystem: Some(EcosystemId::Cargo),
    };

    let mut planned = collect_update_edits(&pr, content, &versions, &MOCK_FORMATTER);
    planned.sort_by_key(|p| p.edit.range.start.line);

    assert_eq!(planned.len(), 2);
    assert_eq!(planned[0].current, "0.9.15");
    assert_eq!(planned[1].current, "1.0.219");
}

fn version_data<'a>(cached: &'a VersionTable, resolved: &'a VersionTable) -> VersionData<'a> {
    VersionData { cached, resolved, resolved_version_candidates: &[], ecosystem: None }
}

#[test]
fn test_collect_update_candidates_non_literal_span_is_unplannable() {
    let content = "<version>${slf4j.version}</version>";
    let pr = parse_result(vec![dep("slf4j-api", "2.0.16", range(0, 9, 0, 25))]);
    let cached = latest(&[("slf4j-api", "2.1.0")]);
    let resolved = VersionTable::new();
    let versions = version_data(&cached, &resolved);

    let candidates = collect_update_candidates(&pr, content, &versions, &MOCK_FORMATTER);
    assert_eq!(candidates.len(), 1);
    assert!(matches!(
        candidates[0],
        UpdateCandidate::Unplannable { reason: UnplannableReason::NonLiteralSpan, .. }
    ));
    assert!(
        collect_update_edits(&pr, content, &versions, &MOCK_FORMATTER).is_empty(),
        "an unplannable candidate must never reach collect_update_edits's writable subset"
    );
}

#[test]
fn test_collect_update_candidates_no_op_rewrite_is_unplannable() {
    let content = "pkg = \"1.0.0\"\n";
    let pr = parse_result(vec![dep("pkg", "1.0.0", range(0, 7, 0, 12))]);
    let cached = latest(&[("pkg", "1.2.0")]);
    let resolved = VersionTable::new();
    let versions = version_data(&cached, &resolved);

    let candidates = collect_update_candidates(&pr, content, &versions, &NO_OP);
    assert_eq!(candidates.len(), 1);
    assert!(matches!(
        candidates[0],
        UpdateCandidate::Unplannable { reason: UnplannableReason::NoOpRewrite, .. }
    ));
}

#[test]
fn test_collect_update_candidates_unsafe_latest_is_unplannable() {
    let content = "serde = \"1.0.0\"\n";
    let pr = parse_result(vec![dep("serde", "1.0.0", range(0, 8, 0, 15))]);
    let cached = latest(&[("serde", "1.2.0\", \"evil\": \"true")]);
    let resolved = VersionTable::new();
    let versions = version_data(&cached, &resolved);

    let candidates = collect_update_candidates(&pr, content, &versions, &MOCK_FORMATTER);
    assert_eq!(candidates.len(), 1);
    assert!(matches!(
        candidates[0],
        UpdateCandidate::Unplannable { reason: UnplannableReason::UnsafeLatestVersion, .. }
    ));
}

#[test]
fn test_collect_update_candidates_up_to_date_dependency_produces_no_candidate() {
    let content = "serde = \"^1.0\"\n";
    let pr = parse_result(vec![dep("serde", "^1.0", range(0, 8, 0, 14))]);
    let cached = latest(&[("serde", "1.2.0")]);
    let resolved = VersionTable::new();
    let versions = version_data(&cached, &resolved);

    let candidates = collect_update_candidates(&pr, content, &versions, &MOCK_FORMATTER);
    assert!(candidates.is_empty());
}

#[test]
fn planned_update_carries_everything_and_applies() {
    let content = "Serde = 1.0.0\n";
    let pr = parse_result(vec![dep("Serde", "1.0.0", range(0, 8, 0, 13))]);
    let cached = latest(&[("serde", "1.1.0"), ("serde", "1.2.0")]);
    let resolved = VersionTable::new();
    let planned = collect_update_edits(&pr, content, &version_data(&cached, &resolved), &FLOOR);
    assert_eq!(planned.len(), 1);
    assert_eq!(planned[0].name, "Serde");
    assert_eq!(planned[0].normalized_name, "serde");
    assert_eq!(planned[0].current, "");
    assert_eq!(planned[0].target.as_str(), "1.2.0");
    assert_eq!(classify_update(&planned[0].current, planned[0].target.as_str()), UpdateKind::Unknown);
    let edits: Vec<ManifestEdit> = planned.into_iter().map(|p| p.edit).collect();
    assert_eq!(apply_edits(content, &edits), "Serde = 1.2.0\n");
}

#[test]
fn placeholders_and_unknown_packages_are_no_candidates() {
    let content = "a = {{ version }}\n";
    let mut templated = dep("a", ">=1, <2", range(0, 4, 0, 17));
    templated.literal = Some("{{ version }}".to_string());
    let pr = parse_result(vec![
        dep("a", "{{ version }}", range(0, 4, 0, 17)),
        templated,
        dep("unknown", "1.0", range(0, 4, 0, 17)),
        dep("a", "", range(0, 4, 0, 4)),
    ]);
    let cached = latest(&[("a", "9.9.9")]);
    let resolved = VersionTable::new();
    let versions = version_data(&cached, &resolved);
    assert!(collect_update_candidates(&pr, content, &versions, &FLOOR).is_empty());
}

#[test]
fn replacement_text_never_rewrites_a_placeholder() {
    let d = dep("example", "^1.0", range(0, 0, 0, 4));
    assert!(!requirement_is_placeholder_for(&FLOOR, &d, "^1.2"));
    assert!(requirement_is_placeholder_for(&FLOOR, &d, "{{ version }}"));
    assert_eq!(replacement_text(&FLOOR, &d, "1.2.3", "^1.0"), Some("1.2.3".to_string()));
    assert_eq!(replacement_text(&FLOOR, &d, "1.2.3", "{{ version }}"), None);
}

// --- vulnerability fixes ---

fn advisories(ids: &[&str]) -> Capped<Advisory> {
    let items: Vec<Advisory> = ids.iter().map(|id| Advisory { id: id.to_string() }).collect();
    let total = items.len();
    Capped::new(items, total)
}

fn verified_dv(fixed_version: &str) -> DependencyVulnerabilities {
    DependencyVulnerabilities::new(advisories(&["RUSTSEC-2024-0001"]))
        .with_recommended_fix(FixRecommendation {
            version: fixed_version.to_string(),
            advisory_ids: vec!["RUSTSEC-2024-0001".to_string()],
        })
        .with_fix_target_status(UpgradeStatus::CandidateClean {
            version: fixed_version.to_string(),
        })
}

#[test]
fn test_requirement_already_admitting_fix_returns_none() {
    let d = dep("serde", "1", range(0, 8, 0, 9));
    let dv = verified_dv("1.0.2");

    let planned = plan_vulnerability_fix(&d, d.version_range, "1", &dv, &STRICT_SEMVER);
    assert_eq!(planned, Err(VulnFixSkip::RequirementAlreadyResolves));
}

#[test]
fn test_requirement_not_admitting_fix_returns_planned_edit() {
    let d = dep("serde", "0.9", range(0, 8, 0, 11));
    let dv = verified_dv("1.0.2");

    let planned = plan_vulnerability_fix(&d, d.version_range, "0.9", &dv, &STRICT_SEMVER)
        .expect("0.9 does not admit 1.0.2, so an edit must be planned");
    assert_eq!(planned.edit.new_text, "1.0.2");
    assert_eq!(planned.target.as_str(), "1.0.2");
}

#[test]
fn test_no_compile_requirement_override_falls_back_to_no_op_guard() {
    let d = dep("serde", "1", range(0, 8, 0, 9));
    let dv = verified_dv("1.0.2");

    let planned = plan_vulnerability_fix(&d, d.version_range, "1", &dv, &MOCK_FORMATTER).unwrap();
    assert_eq!(planned.edit.new_text, "\"1.0.2\"");
}

#[test]
fn test_unsafe_fix_version_is_rejected() {
    let d = dep("serde", "0.9", range(0, 8, 0, 11));
    let dv = verified_dv("1.2.0 evil");

    let planned = plan_vulnerability_fix(&d, d.version_range, "0.9", &dv, &MOCK_FORMATTER);
    assert_eq!(planned, Err(VulnFixSkip::UnsafeVersion));
}

#[test]
fn test_true_no_op_rewrite_is_rejected() {
    let d = dep("serde", "1", range(0, 8, 0, 9));
    let dv = verified_dv("1.0.2");

    let planned =
        plan_vulnerability_fix(&d, d.version_range, "\"1.0.2\"", &dv, &MOCK_FORMATTER);
    assert_eq!(planned, Err(VulnFixSkip::NoOpRewrite));
}

#[test]
fn test_plan_vulnerability_fix_uses_advisory_beyond_display_cap() {
    // More advisories than a list shows; the one whose fix is recommended is near the end.
    let ids: Vec<String> = (0..13).map(|i| format!("ADV-{i}")).collect();
    let items: Vec<Advisory> = ids.iter().map(|id| Advisory { id: id.clone() }).collect();
    let total = items.len();
    let dv = DependencyVulnerabilities::new(Capped::new(items, total))
        .with_recommended_fix(FixRecommendation {
            version: "2.0.0".to_string(),
            advisory_ids: vec!["ADV-11".to_string()],
        })
        .with_fix_target_status(UpgradeStatus::CandidateClean { version: "2.0.0".to_string() });

    let d = dep("serde", "0.9", range(0, 8, 0, 11));
    let planned = plan_vulnerability_fix(&d, d.version_range, "0.9", &dv, &MOCK_FORMATTER)
        .expect("fix beyond the display cap must still be recommended and verified");
    assert_eq!(planned.edit.new_text, "\"2.0.0\"");
    assert_eq!(planned.target.as_str(), "2.0.0");
}

#[test]
fn test_floor_shaped_requirement_still_returns_planned_edit() {
    let d = dep("nuget.pkg", "1.0.0", range(0, 8, 0, 15));
    let dv = verified_dv("1.0.2");

    // A membership test alone would wrongly take the floor for a requirement that follows.
    assert!(caret("1.0.0", "1.0.2"));

    let planned = plan_vulnerability_fix(&d, d.version_range, "1.0.0", &dv, &FLOOR)
        .expect("a floor-shaped requirement must not suppress the fix");
    assert_eq!(planned.edit.new_text, "1.0.2");
}

#[test]
fn test_plan_vulnerability_fix_ignores_requirement_is_unresolved() {
    let action_dep = dep(
        "some-action",
        "aaaaaaaaaaaaaaaaaaaaaaaaaaaaaaaaaaaaaaaa",
        range(0, 9, 0, 49),
    );
    let dv = verified_dv("1.2.0");

    let planned = plan_vulnerability_fix(
        &action_dep,
        action_dep.version_range,
        "aaaaaaaaaaaaaaaaaaaaaaaaaaaaaaaaaaaaaaaa",
        &dv,
        &SHA_PIN,
    );

    assert_eq!(
        planned.expect("fix must still be planned").edit.new_text,
        "1.2.0 # v-resolved"
    );
}

#[test]
fn placeholder_takes_precedence_over_every_other_skip() {
    let d = dep("serde", "1", range(0, 8, 0, 9));
    assert_eq!(
        plan_verified_fix(&d, d.version_range, "{{ v }}", "1.0.2", &STRICT_SEMVER),
        Err(VulnFixSkip::UnresolvedPlaceholder)
    );
}

#[test]
fn unchecked_and_mismatched_targets_are_unverified() {
    let unchecked = DependencyVulnerabilities::new(advisories(&["A"]));
    assert!(matches!(
        resolve_recommended_fix(&unchecked, &FLOOR),
        Err(VulnFixSkip::NoRecommendedFix)
    ));
    let unchecked = unchecked.with_recommended_fix(FixRecommendation {
        version: "1.2.0".to_string(),
        advisory_ids: vec!["A".to_string()],
    });
    assert!(matches!(
        resolve_verified_fix(&unchecked, &FLOOR),
        Err(VulnFixSkip::UnverifiedTarget)
    ));
    let other = unchecked
        .with_fix_target_status(UpgradeStatus::CandidateClean { version: "1.3.0".to_string() });
    assert!(matches!(
        resolve_verified_fix(&other, &FLOOR),
        Err(VulnFixSkip::UnverifiedTarget)
    ));
    let verified = verified_dv("1.2.0");
    let (fix, version) = resolve_verified_fix(&verified, &FLOOR).ok().unwrap();
    assert_eq!(version, "1.2.0");
    assert_eq!(fix.advisory_ids, vec!["RUSTSEC-2024-0001".to_string()]);
}

fn still_vulnerable(found: &[&str], total: usize) -> DependencyVulnerabilities {
    DependencyVulnerabilities::new(advisories(&["CLAIMED", "KNOWN"]))
        .with_recommended_fix(FixRecommendation {
            version: "1.2.0".to_string(),
            advisory_ids: vec!["CLAIMED".to_string()],
        })
        .with_fix_target_status(UpgradeStatus::CandidateVulnerable {
            version: "1.2.0".to_string(),
            advisory_ids: Capped::new(found.iter().map(|s| s.to_string()).collect(), total),
        })
}

#[test]
fn vulnerable_target_is_verified_only_for_known_unclaimed_advisories() {
    assert!(resolve_verified_fix(&still_vulnerable(&["KNOWN"], 1), &FLOOR).is_ok());
    assert!(resolve_verified_fix(&still_vulnerable(&["CLAIMED"], 1), &FLOOR).is_err());
    assert!(resolve_verified_fix(&still_vulnerable(&["NEW"], 1), &FLOOR).is_err());
    assert!(resolve_verified_fix(&still_vulnerable(&["KNOWN", "CLAIMED"], 2), &FLOOR).is_err());
    // A list that was cut short may hide a claimed advisory.
    assert!(resolve_verified_fix(&still_vulnerable(&["KNOWN"], 2), &FLOOR).is_err());
}

// --- edges of splicing and classification ---

fn edit(r: Range, text: &str) -> ManifestEdit {
    ManifestEdit { range: r, new_text: text.to_string() }
}

#[test]
fn edits_are_applied_whatever_their_order() {
    let content = "ab\ncd\nef";
    let edits = vec![
        edit(range(2, 0, 2, 1), "E"),
        edit(range(0, 0, 0, 2), ""),
        edit(range(1, 1, 1, 1), "+"),
    ];
    assert_eq!(apply_edits(content, &edits), "\nc+d\nEf");
}

#[test]
fn positions_beyond_the_text_stand_for_its_end() {
    assert_eq!(apply_edits("ab\ncd", &[edit(range(0, 1, 0, 99), "X")]), "aX\ncd");
    assert_eq!(apply_edits("ab\ncd", &[edit(range(9, 0, 9, 5), "!")]), "ab\ncd!");
}

#[test]
fn columns_are_utf16_code_units() {
    let content = "x = \"\u{1D11E}1\"";
    assert_eq!(apply_edits(content, &[edit(range(0, 7, 0, 8), "2")]), "x = \"\u{1D11E}2\"");
}

#[test]
fn dedup_sorts_and_is_idempotent() {
    let edits = vec![
        edit(range(1, 0, 1, 5), "c"),
        edit(range(0, 3, 0, 9), "b"),
        edit(range(0, 0, 0, 4), "a"),
    ];
    let once = dedup_overlapping_edits(edits, "test");
    let texts: Vec<&str> = once.iter().map(|e| e.new_text.as_str()).collect();
    assert_eq!(texts, vec!["a", "c"]);
    assert_eq!(once[0].start(), (0, 0));
    assert_eq!(once[1].end(), (1, 5));
    let twice = dedup_overlapping_edits(once.clone(), "test");
    assert_eq!(once, twice);
    assert_eq!(apply_edits("aaaaxxxxx\nccccc", &twice), "axxxxx\nc");
}

#[test]
fn adjacent_edits_do_not_overlap() {
    let edits = vec![edit(range(0, 0, 0, 2), "1"), edit(range(0, 2, 0, 4), "2")];
    assert_eq!(dedup_overlapping_edits(edits, "test").len(), 2);
}

#[test]
fn classification_is_symmetric() {
    for (a, b) in [("1.2.3", "2.0.0"), ("1.2.3", "1.3.0"), ("x", "1.0.0"), ("1", "1.0.5")] {
        assert_eq!(classify_update(a, b), classify_update(b, a));
    }
}

#[test]
fn leading_numbers_are_read_up_to_the_suffix() {
    assert_eq!(parse_leading_dotted_numeric("V1.2"), Some((1, 2, 0)));
    assert_eq!(parse_leading_dotted_numeric("1.2.3.4-rc+x"), Some((1, 2, 3)));
    assert_eq!(parse_leading_dotted_numeric(""), None);
    assert_eq!(parse_leading_dotted_numeric("-1"), None);
    assert_eq!(parse_leading_dotted_numeric("1..2"), None);
    assert_eq!(parse_leading_dotted_numeric("vv1"), None);
    assert_eq!(parse_leading_dotted_numeric("18446744073709551615"), Some((u64::MAX, 0, 0)));
    assert_eq!(parse_leading_dotted_numeric("18446744073709551616"), None);
    // Timestamps and hashes of the wrong length make no pseudo-version.
    assert_eq!(parse_leading_dotted_numeric("1.2.3-2021010100000-abcdef123456"), Some((1, 2, 3)));
    assert_eq!(parse_leading_dotted_numeric("1.2.3-20210101000000-abcdef12345g"), Some((1, 2, 3)));
    assert_eq!(parse_leading_dotted_numeric("20210101000000-abcdef123456"), Some((20210101000000, 0, 0)));
}

#[test]
fn edit_order_does_not_matter() {
    let a = || edit(range(0, 0, 0, 1), "X");
    let b = || edit(range(0, 2, 0, 3), "YY");
    let c = || edit(range(1, 0, 1, 0), "Z");
    let content = "abc\nd";
    for edits in [[a(), b(), c()], [a(), c(), b()], [c(), b(), a()], [b(), a(), c()]] {
        assert_eq!(apply_edits(content, &edits), "XbYY\nZd");
    }
}
