//! What the signals are made of.

use crate::freshness::{rfc3339_seconds, PublishTime};
use crate::text::{same_text, string_texts};
use vstd::prelude::*;

verus! {

/// One provenance or attestation entry of a version.
#[derive(Debug, Clone, Copy, PartialEq, Eq, Structural)]
pub struct ProvenanceEntry {
    /// Whether deps.dev verified the entry.
    pub verified: bool,
}

/// One project that a version is related to.
#[derive(Debug, Clone, PartialEq, Eq)]
pub struct RelatedProject {
    /// The project's key, such as `github.com/expressjs/express`.
    pub project_key: String,
    /// How the project is related, such as `SOURCE_REPO`.
    pub relation_type: String,
    /// What the relation rests on, such as `SLSA_ATTESTATION`.
    pub relation_provenance: String,
}

/// What deps.dev says of one version.
pub struct DepsDevVersionInfo {
    /// SLSA provenances.
    pub slsa_provenances: Vec<ProvenanceEntry>,
    /// Other attestations.
    pub attestations: Vec<ProvenanceEntry>,
    /// Related projects.
    pub related_projects: Vec<RelatedProject>,
    /// SPDX license identifiers.
    pub licenses: Vec<String>,
}

/// The provenance verdict for one resolved version.
#[non_exhaustive]
#[derive(Debug, Clone, Copy, PartialEq, Eq, Structural)]
pub enum ProvenanceStatus {
    /// At least one provenance or attestation is verified.
    Verified,
    /// There are entries, but none is verified.
    Unverified,
    /// There are no entries.
    Absent,
}

/// The OpenSSF Scorecard summary for a package's linked source repository. `S` is the type of a
/// score.
#[non_exhaustive]
#[derive(Debug, Clone, Copy, PartialEq)]
pub struct ScorecardSummary<S> {
    /// The overall score, between 0 and 10.
    pub overall_score: S,
    /// Whether the package only reports the repository as its own, without an attestation.
    pub self_reported: bool,
}

/// The signal assembled from the version call and the project call.
#[non_exhaustive]
#[derive(Debug, Clone, PartialEq)]
pub struct SupplyChainTrustSignal<S> {
    /// The linked source repository's Scorecard, when one could be resolved and fetched.
    pub scorecard: Option<ScorecardSummary<S>>,
    /// This version's provenance, when the version call itself succeeded.
    pub provenance: Option<ProvenanceStatus>,
    /// SPDX license identifiers; empty when unknown.
    pub licenses: Vec<String>,
}

impl<S> Default for SupplyChainTrustSignal<S> {
    fn default() -> (r: Self)
        ensures
            r.scorecard is None,
            r.provenance is None,
            r.licenses@.len() == 0,
    {
        SupplyChainTrustSignal { scorecard: None, provenance: None, licenses: Vec::new() }
    }
}

/// The risk level of a finding.
#[non_exhaustive]
#[derive(Debug, Clone, Copy, PartialEq, Eq, Structural)]
pub enum GossipRiskLevel {
    /// `RISK_CRITICAL`.
    Critical,
    /// `RISK_HIGH`.
    High,
    /// `RISK_MEDIUM`.
    Medium,
    /// `RISK_LOW`.
    Low,
    /// `RISK_INFORMATIONAL`, or an unrecognized or missing value.
    Informational,
}

impl Default for GossipRiskLevel {
    fn default() -> (r: Self)
        ensures
            r == GossipRiskLevel::Informational,
    {
        GossipRiskLevel::Informational
    }
}

/// The risk level that a value on the wire stands for.
pub open spec fn risk_of(wire: Seq<char>) -> GossipRiskLevel {
    if wire == "RISK_CRITICAL"@ {
        GossipRiskLevel::Critical
    } else if wire == "RISK_HIGH"@ {
        GossipRiskLevel::High
    } else if wire == "RISK_MEDIUM"@ {
        GossipRiskLevel::Medium
    } else if wire == "RISK_LOW"@ {
        GossipRiskLevel::Low
    } else {
        GossipRiskLevel::Informational
    }
}

impl GossipRiskLevel {
    /// The risk level that a value on the wire stands for: an unrecognized one is informational,
    /// and never discards the finding it belongs to.
    pub fn from_wire(wire: &str) -> (r: Self)
        ensures
            r == risk_of(wire@),
    {
        if same_text(wire, "RISK_CRITICAL") {
            GossipRiskLevel::Critical
        } else if same_text(wire, "RISK_HIGH") {
            GossipRiskLevel::High
        } else if same_text(wire, "RISK_MEDIUM") {
            GossipRiskLevel::Medium
        } else if same_text(wire, "RISK_LOW") {
            GossipRiskLevel::Low
        } else {
            GossipRiskLevel::Informational
        }
    }
}

/// The type of a finding, as far as it is surfaced.
#[derive(Debug, Clone, Copy, PartialEq, Eq, Structural)]
pub enum GossipFindingType {
    /// The version is in a cooldown window.
    Cooldown,
    /// The package is little used, and may be taken for another.
    LowUsage,
    /// Anything else: never surfaced.
    Other,
}

/// The finding type that a value on the wire stands for.
pub open spec fn finding_type_of(wire: Seq<char>) -> GossipFindingType {
    if wire == "COOLDOWN"@ {
        GossipFindingType::Cooldown
    } else if wire == "LOW_USAGE"@ {
        GossipFindingType::LowUsage
    } else {
        GossipFindingType::Other
    }
}

impl GossipFindingType {
    /// The finding type that a value on the wire stands for.
    pub fn from_wire(wire: &str) -> (r: Self)
        ensures
            r == finding_type_of(wire@),
    {
        if same_text(wire, "COOLDOWN") {
            GossipFindingType::Cooldown
        } else if same_text(wire, "LOW_USAGE") {
            GossipFindingType::LowUsage
        } else {
            GossipFindingType::Other
        }
    }
}

/// One finding of a version, as it comes over the wire.
pub struct GossipFindingWire {
    /// The type.
    pub finding_type: GossipFindingType,
    /// The risk level.
    pub risk: GossipRiskLevel,
    /// The end of the cooldown, an RFC 3339 timestamp.
    pub cooldown_end: Option<String>,
    /// Packages with similar names and higher usage.
    pub alternative_packages: Option<Vec<String>>,
}

/// The findings of one version, as they come over the wire.
pub struct GossipVersionFindingsWire {
    /// The version.
    pub version: String,
    /// Its findings.
    pub findings: Vec<GossipFindingWire>,
    /// The end of the version's cooldown window, past or future, an RFC 3339 timestamp.
    pub cooldown_end: Option<String>,
}

/// A cooldown finding for one package version.
///
/// Whether it is active is asked at every reading, and never stored: an ended cooldown clears
/// itself.
#[non_exhaustive]
#[derive(Debug, Clone, Copy, PartialEq, Eq, Structural)]
pub struct GossipCooldown {
    /// The instant this version's cooldown window ends.
    pub end: PublishTime,
    /// The finding's reported risk level.
    pub risk: GossipRiskLevel,
}

impl GossipCooldown {
    /// The cooldown that ends at `end`.
    #[must_use]
    pub fn new(end: PublishTime, risk: GossipRiskLevel) -> (r: Self)
        ensures
            r.end == end,
            r.risk == risk,
    {
        GossipCooldown { end, risk }
    }

    /// Whether the cooldown is active at an instant.
    pub open spec fn active_at(self, now: int) -> bool {
        self.end.secs() > now
    }

    /// Whether this cooldown is still active as of `now`.
    #[must_use]
    pub fn is_active(&self, now: PublishTime) -> (r: bool)
        ensures
            r == self.active_at(now.secs() as int),
    {
        self.end.as_unix_secs() > now.as_unix_secs()
    }
}

/// A low-usage finding for one package version.
#[non_exhaustive]
#[derive(Debug, Clone, PartialEq)]
pub struct GossipLowUsage {
    /// The finding's reported risk level.
    pub risk: GossipRiskLevel,
    /// Packages with similar names that have higher usage; empty when none were reported.
    pub alternative_packages: Vec<String>,
}

/// The findings for one package version.
#[non_exhaustive]
#[derive(Debug, Clone, PartialEq)]
pub struct GossipFindings {
    /// The exact version that the findings were computed for.
    pub version: String,
    /// This version's cooldown window, past or active.
    pub cooldown: Option<GossipCooldown>,
    /// This version's low-usage finding.
    pub low_usage: Option<GossipLowUsage>,
}

/// The contents of a [`GossipFindings`].
pub struct FindingsModel {
    /// The version.
    pub version: Seq<char>,
    /// The cooldown: when it ends, in Unix seconds, and its risk.
    pub cooldown: Option<(i64, GossipRiskLevel)>,
    /// The low-usage finding: its risk and the alternatives.
    pub low_usage: Option<(GossipRiskLevel, Seq<Seq<char>>)>,
}

impl View for GossipFindings {
    type V = FindingsModel;

    open spec fn view(&self) -> FindingsModel {
        FindingsModel {
            version: self.version@,
            cooldown: match self.cooldown {
                Some(c) => Some((c.end.secs(), c.risk)),
                None => None,
            },
            low_usage: match self.low_usage {
                Some(low) => Some((low.risk, string_texts(low.alternative_packages@))),
                None => None,
            },
        }
    }
}

/// The same strings once more.
pub(crate) fn copy_strings(v: &Vec<String>) -> (r: Vec<String>)
    ensures
        string_texts(r@) == string_texts(v@),
{
    crate::index::copy_key(v)
}

impl GossipFindings {
    /// The same findings once more.
    pub fn duplicate(&self) -> (r: Self)
        ensures
            r@ == self@,
    {
        let low_usage = match &self.low_usage {
            Some(low) => Some(
                GossipLowUsage {
                    risk: low.risk,
                    alternative_packages: copy_strings(&low.alternative_packages),
                },
            ),
            None => None,
        };
        GossipFindings { version: self.version.clone(), cooldown: self.cooldown, low_usage }
    }
}

// ---------------------------------------------------------------------------
// Assembling findings
// ---------------------------------------------------------------------------

/// The end of a cooldown finding that can be read.
pub open spec fn cooldown_end_of(finding: GossipFindingWire) -> Option<i64> {
    match (finding.finding_type, finding.cooldown_end) {
        (GossipFindingType::Cooldown, Some(end)) => rfc3339_seconds(end@),
        _ => None,
    }
}

/// The first cooldown finding whose end can be read: when it ends, and its risk.
pub open spec fn first_cooldown(findings: Seq<GossipFindingWire>) -> Option<(i64, GossipRiskLevel)>
    decreases findings.len(),
{
    if findings.len() == 0 {
        None
    } else {
        match first_cooldown(findings.drop_last()) {
            Some(found) => Some(found),
            None => match cooldown_end_of(findings.last()) {
                Some(end) => Some((end, findings.last().risk)),
                None => None,
            },
        }
    }
}

/// The first low-usage finding: its risk and the alternatives.
pub open spec fn first_low_usage(findings: Seq<GossipFindingWire>) -> Option<
    (GossipRiskLevel, Seq<Seq<char>>),
>
    decreases findings.len(),
{
    if findings.len() == 0 {
        None
    } else {
        match first_low_usage(findings.drop_last()) {
            Some(found) => Some(found),
            None => if findings.last().finding_type == GossipFindingType::LowUsage {
                Some(
                    (
                        findings.last().risk,
                        match findings.last().alternative_packages {
                            Some(packages) => string_texts(packages@),
                            None => Seq::empty(),
                        },
                    ),
                )
            } else {
                None
            },
        }
    }
}

/// The cooldown of a version: the first finding that has one, else the version's own window,
/// which is informational.
pub open spec fn version_cooldown(entry: GossipVersionFindingsWire) -> Option<
    (i64, GossipRiskLevel),
> {
    match first_cooldown(entry.findings@) {
        Some(found) => Some(found),
        None => match entry.cooldown_end {
            Some(end) => match rfc3339_seconds(end@) {
                Some(secs) => Some((secs, GossipRiskLevel::Informational)),
                None => None,
            },
            None => None,
        },
    }
}

/// What the findings of a version amount to.
pub open spec fn findings_of(entry: GossipVersionFindingsWire) -> FindingsModel {
    FindingsModel {
        version: entry.version@,
        cooldown: version_cooldown(entry),
        low_usage: first_low_usage(entry.findings@),
    }
}

/// What the findings of a version amount to.
///
/// Only the first readable cooldown and the first low-usage finding are kept. Where no cooldown
/// finding is there, the version's own cooldown end stands in, so that "not in cooldown" can be
/// told apart from "nothing known".
pub fn gossip_findings_from_entry(entry: &GossipVersionFindingsWire) -> (r: GossipFindings)
    ensures
        r@ == findings_of(*entry),
{
    let mut cooldown: Option<GossipCooldown> = None;
    let mut low_usage: Option<GossipLowUsage> = None;
    let ghost all = entry.findings@;
    let mut i: usize = 0;
    proof {
        assert(all.take(0) =~= Seq::<GossipFindingWire>::empty());
    }
    while i < entry.findings.len()
        invariant
            i <= entry.findings@.len(),
            all == entry.findings@,
            match cooldown {
                Some(c) => first_cooldown(all.take(i as int)) == Some((c.end.secs(), c.risk)),
                None => first_cooldown(all.take(i as int)) is None,
            },
            match low_usage {
                Some(low) => first_low_usage(all.take(i as int)) == Some(
                    (low.risk, string_texts(low.alternative_packages@)),
                ),
                None => first_low_usage(all.take(i as int)) is None,
            },
        decreases entry.findings@.len() - i,
    {
        proof {
            assert(all.take(i + 1).drop_last() =~= all.take(i as int));
            assert(all.take(i + 1).last() == all[i as int]);
        }
        let finding = &entry.findings[i];
        match finding.finding_type {
            GossipFindingType::Cooldown => {
                if cooldown.is_none() {
                    if let Some(text) = &finding.cooldown_end {
                        if let Some(end) = PublishTime::parse_rfc3339(text.as_str()) {
                            cooldown = Some(GossipCooldown { end, risk: finding.risk });
                        }
                    }
                }
            },
            GossipFindingType::LowUsage => {
                if low_usage.is_none() {
                    let alternative_packages = match &finding.alternative_packages {
                        Some(packages) => copy_strings(packages),
                        None => {
                            let none: Vec<String> = Vec::new();
                            proof {
                                assert(string_texts(none@) =~= Seq::<Seq<char>>::empty());
                            }
                            none
                        },
                    };
                    low_usage = Some(GossipLowUsage { risk: finding.risk, alternative_packages });
                }
            },
            GossipFindingType::Other => {},
        }
        i += 1;
    }
    proof {
        assert(all.take(i as int) =~= all);
    }
    if cooldown.is_none() {
        if let Some(text) = &entry.cooldown_end {
            if let Some(end) = PublishTime::parse_rfc3339(text.as_str()) {
                cooldown = Some(GossipCooldown { end, risk: GossipRiskLevel::Informational });
            }
        }
    }
    GossipFindings { version: entry.version.clone(), cooldown, low_usage }
}

// ---------------------------------------------------------------------------
// Laws
// ---------------------------------------------------------------------------

/// A cooldown that has ended stays ended.
pub proof fn law_cooldowns_clear_themselves(cooldown: GossipCooldown, now: int, later: int)
    requires
        !cooldown.active_at(now),
        now <= later,
    ensures
        !cooldown.active_at(later),
{
}

/// Once a cooldown finding was taken, later findings of the version never replace it; the same
/// holds of the low-usage finding.
pub proof fn law_first_finding_of_a_type_counts(
    findings: Seq<GossipFindingWire>,
    later: GossipFindingWire,
)
    ensures
        first_cooldown(findings) is Some ==> first_cooldown(findings.push(later))
            == first_cooldown(findings),
        first_low_usage(findings) is Some ==> first_low_usage(findings.push(later))
            == first_low_usage(findings),
{
    assert(findings.push(later).drop_last() =~= findings);
}

/// Findings of any other type are never surfaced.
pub proof fn law_other_findings_are_never_surfaced(
    findings: Seq<GossipFindingWire>,
    other: GossipFindingWire,
)
    requires
        other.finding_type == GossipFindingType::Other,
    ensures
        first_cooldown(findings.push(other)) == first_cooldown(findings),
        first_low_usage(findings.push(other)) == first_low_usage(findings),
{
    assert(findings.push(other).drop_last() =~= findings);
}

/// A cooldown is active up to its end, and not at it.
pub proof fn law_cooldowns_last_to_their_end(cooldown: GossipCooldown, now: int)
    ensures
        cooldown.active_at(now) <==> now < cooldown.end.secs(),
{
}

/// The cooldown taken is that of the first cooldown finding whose end can be read, with that
/// finding's own risk; there is none exactly where no such finding is there.
pub proof fn law_first_readable_cooldown_counts(findings: Seq<GossipFindingWire>, i: int, end: i64)
    ensures
        ({
            let readable = |f: GossipFindingWire|
                f.finding_type == GossipFindingType::Cooldown && (f.cooldown_end matches Some(text)
                    && rfc3339_seconds(text@) is Some);
            &&& 0 <= i < findings.len() && readable(findings[i]) && rfc3339_seconds(
                (findings[i].cooldown_end->0)@,
            ) == Some(end) && (forall|j: int|
                0 <= j < i ==> !readable(#[trigger] findings[j])) ==> first_cooldown(findings)
                == Some((end, findings[i].risk))
            &&& first_cooldown(findings) is None <==> forall|j: int|
                0 <= j < findings.len() ==> !readable(#[trigger] findings[j])
        }),
    decreases findings.len(),
{
    let readable = |f: GossipFindingWire|
        f.finding_type == GossipFindingType::Cooldown && (f.cooldown_end matches Some(text)
            && rfc3339_seconds(text@) is Some);
    if findings.len() > 0 {
        let rest = findings.drop_last();
        law_first_readable_cooldown_counts(rest, i, end);
        assert forall|j: int| 0 <= j < rest.len() implies readable(#[trigger] rest[j]) == readable(
            findings[j],
        ) by {
        }
        assert(readable(findings.last()) == cooldown_end_of(findings.last()) is Some);
        if first_cooldown(rest) is None {
            assert forall|j: int| 0 <= j < rest.len() implies !readable(#[trigger] findings[j]) by {
                assert(!readable(rest[j]));
            }
        } else {
            let j = choose|j: int| 0 <= j < rest.len() && readable(#[trigger] rest[j]);
            assert(readable(findings[j]));
            if i == findings.len() - 1 && forall|j: int|
                0 <= j < i ==> !readable(#[trigger] findings[j]) {
                assert(!readable(findings[j]));
            }
        }
        if 0 <= i < rest.len() {
            assert(rest[i] == findings[i]);
        }
    }
}

/// The low-usage finding taken is the first one, with its own risk and alternatives; there is
/// none exactly where no such finding is there.
pub proof fn law_first_low_usage_counts(findings: Seq<GossipFindingWire>, i: int)
    ensures
        0 <= i < findings.len() && findings[i].finding_type == GossipFindingType::LowUsage && (
        forall|j: int|
            0 <= j < i ==> (#[trigger] findings[j]).finding_type != GossipFindingType::LowUsage)
            ==> first_low_usage(findings) == Some(
            (
                findings[i].risk,
                match findings[i].alternative_packages {
                    Some(packages) => string_texts(packages@),
                    None => Seq::empty(),
                },
            ),
        ),
        first_low_usage(findings) is None <==> forall|j: int|
            0 <= j < findings.len() ==> (#[trigger] findings[j]).finding_type
                != GossipFindingType::LowUsage,
    decreases findings.len(),
{
    if findings.len() > 0 {
        let rest = findings.drop_last();
        law_first_low_usage_counts(rest, i);
        if first_low_usage(rest) is None {
            assert forall|j: int| 0 <= j < rest.len() implies (
            #[trigger] findings[j]).finding_type != GossipFindingType::LowUsage by {
                assert(rest[j].finding_type != GossipFindingType::LowUsage);
            }
        } else {
            let j = choose|j: int|
                0 <= j < rest.len() && (#[trigger] rest[j]).finding_type
                    == GossipFindingType::LowUsage;
            assert(findings[j].finding_type == GossipFindingType::LowUsage);
        }
        if 0 <= i < rest.len() {
            assert(rest[i] == findings[i]);
        }
    }
}

/// The findings of a version are its own: under its version, with the cooldown of its findings or
/// else, as mere information, of the version itself, and with its low-usage finding.
pub proof fn law_findings_are_of_their_version(entry: GossipVersionFindingsWire)
    ensures
        ({
            let f = findings_of(entry);
            &&& f.version == entry.version@
            &&& f.low_usage == first_low_usage(entry.findings@)
            &&& first_cooldown(entry.findings@) is Some ==> f.cooldown == first_cooldown(
                entry.findings@,
            )
            &&& first_cooldown(entry.findings@) is None ==> match entry.cooldown_end {
                Some(end) => match rfc3339_seconds(end@) {
                    Some(secs) => f.cooldown == Some((secs, GossipRiskLevel::Informational)),
                    None => f.cooldown is None,
                },
                None => f.cooldown is None,
            }
        }),
{
}

/// The values on the wire are told apart, and one that is not known is mere information, or a
/// finding that is never surfaced.
pub proof fn law_wire_values(wire: Seq<char>)
    ensures
        risk_of(wire) is Critical <==> wire == "RISK_CRITICAL"@,
        risk_of(wire) is High <==> wire == "RISK_HIGH"@,
        risk_of(wire) is Medium <==> wire == "RISK_MEDIUM"@,
        risk_of(wire) is Low <==> wire == "RISK_LOW"@,
        finding_type_of(wire) is Cooldown <==> wire == "COOLDOWN"@,
        finding_type_of(wire) is LowUsage <==> wire == "LOW_USAGE"@,
{
    reveal_strlit("RISK_CRITICAL");
    reveal_strlit("RISK_HIGH");
    reveal_strlit("RISK_MEDIUM");
    reveal_strlit("RISK_LOW");
    reveal_strlit("COOLDOWN");
    reveal_strlit("LOW_USAGE");
    assert("RISK_CRITICAL"@[5] == 'C' && "RISK_HIGH"@[5] == 'H' && "RISK_MEDIUM"@[5] == 'M'
        && "RISK_LOW"@[5] == 'L');
    assert("COOLDOWN"@[0] == 'C' && "LOW_USAGE"@[0] == 'L');
}

/// The contents of findings are those of their fields.
pub proof fn law_contents_of_findings(f: GossipFindings)
    ensures
        f@.version == f.version@,
        f.cooldown is None <==> f@.cooldown is None,
        f.cooldown matches Some(c) ==> f@.cooldown == Some((c.end.secs(), c.risk)),
        f.low_usage is None <==> f@.low_usage is None,
        f.low_usage matches Some(low) ==> f@.low_usage == Some(
            (low.risk, string_texts(low.alternative_packages@)),
        ),
{
}

} // verus!
