//! Planning of the edits that move a vulnerable dependency to a fixed version.

use crate::ecosystem::Dependency;
use crate::edit::plan::{
    literal_target, placeholder_for, replacement_text, requirement_is_placeholder_for,
    same_up_to_white_space, PlannedModel, PlannedUpdate,
};
use crate::edit::span::ManifestEdit;
use crate::formatter::{ConcreteVersion, EcosystemFormatter};
use crate::osv::{
    advisory_texts, contains_advisory, contains_string, DependencyVulnerabilities,
    FixRecommendation, UpgradeStatus,
};
use crate::position::Range;
use crate::text::{same_text, string_texts, white_space, without_white_space};
use vstd::prelude::*;

verus! {

/// Why no [`PlannedUpdate`] could be produced for a vulnerable dependency.
#[derive(Debug, Clone, Copy, PartialEq, Eq, Structural)]
pub enum VulnFixSkip {
    /// No advisory has a claimable fix.
    NoRecommendedFix,
    /// The recommended fix's version, in the ecosystem's own spelling, may not be written into
    /// a manifest.
    UnsafeVersion,
    /// The fix target was never live-checked, or the live check found it still vulnerable to
    /// an advisory that the recommendation claims to resolve.
    UnverifiedTarget,
    /// The declared requirement, left unedited, already resolves forward to the fix target.
    RequirementAlreadyResolves,
    /// The rewrite would be textually identical to the declared literal.
    NoOpRewrite,
    /// The requirement is an unexpanded placeholder: there is no version text to replace.
    UnresolvedPlaceholder,
}

/// The fix that can be acted on: recommended, and safe to write in the ecosystem's spelling.
pub open spec fn recommended_target<F: EcosystemFormatter>(
    dv: &DependencyVulnerabilities,
    formatter: &F,
) -> Result<Seq<char>, VulnFixSkip> {
    match dv.recommended {
        None => Err(VulnFixSkip::NoRecommendedFix),
        Some(fix) => if formatter.spec_safe(formatter.spec_native(fix.version@)) {
            Ok(formatter.spec_native(fix.version@))
        } else {
            Err(VulnFixSkip::UnsafeVersion)
        },
    }
}

/// Whether the live check clears `target` as a fix for what `fix` claims: it found the target
/// clean, or it found, completely, only advisories that are known for this dependency and that
/// the fix does not claim to resolve.
pub open spec fn target_verified(
    dv: &DependencyVulnerabilities,
    fix: &FixRecommendation,
    target: Seq<char>,
) -> bool {
    match dv.fix_target_status {
        UpgradeStatus::NotChecked => false,
        UpgradeStatus::CandidateClean { version } => version@ == target,
        UpgradeStatus::CandidateVulnerable { version, advisory_ids } => {
            &&& version@ == target
            &&& advisory_ids.complete()
            &&& forall|i: int|
                0 <= i < advisory_ids.kept().len() ==> {
                    let id = (#[trigger] advisory_ids.kept()[i])@;
                    &&& advisory_texts(dv.advisories.kept()).contains(id)
                    &&& !string_texts(fix.advisory_ids@).contains(id)
                }
        },
    }
}

/// The fix that is recommended, safe to write and verified.
pub open spec fn verified_target<F: EcosystemFormatter>(
    dv: &DependencyVulnerabilities,
    formatter: &F,
) -> Result<Seq<char>, VulnFixSkip> {
    match recommended_target(dv, formatter) {
        Err(skip) => Err(skip),
        Ok(target) => if target_verified(dv, &dv.recommended->0, target) {
            Ok(target)
        } else {
            Err(VulnFixSkip::UnverifiedTarget)
        },
    }
}

/// The edit that moves `dep` to `target`, or why there is none.
pub open spec fn fix_edit<D: Dependency, F: EcosystemFormatter>(
    dep: &D,
    version_range: Range,
    current: Seq<char>,
    target: Seq<char>,
    formatter: &F,
) -> Result<PlannedModel, VulnFixSkip> {
    let new_text = formatter.spec_replacing(dep, target, current);
    if placeholder_for(formatter, dep, current) {
        Err(VulnFixSkip::UnresolvedPlaceholder)
    } else if dep.spec_version_requirement() matches Some(req) && formatter.spec_already_resolves(
        req,
        target,
    ) {
        Err(VulnFixSkip::RequirementAlreadyResolves)
    } else if without_white_space(literal_target(dep, current)) == without_white_space(new_text) {
        Err(VulnFixSkip::NoOpRewrite)
    } else {
        Ok(
            PlannedModel {
                name: dep.spec_name(),
                normalized_name: formatter.spec_normalized(dep.spec_name()),
                name_range: dep.spec_name_range(),
                current,
                target,
                range: version_range,
                new_text,
            },
        )
    }
}

/// Whether a fix result is the expected one.
pub open spec fn is_fix(
    r: Result<(&FixRecommendation, String), VulnFixSkip>,
    dv: &DependencyVulnerabilities,
    expected: Result<Seq<char>, VulnFixSkip>,
) -> bool {
    match r {
        Ok((fix, version)) => expected == Ok::<Seq<char>, VulnFixSkip>(version@)
            && dv.recommended == Some(*fix),
        Err(skip) => expected == Err::<Seq<char>, VulnFixSkip>(skip),
    }
}

/// Whether a planning result is the expected one.
pub open spec fn is_plan(
    r: Result<PlannedUpdate, VulnFixSkip>,
    expected: Result<PlannedModel, VulnFixSkip>,
) -> bool {
    match r {
        Ok(planned) => expected == Ok::<PlannedModel, VulnFixSkip>(planned@),
        Err(skip) => expected == Err::<PlannedModel, VulnFixSkip>(skip),
    }
}

/// Resolves and validates the recommended fix for `dv`: is there a fix, and is its version safe
/// to act on.
///
/// # Errors
///
/// [`VulnFixSkip::NoRecommendedFix`] without a recommendation, [`VulnFixSkip::UnsafeVersion`]
/// when the version is not safe to write.
pub fn resolve_recommended_fix<'a, F: EcosystemFormatter>(
    dv: &'a DependencyVulnerabilities,
    formatter: &F,
) -> (r: Result<(&'a FixRecommendation, String), VulnFixSkip>)
    ensures
        is_fix(r, dv, recommended_target(dv, formatter)),
{
    let fix = match dv.recommended_fix() {
        Some(fix) => fix,
        None => {
            return Err(VulnFixSkip::NoRecommendedFix);
        },
    };
    let version_native = formatter.osv_version_to_native(fix.version.as_str());
    if !formatter.is_safe_version_string(version_native.as_str()) {
        return Err(VulnFixSkip::UnsafeVersion);
    }
    Ok((fix, version_native))
}

/// Whether the live check clears `fix`'s target version as an honest, presentable fix.
///
/// A clean target always clears it. A target that is still affected by advisories clears it
/// only when each of them is known for this dependency and none of them is claimed by the fix.
#[must_use]
pub(crate) fn fix_target_is_verified(
    dv: &DependencyVulnerabilities,
    fix: &FixRecommendation,
    version_native: &str,
) -> (r: bool)
    ensures
        r == target_verified(dv, fix, version_native@),
{
    match &dv.fix_target_status {
        UpgradeStatus::NotChecked => false,
        UpgradeStatus::CandidateClean { version } => same_text(version.as_str(), version_native),
        UpgradeStatus::CandidateVulnerable { version, advisory_ids } => {
            if !same_text(version.as_str(), version_native) || !advisory_ids.is_complete() {
                return false;
            }
            let ids = advisory_ids.items();
            let mut i: usize = 0;
            while i < ids.len()
                invariant
                    i <= ids@.len(),
                    ids@ == advisory_ids.kept(),
                    dv.fix_target_status == (UpgradeStatus::CandidateVulnerable {
                        version: *version,
                        advisory_ids: *advisory_ids,
                    }),
                    forall|k: int|
                        0 <= k < i ==> {
                            let id = (#[trigger] advisory_ids.kept()[k])@;
                            &&& advisory_texts(dv.advisories.kept()).contains(id)
                            &&& !string_texts(fix.advisory_ids@).contains(id)
                        },
                decreases ids@.len() - i,
            {
                let id = ids[i].as_str();
                if !contains_advisory(dv.advisories.items(), id) || contains_string(
                    fix.advisory_ids.as_slice(),
                    id,
                ) {
                    proof {
                        assert(advisory_ids.kept()[i as int]@ == id@);
                    }
                    return false;
                }
                i += 1;
            }
            true
        },
    }
}

/// [`resolve_recommended_fix`], and the target version's own live-check status.
///
/// # Errors
///
/// Anything [`resolve_recommended_fix`] returns, and [`VulnFixSkip::UnverifiedTarget`] when the
/// live check does not clear the fix target.
pub fn resolve_verified_fix<'a, F: EcosystemFormatter>(
    dv: &'a DependencyVulnerabilities,
    formatter: &F,
) -> (r: Result<(&'a FixRecommendation, String), VulnFixSkip>)
    ensures
        is_fix(r, dv, verified_target(dv, formatter)),
{
    match resolve_recommended_fix(dv, formatter) {
        Err(skip) => Err(skip),
        Ok((fix, version_native)) => {
            if !fix_target_is_verified(dv, fix, version_native.as_str()) {
                return Err(VulnFixSkip::UnverifiedTarget);
            }
            Ok((fix, version_native))
        },
    }
}

/// Security-mode planner: plans the edit that moves one vulnerable dependency to its
/// recommended fix rather than to the latest version.
///
/// Nothing is planned when the declared requirement already resolves forward to the fix: a
/// lock-file refresh gets there without a manifest edit.
///
/// # Errors
///
/// [`VulnFixSkip`], for each cause that makes an edit impossible or unnecessary.
pub fn plan_vulnerability_fix<D: Dependency, F: EcosystemFormatter>(
    dep: &D,
    version_range: Range,
    current: &str,
    dv: &DependencyVulnerabilities,
    formatter: &F,
) -> (r: Result<PlannedUpdate, VulnFixSkip>)
    ensures
        is_plan(
            r,
            match verified_target(dv, formatter) {
                Ok(target) => fix_edit(dep, version_range, current@, target, formatter),
                Err(skip) => Err(skip),
            },
        ),
        r matches Ok(p) ==> dv.recommended matches Some(fix) && {
            let target = formatter.spec_native(fix.version@);
            &&& p.edit.range == version_range
            &&& p.edit.new_text@ == formatter.spec_replacing(dep, target, current@)
            &&& p.target.text() == target
            &&& p.current@ == current@
            &&& p.name@ == dep.spec_name()
            &&& p.normalized_name@ == formatter.spec_normalized(dep.spec_name())
            &&& p.name_range == dep.spec_name_range()
        },
{
    match resolve_verified_fix(dv, formatter) {
        Err(skip) => Err(skip),
        Ok((_fix, version_native)) => plan_verified_fix(
            dep,
            version_range,
            current,
            version_native.as_str(),
            formatter,
        ),
    }
}

/// The remainder of [`plan_vulnerability_fix`], for a fix target already resolved and verified.
///
/// # Errors
///
/// [`VulnFixSkip::UnresolvedPlaceholder`], [`VulnFixSkip::RequirementAlreadyResolves`] or
/// [`VulnFixSkip::NoOpRewrite`], in this order of precedence.
pub fn plan_verified_fix<D: Dependency, F: EcosystemFormatter>(
    dep: &D,
    version_range: Range,
    current: &str,
    version_native: &str,
    formatter: &F,
) -> (r: Result<PlannedUpdate, VulnFixSkip>)
    ensures
        is_plan(r, fix_edit(dep, version_range, current@, version_native@, formatter)),
        r matches Ok(p) ==> {
            &&& p.edit.range == version_range
            &&& p.edit.new_text@ == formatter.spec_replacing(dep, version_native@, current@)
            &&& p.target.text() == version_native@
            &&& p.current@ == current@
            &&& p.name@ == dep.spec_name()
            &&& p.normalized_name@ == formatter.spec_normalized(dep.spec_name())
            &&& p.name_range == dep.spec_name_range()
        },
{
    if requirement_is_placeholder_for(formatter, dep, current) {
        return Err(VulnFixSkip::UnresolvedPlaceholder);
    }
    let already_resolves = match dep.version_requirement() {
        Some(version_req) => formatter.requirement_already_resolves_to(version_req, version_native),
        None => false,
    };
    if already_resolves {
        return Err(VulnFixSkip::RequirementAlreadyResolves);
    }
    let new_text = match replacement_text(formatter, dep, version_native, current) {
        Some(text) => text,
        None => {
            return Err(VulnFixSkip::UnresolvedPlaceholder);
        },
    };
    let literal = match dep.version_literal() {
        Some(literal) => literal,
        None => current,
    };
    if same_up_to_white_space(literal, new_text.as_str()) {
        return Err(VulnFixSkip::NoOpRewrite);
    }
    let normalized_name = formatter.normalize_package_name(dep.name());
    Ok(
        PlannedUpdate {
            name: dep.name().to_owned(),
            normalized_name,
            name_range: dep.name_range(),
            current: current.to_owned(),
            target: ConcreteVersion::new(version_native),
            edit: ManifestEdit { range: version_range, new_text },
        },
    )
}

// ---------------------------------------------------------------------------
// Laws
// ---------------------------------------------------------------------------

/// A fix that is still affected by an advisory it claims to resolve is never verified.
pub proof fn law_claimed_advisory_blocks_the_fix(
    dv: &DependencyVulnerabilities,
    fix: &FixRecommendation,
    target: Seq<char>,
    claimed: int,
)
    requires
        dv.fix_target_status matches UpgradeStatus::CandidateVulnerable { advisory_ids, .. } && 0
            <= claimed < advisory_ids.kept().len() && string_texts(fix.advisory_ids@).contains(
            advisory_ids.kept()[claimed]@,
        ),
    ensures
        !target_verified(dv, fix, target),
{
}

/// A fix is verified only for the very version that was checked.
pub proof fn law_verified_target_is_the_checked_version(
    dv: &DependencyVulnerabilities,
    fix: &FixRecommendation,
    target: Seq<char>,
)
    requires
        target_verified(dv, fix, target),
    ensures
        match dv.fix_target_status {
            UpgradeStatus::NotChecked => false,
            UpgradeStatus::CandidateClean { version } => version@ == target,
            UpgradeStatus::CandidateVulnerable { version, .. } => version@ == target,
        },
{
}

/// A planned fix writes a safe, verified version, is never for a placeholder, and is planned
/// only where the requirement does not already resolve to the fix.
pub proof fn law_planned_fix_is_needed_and_verified<D: Dependency, F: EcosystemFormatter>(
    dep: &D,
    version_range: Range,
    current: Seq<char>,
    dv: &DependencyVulnerabilities,
    formatter: &F,
)
    requires
        verified_target(dv, formatter) matches Ok(target) && fix_edit(
            dep,
            version_range,
            current,
            target,
            formatter,
        ) is Ok,
    ensures
        ({
            let target = verified_target(dv, formatter)->Ok_0;
            &&& formatter.spec_safe(target)
            &&& target_verified(dv, &dv.recommended->0, target)
            &&& !placeholder_for(formatter, dep, current)
            &&& dep.spec_version_requirement() matches Some(req)
                ==> !formatter.spec_already_resolves(req, target)
        }),
{
}

/// A planned fix rewrites the version span it was asked about, with the formatter's own text for
/// the target, and names the dependency it is for.
pub proof fn law_planned_fix_rewrites_the_version_span<D: Dependency, F: EcosystemFormatter>(
    dep: &D,
    version_range: Range,
    current: Seq<char>,
    target: Seq<char>,
    formatter: &F,
)
    ensures
        fix_edit(dep, version_range, current, target, formatter) matches Ok(p) ==> {
            &&& p.range == version_range
            &&& p.new_text == formatter.spec_replacing(dep, target, current)
            &&& p.target == target
            &&& p.current == current
            &&& p.name == dep.spec_name()
            &&& p.normalized_name == formatter.spec_normalized(dep.spec_name())
            &&& p.name_range == dep.spec_name_range()
        },
{
}

/// Where a verified fix is planned and where it is not: a placeholder in the requirement text or
/// in the dependency's literal comes first, then a requirement that resolves to the target by
/// itself, then a rewrite that would leave the literal as it is.
pub proof fn law_fix_is_planned_unless_in_vain<D: Dependency, F: EcosystemFormatter>(
    dep: &D,
    version_range: Range,
    current: Seq<char>,
    target: Seq<char>,
    formatter: &F,
)
    ensures
        ({
            let r = fix_edit(dep, version_range, current, target, formatter);
            let placeholder = formatter.spec_placeholder(current) || (
            dep.spec_version_literal() matches Some(l) && formatter.spec_placeholder(l));
            let resolves = dep.spec_version_requirement() matches Some(req)
                && formatter.spec_already_resolves(req, target);
            let literal = match dep.spec_version_literal() {
                Some(l) => l,
                None => current,
            };
            let shown = |c: char| !white_space(c);
            let same = literal.filter(shown) == formatter.spec_replacing(
                dep,
                target,
                current,
            ).filter(shown);
            &&& (r == Err::<PlannedModel, VulnFixSkip>(VulnFixSkip::UnresolvedPlaceholder))
                <==> placeholder
            &&& (r == Err::<PlannedModel, VulnFixSkip>(VulnFixSkip::RequirementAlreadyResolves))
                <==> !placeholder && resolves
            &&& (r == Err::<PlannedModel, VulnFixSkip>(VulnFixSkip::NoOpRewrite)) <==> !placeholder
                && !resolves && same
            &&& (r is Ok) <==> !placeholder && !resolves && !same
        }),
{
    let shown = |c: char| !white_space(c);
    let literal = literal_target(dep, current);
    let text = formatter.spec_replacing(dep, target, current);
    assert(literal.filter(shown) == without_white_space(literal));
    assert(text.filter(shown) == without_white_space(text));
}

/// The fix acted on is the recommended one in the ecosystem's spelling: there is none without a
/// recommendation, and an unsafe spelling is refused whatever the live check said.
pub proof fn law_only_a_safe_recommendation_is_acted_on<F: EcosystemFormatter>(
    dv: &DependencyVulnerabilities,
    formatter: &F,
)
    ensures
        match dv.recommended {
            None => {
                &&& recommended_target(dv, formatter) == Err::<Seq<char>, VulnFixSkip>(
                    VulnFixSkip::NoRecommendedFix,
                )
                &&& verified_target(dv, formatter) == Err::<Seq<char>, VulnFixSkip>(
                    VulnFixSkip::NoRecommendedFix,
                )
            },
            Some(fix) => {
                let target = formatter.spec_native(fix.version@);
                &&& formatter.spec_safe(target) ==> recommended_target(dv, formatter) == Ok::<
                    Seq<char>,
                    VulnFixSkip,
                >(target)
                &&& !formatter.spec_safe(target) ==> recommended_target(dv, formatter) == Err::<
                    Seq<char>,
                    VulnFixSkip,
                >(VulnFixSkip::UnsafeVersion) && verified_target(dv, formatter) == Err::<
                    Seq<char>,
                    VulnFixSkip,
                >(VulnFixSkip::UnsafeVersion)
            },
        },
{
}

/// Whether the advisory `id` is known for the dependency and not among those that `fix` claims to
/// resolve.
pub open spec fn known_and_unclaimed(
    dv: &DependencyVulnerabilities,
    fix: FixRecommendation,
    id: Seq<char>,
) -> bool {
    &&& exists|k: int|
        0 <= k < dv.advisories.kept().len() && (#[trigger] dv.advisories.kept()[k]).id@ == id
    &&& forall|k: int|
        0 <= k < fix.advisory_ids@.len() ==> (#[trigger] fix.advisory_ids@[k])@ != id
}

/// A safe recommendation is acted on exactly where the live check was made of that very version
/// and found it clean, or found, in a list that is complete, only advisories that are known for
/// the dependency and that the recommendation does not claim to resolve.
pub proof fn law_only_a_checked_recommendation_is_verified<F: EcosystemFormatter>(
    dv: &DependencyVulnerabilities,
    formatter: &F,
)
    requires
        dv.recommended matches Some(fix) && formatter.spec_safe(formatter.spec_native(fix.version@)),
    ensures
        ({
            let fix = dv.recommended->0;
            let target = formatter.spec_native(fix.version@);
            let cleared = match dv.fix_target_status {
                UpgradeStatus::NotChecked => false,
                UpgradeStatus::CandidateClean { version } => version@ == target,
                UpgradeStatus::CandidateVulnerable { version, advisory_ids } => {
                    &&& version@ == target
                    &&& advisory_ids.whole() <= advisory_ids.kept().len()
                    &&& forall|i: int|
                        0 <= i < advisory_ids.kept().len() ==> known_and_unclaimed(
                            dv,
                            fix,
                            (#[trigger] advisory_ids.kept()[i])@,
                        )
                },
            };
            &&& cleared ==> verified_target(dv, formatter) == Ok::<Seq<char>, VulnFixSkip>(target)
            &&& !cleared ==> verified_target(dv, formatter) == Err::<Seq<char>, VulnFixSkip>(
                VulnFixSkip::UnverifiedTarget,
            )
        }),
{
    let fix = dv.recommended->0;
    let known = advisory_texts(dv.advisories.kept());
    let claimed = string_texts(fix.advisory_ids@);
    assert forall|k: int| 0 <= k < dv.advisories.kept().len() implies known.contains(
        (#[trigger] dv.advisories.kept()[k]).id@,
    ) by {
        assert(known[k] == dv.advisories.kept()[k].id@);
    }
    assert forall|id: Seq<char>| #[trigger] known.contains(id) implies exists|k: int|
        0 <= k < dv.advisories.kept().len() && (#[trigger] dv.advisories.kept()[k]).id@ == id by {
        let k = choose|k: int| 0 <= k < known.len() && known[k] == id;
        assert(dv.advisories.kept()[k].id@ == id);
    }
    assert forall|k: int| 0 <= k < fix.advisory_ids@.len() implies claimed.contains(
        (#[trigger] fix.advisory_ids@[k])@,
    ) by {
        assert(claimed[k] == fix.advisory_ids@[k]@);
    }
    assert forall|id: Seq<char>| #[trigger] claimed.contains(id) implies exists|k: int|
        0 <= k < fix.advisory_ids@.len() && (#[trigger] fix.advisory_ids@[k])@ == id by {
        let k = choose|k: int| 0 <= k < claimed.len() && claimed[k] == id;
        assert(fix.advisory_ids@[k]@ == id);
    }
    if let UpgradeStatus::CandidateVulnerable { version, advisory_ids } = dv.fix_target_status {
        let found = advisory_ids.kept();
        let target = formatter.spec_native(fix.version@);
        if target_verified(dv, &fix, target) {
            assert forall|i: int| 0 <= i < found.len() implies known_and_unclaimed(
                dv,
                fix,
                (#[trigger] found[i])@,
            ) by {
                let id = found[i]@;
                assert(known.contains(id));
                assert(!claimed.contains(id));
                assert forall|k: int| 0 <= k < fix.advisory_ids@.len() implies (
                #[trigger] fix.advisory_ids@[k])@ != id by {
                    assert(claimed.contains(fix.advisory_ids@[k]@));
                }
            }
        }
    }
}

/// A result is the expected one only where it succeeds or fails as expected, with the very update,
/// target or cause.
pub proof fn law_results_are_the_expected_ones(
    plan: Result<PlannedUpdate, VulnFixSkip>,
    expected_plan: Result<PlannedModel, VulnFixSkip>,
    fix: Result<(&FixRecommendation, String), VulnFixSkip>,
    dv: &DependencyVulnerabilities,
    expected_fix: Result<Seq<char>, VulnFixSkip>,
)
    ensures
        is_plan(plan, expected_plan) <==> match plan {
            Ok(p) => expected_plan is Ok && expected_plan->Ok_0 == p@,
            Err(skip) => expected_plan is Err && expected_plan->Err_0 == skip,
        },
        is_fix(fix, dv, expected_fix) <==> match fix {
            Ok(f) => expected_fix is Ok && expected_fix->Ok_0 == f.1@ && dv.recommended == Some(
                *f.0,
            ),
            Err(skip) => expected_fix is Err && expected_fix->Err_0 == skip,
        },
{
}

} // verus!
