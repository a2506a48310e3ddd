//! Planning of the edits that bring outdated dependencies up to date.

use crate::ecosystem::{Dependency, ParseResult};
use crate::edit::span::{
    ascending, dedup_overlapping_edits, disjoint_in_order, law_disjoint_edits_all_survive,
    law_surviving_edits_apply, law_surviving_edits_are_disjoint, lemma_first_of_sorted,
    lemma_sorted_contains, lemma_stable_sorted, lemma_stable_sorted_of_images, non_overlapping, ordered_splices, span_key, stable_sorted, start_key, surviving_edits,
    without_overlaps, EditSpan, ManifestEdit,
};
use crate::formatter::{
    option_string, option_text, ConcreteVersion, EcosystemFormatter, RequirementStatus, VersionData,
};
use crate::position::{position_offset, LineOffsetTable, Range};
use crate::text::{strip_whitespace, white_space, without_white_space};
use vstd::prelude::*;

verus! {

/// A manifest edit together with the dependency it is for.
#[derive(Debug, Clone, PartialEq, Eq)]
pub struct PlannedUpdate {
    /// The dependency's declared (raw) name.
    pub name: String,
    /// The normalized form of `name`.
    pub normalized_name: String,
    /// The dependency name's span in the manifest source.
    pub name_range: Range,
    /// The version this dependency is currently pinned to; empty when it could not be resolved.
    pub current: String,
    /// The version this edit would move the dependency to.
    pub target: ConcreteVersion,
    /// The edit itself.
    pub edit: ManifestEdit,
}

impl EditSpan for PlannedUpdate {
    open spec fn span_start(&self) -> (u32, u32) {
        self.edit.span_start()
    }

    open spec fn span_end(&self) -> (u32, u32) {
        self.edit.span_end()
    }

    fn start(&self) -> (r: (u32, u32)) {
        self.edit.start()
    }

    fn end(&self) -> (r: (u32, u32)) {
        self.edit.end()
    }
}

/// The contents of a [`PlannedUpdate`].
pub struct PlannedModel {
    /// The declared name.
    pub name: Seq<char>,
    /// The normalized name.
    pub normalized_name: Seq<char>,
    /// The name's span.
    pub name_range: Range,
    /// The version in use, empty when unresolved.
    pub current: Seq<char>,
    /// The version moved to.
    pub target: Seq<char>,
    /// The span rewritten.
    pub range: Range,
    /// The text written there.
    pub new_text: Seq<char>,
}

impl View for PlannedUpdate {
    type V = PlannedModel;

    open spec fn view(&self) -> PlannedModel {
        PlannedModel {
            name: self.name@,
            normalized_name: self.normalized_name@,
            name_range: self.name_range,
            current: self.current@,
            target: self.target.text(),
            range: self.edit.range,
            new_text: self.edit.new_text@,
        }
    }
}

/// Why an outdated dependency could not become a writable [`PlannedUpdate`].
#[derive(Debug, Clone, Copy, PartialEq, Eq, Structural)]
pub enum UnplannableReason {
    /// The registry's latest version may not be written into a manifest.
    UnsafeLatestVersion,
    /// The declared span does not hold the literal requirement text: a property reference, a
    /// variable, a version-catalog alias, or similar.
    NonLiteralSpan,
    /// The rewrite would be a no-op: no single unambiguous rewrite exists.
    NoOpRewrite,
}

/// One outdated dependency's planning outcome.
#[derive(Debug, Clone)]
pub enum UpdateCandidate {
    /// A safe edit was planned.
    Planned(PlannedUpdate),
    /// The dependency is outdated but no edit could be safely produced.
    Unplannable {
        /// The dependency's declared (raw) name.
        name: String,
        /// The normalized form of `name`.
        normalized_name: String,
        /// The dependency name's span in the manifest source.
        name_range: Range,
        /// Why no edit could be planned.
        reason: UnplannableReason,
    },
}

/// The contents of an [`UpdateCandidate`].
pub enum CandidateModel {
    /// A planned edit.
    Planned(PlannedModel),
    /// No edit, with the reason.
    Unplannable {
        /// The declared name.
        name: Seq<char>,
        /// The normalized name.
        normalized_name: Seq<char>,
        /// The name's span.
        name_range: Range,
        /// Why no edit was planned.
        reason: UnplannableReason,
    },
}

impl View for UpdateCandidate {
    type V = CandidateModel;

    open spec fn view(&self) -> CandidateModel {
        match self {
            UpdateCandidate::Planned(p) => CandidateModel::Planned(p@),
            UpdateCandidate::Unplannable { name, normalized_name, name_range, reason } =>
                CandidateModel::Unplannable {
                name: name@,
                normalized_name: normalized_name@,
                name_range: *name_range,
                reason: *reason,
            },
        }
    }
}

/// Whether `current`, or the dependency's own literal, is an unexpanded placeholder.
pub open spec fn placeholder_for<D: Dependency, F: EcosystemFormatter>(
    formatter: &F,
    dep: &D,
    current: Seq<char>,
) -> bool {
    ||| formatter.spec_placeholder(current)
    ||| dep.spec_version_literal() matches Some(literal) && formatter.spec_placeholder(literal)
}

/// Whether `current`, or the dependency's own literal version span, is an unexpanded
/// placeholder.
///
/// A requirement may be synthesized from the literal text (a comparator built round an
/// interpolation), so both are asked about.
#[must_use]
pub fn requirement_is_placeholder_for<D: Dependency, F: EcosystemFormatter>(
    formatter: &F,
    dep: &D,
    current: &str,
) -> (r: bool)
    ensures
        r == placeholder_for(formatter, dep, current@),
{
    if formatter.requirement_is_placeholder(current) {
        return true;
    }
    match dep.version_literal() {
        Some(literal) => formatter.requirement_is_placeholder(literal),
        None => false,
    }
}

/// The replacement text for `current`, unless there is a placeholder in its place.
pub open spec fn replacement<D: Dependency, F: EcosystemFormatter>(
    formatter: &F,
    dep: &D,
    version: Seq<char>,
    current: Seq<char>,
) -> Option<Seq<char>> {
    if placeholder_for(formatter, dep, current) {
        None
    } else {
        Some(formatter.spec_replacing(dep, version, current))
    }
}

/// The only path that rewrites a manifest's version-requirement text: `None` for an unexpanded
/// placeholder, else the formatter's rewrite. A formatter can therefore never destructively
/// rewrite a placeholder.
#[must_use]
pub fn replacement_text<D: Dependency, F: EcosystemFormatter>(
    formatter: &F,
    dep: &D,
    version: &str,
    current: &str,
) -> (r: Option<String>)
    ensures
        option_string(r) == replacement(formatter, dep, version@, current@),
{
    if requirement_is_placeholder_for(formatter, dep, current) {
        return None;
    }
    Some(formatter.format_version_replacing_for(dep, version, current))
}

/// The text of `content` in `range`; nothing where the range is inverted.
pub open spec fn range_text(content: Seq<char>, range: Range) -> Seq<char> {
    let start = position_offset(content, range.start) as int;
    let end = position_offset(content, range.end) as int;
    if start <= end {
        content.subrange(start, end)
    } else {
        Seq::empty()
    }
}

/// Whether the span's text is the literal, up to white space.
pub open spec fn literal_span(slice: Seq<char>, literal: Seq<char>) -> bool {
    without_white_space(slice) == without_white_space(literal)
}

/// The literal text that an edit of this dependency replaces.
pub open spec fn literal_target<D: Dependency>(dep: &D, current: Seq<char>) -> Seq<char> {
    match dep.spec_version_literal() {
        Some(literal) => literal,
        None => current,
    }
}

/// The latest version known for the dependency, under its normalized name or else its own.
pub open spec fn latest_for<D: Dependency, F: EcosystemFormatter>(
    dep: &D,
    versions: &VersionData,
    formatter: &F,
) -> Option<Seq<char>> {
    let normalized = formatter.spec_normalized(dep.spec_name());
    if versions.cached@.dom().contains(normalized) {
        Some(versions.cached@[normalized])
    } else if versions.cached@.dom().contains(dep.spec_name()) {
        Some(versions.cached@[dep.spec_name()])
    } else {
        None
    }
}

/// Whether the dependency is a confirmed update candidate: it has a version span, a known
/// latest version and a non-empty requirement that is no placeholder and is outdated.
pub open spec fn outdated<D: Dependency, F: EcosystemFormatter>(
    dep: &D,
    versions: &VersionData,
    formatter: &F,
) -> bool {
    &&& dep.spec_version_range() is Some
    &&& latest_for(dep, versions, formatter) is Some
    &&& dep.spec_version_requirement() matches Some(req) && {
        &&& req.len() > 0
        &&& !placeholder_for(formatter, dep, req)
        &&& formatter.spec_status(dep, req, latest_for(dep, versions, formatter)->0)
            == RequirementStatus::Outdated
    }
}

/// The version in use, per occurrence; empty where it cannot be told.
pub open spec fn current_version<D: Dependency, F: EcosystemFormatter>(
    dep: &D,
    versions: &VersionData,
    formatter: &F,
) -> Seq<char> {
    let normalized = formatter.spec_normalized(dep.spec_name());
    match versions.ecosystem {
        Some(ecosystem) => match formatter.spec_in_use(dep, normalized, versions, ecosystem) {
            Some(version) => version,
            None => Seq::empty(),
        },
        None => Seq::empty(),
    }
}

/// What planning makes of an outdated dependency.
pub open spec fn planned_outcome<D: Dependency, F: EcosystemFormatter>(
    dep: &D,
    content: Seq<char>,
    versions: &VersionData,
    formatter: &F,
) -> CandidateModel {
    let name = dep.spec_name();
    let normalized_name = formatter.spec_normalized(name);
    let name_range = dep.spec_name_range();
    let range = dep.spec_version_range()->0;
    let latest = latest_for(dep, versions, formatter)->0;
    let req = dep.spec_version_requirement()->0;
    let literal = literal_target(dep, req);
    let new_text = formatter.spec_replacing(dep, latest, req);
    if !formatter.spec_safe(latest) {
        CandidateModel::Unplannable {
            name,
            normalized_name,
            name_range,
            reason: UnplannableReason::UnsafeLatestVersion,
        }
    } else if !literal_span(range_text(content, range), literal) {
        CandidateModel::Unplannable {
            name,
            normalized_name,
            name_range,
            reason: UnplannableReason::NonLiteralSpan,
        }
    } else if without_white_space(new_text) == without_white_space(literal) {
        CandidateModel::Unplannable {
            name,
            normalized_name,
            name_range,
            reason: UnplannableReason::NoOpRewrite,
        }
    } else {
        CandidateModel::Planned(
            PlannedModel {
                name,
                normalized_name,
                name_range,
                current: current_version(dep, versions, formatter),
                target: latest,
                range,
                new_text,
            },
        )
    }
}

/// The planning outcomes of `deps`, in order, one for each outdated dependency.
pub open spec fn candidates<D: Dependency, F: EcosystemFormatter>(
    deps: Seq<D>,
    content: Seq<char>,
    versions: &VersionData,
    formatter: &F,
) -> Seq<CandidateModel>
    decreases deps.len(),
{
    if deps.len() == 0 {
        Seq::empty()
    } else {
        let before = candidates(deps.drop_last(), content, versions, formatter);
        let dep = &deps.last();
        if outdated(dep, versions, formatter) {
            before.push(planned_outcome(dep, content, versions, formatter))
        } else {
            before
        }
    }
}

/// The contents of a list of candidates.
pub open spec fn candidate_models(v: Seq<UpdateCandidate>) -> Seq<CandidateModel> {
    v.map_values(|c: UpdateCandidate| c@)
}

/// The contents of a list of planned updates.
pub open spec fn planned_models(v: Seq<PlannedUpdate>) -> Seq<PlannedModel> {
    v.map_values(|p: PlannedUpdate| p@)
}

/// The planned edits among the outcomes, in order.
pub open spec fn planned_only(v: Seq<CandidateModel>) -> Seq<PlannedModel>
    decreases v.len(),
{
    if v.len() == 0 {
        Seq::empty()
    } else {
        match v.last() {
            CandidateModel::Planned(p) => planned_only(v.drop_last()).push(p),
            CandidateModel::Unplannable { .. } => planned_only(v.drop_last()),
        }
    }
}

/// Where a planned edit starts, as a number that orders as the position does.
pub open spec fn planned_start() -> spec_fn(PlannedModel) -> int {
    |p: PlannedModel| span_key((p.range.start.line, p.range.start.character))
}

/// Drops every planned edit that starts before the one kept last ends.
pub open spec fn planned_without_overlaps(v: Seq<PlannedModel>) -> Seq<PlannedModel>
    decreases v.len(),
{
    if v.len() == 0 {
        v
    } else {
        let kept = planned_without_overlaps(v.drop_last());
        let end = kept.last().range.end;
        if kept.len() > 0 && planned_start()(v.last()) < span_key((end.line, end.character)) {
            kept
        } else {
            kept.push(v.last())
        }
    }
}

/// The planned edits that survive, in order of their start and without overlaps.
pub open spec fn surviving_planned(v: Seq<PlannedModel>) -> Seq<PlannedModel> {
    planned_without_overlaps(stable_sorted(v, planned_start()))
}

proof fn lemma_planned_without_overlaps(v: Seq<PlannedUpdate>)
    ensures
        planned_models(without_overlaps(v)) == planned_without_overlaps(planned_models(v)),
    decreases v.len(),
{
    let models = planned_models(v);
    if v.len() == 0 {
        assert(planned_models(without_overlaps(v)) =~= planned_without_overlaps(models));
    } else {
        let kept = without_overlaps(v.drop_last());
        assert(models.drop_last() =~= planned_models(v.drop_last()));
        assert(models.last() == v.last()@);
        lemma_planned_without_overlaps(v.drop_last());
        if kept.len() > 0 {
            assert(planned_models(kept).last() == kept.last()@);
        }
        assert(planned_models(kept.push(v.last())) =~= planned_models(kept).push(v.last()@));
    }
}

proof fn lemma_surviving_planned(v: Seq<PlannedUpdate>)
    ensures
        planned_models(surviving_edits(v)) == surviving_planned(planned_models(v)),
{
    let f = |p: PlannedUpdate| p@;
    lemma_stable_sorted_of_images(v, f, start_key::<PlannedUpdate>(), planned_start());
    lemma_planned_without_overlaps(stable_sorted(v, start_key::<PlannedUpdate>()));
}

fn slice_for_range<'a>(content: &'a str, table: &LineOffsetTable, range: Range) -> (r: &'a str)
    requires
        table.content() == content@,
    ensures
        r@ == range_text(content@, range),
{
    let start: usize = table.position_to_offset(range.start);
    let end: usize = table.position_to_offset(range.end);
    if start <= end {
        content.substring_char(start, end)
    } else {
        let r = content.substring_char(0, 0);
        proof {
            assert(r@ =~= Seq::<char>::empty());
        }
        r
    }
}

pub(crate) fn same_up_to_white_space(a: &str, b: &str) -> (r: bool)
    ensures
        r == (without_white_space(a@) == without_white_space(b@)),
{
    let x = strip_whitespace(a);
    let y = strip_whitespace(b);
    crate::text::same_chars(x.as_slice(), y.as_slice())
}

/// The latest version known for `dep`.
fn known_latest<'a, D: Dependency, F: EcosystemFormatter>(
    dep: &D,
    normalized_name: &str,
    versions: &VersionData<'a>,
    formatter: &F,
) -> (r: Option<&'a str>)
    requires
        normalized_name@ == formatter.spec_normalized(dep.spec_name()),
    ensures
        option_text(r) == latest_for(dep, versions, formatter),
{
    match versions.cached.get(normalized_name) {
        Some(latest) => Some(latest),
        None => versions.cached.get(dep.name()),
    }
}

/// The planning outcome of one dependency, `None` unless it is outdated.
fn plan_candidate<D: Dependency, F: EcosystemFormatter>(
    dep: &D,
    content: &str,
    table: &LineOffsetTable,
    versions: &VersionData,
    formatter: &F,
) -> (r: Option<UpdateCandidate>)
    requires
        table.content() == content@,
    ensures
        match r {
            Some(c) => outdated(dep, versions, formatter) && c@ == planned_outcome(
                dep,
                content@,
                versions,
                formatter,
            ),
            None => !outdated(dep, versions, formatter),
        },
{
    let version_range = match dep.version_range() {
        Some(range) => range,
        None => {
            return None;
        },
    };
    let normalized_name = formatter.normalize_package_name(dep.name());
    let latest = match known_latest(dep, normalized_name.as_str(), versions, formatter) {
        Some(latest) => latest,
        None => {
            return None;
        },
    };
    let version_req = match dep.version_requirement() {
        Some(req) => req,
        None => {
            return None;
        },
    };
    if version_req.is_empty() {
        return None;
    }
    if requirement_is_placeholder_for(formatter, dep, version_req) {
        return None;
    }
    if formatter.requirement_status_for(dep, version_req, latest) != RequirementStatus::Outdated {
        return None;
    }
    // From here on the dependency is outdated: whatever stands in the way of an edit is
    // reported, not passed over.

    let name = dep.name().to_owned();
    let name_range = dep.name_range();
    if !formatter.is_safe_version_string(latest) {
        return Some(
            UpdateCandidate::Unplannable {
                name,
                normalized_name,
                name_range,
                reason: UnplannableReason::UnsafeLatestVersion,
            },
        );
    }
    let slice = slice_for_range(content, table, version_range);
    let literal = match dep.version_literal() {
        Some(literal) => literal,
        None => version_req,
    };
    if !same_up_to_white_space(slice, literal) {
        return Some(
            UpdateCandidate::Unplannable {
                name,
                normalized_name,
                name_range,
                reason: UnplannableReason::NonLiteralSpan,
            },
        );
    }
    let new_text = match replacement_text(formatter, dep, latest, version_req) {
        Some(text) => text,
        None => {
            return None;
        },
    };
    if same_up_to_white_space(new_text.as_str(), literal) {
        return Some(
            UpdateCandidate::Unplannable {
                name,
                normalized_name,
                name_range,
                reason: UnplannableReason::NoOpRewrite,
            },
        );
    }
    let current = match versions.ecosystem {
        Some(ecosystem) => match formatter.resolve_in_use_version(
            dep,
            normalized_name.as_str(),
            versions,
            ecosystem,
        ) {
            Some(version) => version,
            None => String::new(),
        },
        None => String::new(),
    };
    Some(
        UpdateCandidate::Planned(
            PlannedUpdate {
                name,
                normalized_name,
                name_range,
                current,
                target: ConcreteVersion::new(latest),
                edit: ManifestEdit { range: version_range, new_text },
            },
        ),
    )
}

/// Every outdated dependency, classified into [`UpdateCandidate::Planned`] or
/// [`UpdateCandidate::Unplannable`].
///
/// A dependency that is not outdated at all (no version span, unknown to the registry, no or an
/// empty requirement, an unexpanded placeholder, or genuinely up to date) produces no entry.
#[must_use]
pub fn collect_update_candidates<P: ParseResult, F: EcosystemFormatter>(
    parse_result: &P,
    content: &str,
    versions: &VersionData,
    formatter: &F,
) -> (r: Vec<UpdateCandidate>)
    ensures
        candidate_models(r@) == candidates(
            parse_result.spec_dependencies(),
            content@,
            versions,
            formatter,
        ),
{
    let deps = parse_result.dependencies();
    let table = LineOffsetTable::new(content);
    let mut out: Vec<UpdateCandidate> = Vec::new();
    let mut i: usize = 0;
    proof {
        assert(deps@.take(0) =~= Seq::<P::Dep>::empty());
        assert(candidate_models(out@) =~= Seq::<CandidateModel>::empty());
    }
    while i < deps.len()
        invariant
            i <= deps@.len(),
            table.content() == content@,
            candidate_models(out@) == candidates(
                deps@.take(i as int),
                content@,
                versions,
                formatter,
            ),
        decreases deps@.len() - i,
    {
        proof {
            assert(deps@.take(i + 1).drop_last() =~= deps@.take(i as int));
            assert(deps@.take(i + 1).last() == deps@[i as int]);
        }
        let ghost before = out@;
        match plan_candidate(&deps[i], content, &table, versions, formatter) {
            Some(candidate) => {
                out.push(candidate);
                proof {
                    assert(candidate_models(out@) =~= candidate_models(before).push(candidate@));
                }
            },
            None => {},
        }
        i += 1;
    }
    proof {
        assert(deps@.take(i as int) =~= deps@);
    }
    out
}

/// Default-mode planner: every outdated dependency that can be rewritten, as a
/// [`PlannedUpdate`], in order of position and without overlaps.
#[must_use]
pub fn collect_update_edits<P: ParseResult, F: EcosystemFormatter>(
    parse_result: &P,
    content: &str,
    versions: &VersionData,
    formatter: &F,
) -> (r: Vec<PlannedUpdate>)
    ensures
        planned_models(r@) == surviving_planned(
            planned_only(
                candidates(parse_result.spec_dependencies(), content@, versions, formatter),
            ),
        ),
        exists|planned: Seq<PlannedUpdate>| r@ == #[trigger] surviving_edits(planned),
        forall|k: int|
            0 <= k < r@.len() ==> exists|i: int|
                0 <= i < parse_result.spec_dependencies().len() && update_is_for(
                    #[trigger] r@[k],
                    #[trigger] parse_result.spec_dependencies()[i],
                    formatter,
                ),
{
    let found = collect_update_candidates(parse_result, content, versions, formatter);
    let ghost all = candidate_models(found@);
    let mut planned: Vec<PlannedUpdate> = Vec::new();
    proof {
        assert(all.take(0) =~= Seq::<CandidateModel>::empty());
        assert(planned_models(planned@) =~= Seq::<PlannedModel>::empty());
    }
    for candidate in it: found
        invariant
            it.seq() == found@,
            all == candidate_models(found@),
            planned_models(planned@) == planned_only(all.take(it.index())),
    {
        let ghost before = planned@;
        proof {
            let n = it.index();
            assert(all.take(n + 1).drop_last() =~= all.take(n));
            assert(all.take(n + 1).last() == candidate@);
        }
        match candidate {
            UpdateCandidate::Planned(p) => {
                planned.push(p);
                proof {
                    assert(planned_models(planned@) =~= planned_models(before).push(p@));
                }
            },
            UpdateCandidate::Unplannable { .. } => {},
        }
    }
    proof {
        assert(all.take(all.len() as int) =~= all);
    }
    let ghost expected = planned@;
    let r = dedup_overlapping_edits(planned, "collect_update_edits");
    proof {
        lemma_surviving_planned(expected);
        assert(r@ == surviving_edits(expected));
        let deps = parse_result.spec_dependencies();
        assert forall|k: int| 0 <= k < r@.len() implies exists|i: int|
            0 <= i < deps.len() && update_is_for(
                #[trigger] r@[k],
                #[trigger] deps[i],
                formatter,
            ) by {
            law_unhindered_dependencies_are_updated(deps, content@, versions, formatter);
            let made = planned_models(r@);
            assert(made[k] == r@[k]@);
            let planned = |d: P::Dep, p: PlannedModel|
                outdated(&d, versions, formatter) && planned_outcome(
                    &d,
                    content@,
                    versions,
                    formatter,
                ) == CandidateModel::Planned(p);
            let i = choose|i: int|
                0 <= i < deps.len() && planned(#[trigger] deps[i], made[k]);
            assert(planned(deps[i], made[k]));
            assert(update_is_for(r@[k], deps[i], formatter));
        }
    }
    r
}

/// Whether the update rewrites the version span of `dep`, with the formatter's own text for its
/// target, under the dependency's names.
pub open spec fn update_is_for<D: Dependency, F: EcosystemFormatter>(
    update: PlannedUpdate,
    dep: D,
    formatter: &F,
) -> bool {
    &&& dep.spec_version_range() == Some(update.edit.range)
    &&& dep.spec_version_requirement() matches Some(req) && update.edit.new_text@
        == formatter.spec_replacing(&dep, update.target.text(), req)
    &&& update.name@ == dep.spec_name()
    &&& update.normalized_name@ == formatter.spec_normalized(dep.spec_name())
    &&& update.name_range == dep.spec_name_range()
}

// ---------------------------------------------------------------------------
// Laws
// ---------------------------------------------------------------------------

/// A planned update is never for a placeholder, writes only a version that is safe to write,
/// and always changes the literal it replaces.
pub proof fn law_planned_updates_are_safe<D: Dependency, F: EcosystemFormatter>(
    dep: &D,
    content: Seq<char>,
    versions: &VersionData,
    formatter: &F,
)
    requires
        outdated(dep, versions, formatter),
        planned_outcome(dep, content, versions, formatter) is Planned,
    ensures
        ({
            let p = planned_outcome(dep, content, versions, formatter)->Planned_0;
            let req = dep.spec_version_requirement()->0;
            &&& !placeholder_for(formatter, dep, req)
            &&& formatter.spec_safe(p.target)
            &&& literal_span(range_text(content, p.range), literal_target(dep, req))
            &&& without_white_space(p.new_text) != without_white_space(literal_target(dep, req))
        }),
{
}

/// Every outdated dependency is reported once, in manifest order, and nothing else is.
pub proof fn law_one_candidate_per_outdated_dependency<D: Dependency, F: EcosystemFormatter>(
    deps: Seq<D>,
    content: Seq<char>,
    versions: &VersionData,
    formatter: &F,
)
    ensures
        candidates(deps, content, versions, formatter) == deps.filter(
            |d: D| outdated(&d, versions, formatter),
        ).map_values(|d: D| planned_outcome(&d, content, versions, formatter)),
    decreases deps.len(),
{
    reveal(Seq::filter);
    let keep = |d: D| outdated(&d, versions, formatter);
    let plan = |d: D| planned_outcome(&d, content, versions, formatter);
    if deps.len() == 0 {
        assert(candidates(deps, content, versions, formatter) =~= deps.filter(keep).map_values(
            plan,
        ));
    } else {
        let rest = deps.drop_last();
        law_one_candidate_per_outdated_dependency(rest, content, versions, formatter);
        if keep(deps.last()) {
            assert(deps.filter(keep).map_values(plan) =~= rest.filter(keep).map_values(plan).push(
                plan(deps.last()),
            ));
        }
    }
}

/// The edits of planned updates, in order.
pub open spec fn edits_of(planned: Seq<PlannedUpdate>) -> Seq<ManifestEdit> {
    planned.map_values(|p: PlannedUpdate| p.edit)
}

/// The edits of the planned updates that survive overlap removal can be applied together, to any
/// text.
pub proof fn law_surviving_updates_apply(content: Seq<char>, planned: Seq<PlannedUpdate>)
    ensures
        non_overlapping(ordered_splices(content, edits_of(surviving_edits(planned)))),
{
    law_surviving_edits_are_disjoint(planned);
    let kept = surviving_edits(planned);
    let edits = edits_of(kept);
    assert(disjoint_in_order(edits)) by {
        assert forall|i: int, j: int| 0 <= i <= j < edits.len() implies start_key::<ManifestEdit>()(
            #[trigger] edits[i],
        ) <= start_key::<ManifestEdit>()(#[trigger] edits[j]) by {
            assert(start_key::<PlannedUpdate>()(kept[i]) <= start_key::<PlannedUpdate>()(kept[j]));
        }
        assert forall|i: int, j: int| 0 <= i < j < edits.len() implies span_key(
            (#[trigger] edits[i]).span_end(),
        ) <= span_key((#[trigger] edits[j]).span_start()) by {
            assert(span_key(kept[i].span_end()) <= span_key(kept[j].span_start()));
        }
    }
    law_disjoint_edits_all_survive(edits);
    law_surviving_edits_apply(content, edits);
}

/// A planned update is for its dependency: it rewrites the dependency's own version span, to the
/// latest version known, with the formatter's own text, and carries the dependency's names.
pub proof fn law_planned_update_rewrites_its_dependency<D: Dependency, F: EcosystemFormatter>(
    dep: &D,
    content: Seq<char>,
    versions: &VersionData,
    formatter: &F,
)
    requires
        outdated(dep, versions, formatter),
    ensures
        planned_outcome(dep, content, versions, formatter) matches CandidateModel::Planned(p) ==> {
            &&& dep.spec_version_range() == Some(p.range)
            &&& latest_for(dep, versions, formatter) == Some(p.target)
            &&& dep.spec_version_requirement() matches Some(req) && p.new_text
                == formatter.spec_replacing(dep, p.target, req)
            &&& p.name == dep.spec_name()
            &&& p.normalized_name == formatter.spec_normalized(dep.spec_name())
            &&& p.name_range == dep.spec_name_range()
            &&& versions.ecosystem is None ==> p.current.len() == 0
            &&& versions.ecosystem matches Some(e) ==> match formatter.spec_in_use(
                dep,
                p.normalized_name,
                versions,
                e,
            ) {
                Some(version) => p.current == version,
                None => p.current.len() == 0,
            }
        },
        planned_outcome(dep, content, versions, formatter) matches CandidateModel::Unplannable {
            name,
            normalized_name,
            name_range,
            ..
        } ==> {
            &&& name == dep.spec_name()
            &&& normalized_name == formatter.spec_normalized(dep.spec_name())
            &&& name_range == dep.spec_name_range()
        },
{
}

/// What stands in the way of an edit, in order of precedence: a latest version that is not safe
/// to write, a span that does not hold the literal, a rewrite that would leave the literal as it
/// is. Where nothing does, an edit is planned.
pub proof fn law_outdated_dependency_is_planned_unless_hindered<
    D: Dependency,
    F: EcosystemFormatter,
>(dep: &D, content: Seq<char>, versions: &VersionData, formatter: &F)
    requires
        outdated(dep, versions, formatter),
    ensures
        ({
            let outcome = planned_outcome(dep, content, versions, formatter);
            let latest = latest_for(dep, versions, formatter)->0;
            let req = dep.spec_version_requirement()->0;
            let literal = match dep.spec_version_literal() {
                Some(l) => l,
                None => req,
            };
            let shown = |c: char| !white_space(c);
            let span = range_text(content, dep.spec_version_range()->0).filter(shown);
            let same = formatter.spec_replacing(dep, latest, req).filter(shown) == literal.filter(
                shown,
            );
            let refused = |why: UnplannableReason|
                outcome matches CandidateModel::Unplannable { reason, .. } && reason == why;
            &&& refused(UnplannableReason::UnsafeLatestVersion) <==> !formatter.spec_safe(latest)
            &&& refused(UnplannableReason::NonLiteralSpan) <==> formatter.spec_safe(latest) && span
                != literal.filter(shown)
            &&& refused(UnplannableReason::NoOpRewrite) <==> formatter.spec_safe(latest) && span
                == literal.filter(shown) && same
            &&& (outcome is Planned) <==> formatter.spec_safe(latest) && span == literal.filter(
                shown,
            ) && !same
        }),
{
    let latest = latest_for(dep, versions, formatter)->0;
    let req = dep.spec_version_requirement()->0;
    let literal = literal_target(dep, req);
    let shown = |c: char| !white_space(c);
    let text = formatter.spec_replacing(dep, latest, req);
    let span = range_text(content, dep.spec_version_range()->0);
    assert(literal.filter(shown) == without_white_space(literal));
    assert(text.filter(shown) == without_white_space(text));
    assert(span.filter(shown) == without_white_space(span));
}

/// A dependency is an update candidate exactly where it has a version span and a requirement
/// text, the registry knows its latest version under the normalized name or else under its own,
/// neither the requirement nor the literal is a placeholder, and the requirement is outdated.
pub proof fn law_what_is_outdated<D: Dependency, F: EcosystemFormatter>(
    dep: &D,
    versions: &VersionData,
    formatter: &F,
)
    ensures
        ({
            let name = dep.spec_name();
            let normalized = formatter.spec_normalized(name);
            let key = if versions.cached@.dom().contains(normalized) {
                normalized
            } else {
                name
            };
            &&& outdated(dep, versions, formatter) <==> {
                &&& dep.spec_version_range() is Some
                &&& versions.cached@.dom().contains(key)
                &&& dep.spec_version_requirement() matches Some(req) && {
                    &&& req.len() > 0
                    &&& !formatter.spec_placeholder(req)
                    &&& dep.spec_version_literal() matches Some(l)
                        ==> !formatter.spec_placeholder(l)
                    &&& formatter.spec_status(dep, req, versions.cached@[key])
                        == RequirementStatus::Outdated
                }
            }
            &&& latest_for(dep, versions, formatter) == (if versions.cached@.dom().contains(key) {
                Some(versions.cached@[key])
            } else {
                None
            })
        }),
{
}

/// The planned updates are handed on in order, each as it was planned, whatever else could not
/// be planned.
pub proof fn law_every_planned_update_is_handed_on(v: Seq<CandidateModel>)
    ensures
        planned_only(v) == v.filter(|c: CandidateModel| c is Planned).map_values(
            |c: CandidateModel| c->Planned_0,
        ),
        forall|i: int|
            0 <= i < v.len() && (#[trigger] v[i]) is Planned ==> planned_only(v).contains(
                v[i]->Planned_0,
            ),
        forall|p: PlannedModel| #[trigger]
            planned_only(v).contains(p) ==> v.contains(CandidateModel::Planned(p)),
    decreases v.len(),
{
    reveal(Seq::filter);
    let keep = |c: CandidateModel| c is Planned;
    let plan = |c: CandidateModel| c->Planned_0;
    if v.len() == 0 {
        assert(planned_only(v) =~= v.filter(keep).map_values(plan));
    } else {
        let rest = v.drop_last();
        law_every_planned_update_is_handed_on(rest);
        if keep(v.last()) {
            assert(v.filter(keep).map_values(plan) =~= rest.filter(keep).map_values(plan).push(
                plan(v.last()),
            ));
        }
        assert forall|i: int| 0 <= i < v.len() && (#[trigger] v[i]) is Planned implies planned_only(
            v,
        ).contains(v[i]->Planned_0) by {
            let out = planned_only(v);
            if i < rest.len() {
                assert(rest[i] == v[i]);
                let k = choose|k: int|
                    0 <= k < planned_only(rest).len() && planned_only(rest)[k] == v[i]->Planned_0;
                assert(out[k] == v[i]->Planned_0);
            } else {
                assert(out[out.len() - 1] == v[i]->Planned_0);
            }
        }
        assert forall|p: PlannedModel| #[trigger] planned_only(v).contains(p) implies v.contains(
            CandidateModel::Planned(p),
        ) by {
            let out = planned_only(v);
            let k = choose|k: int| 0 <= k < out.len() && out[k] == p;
            if k < planned_only(rest).len() {
                assert(planned_only(rest)[k] == p);
                assert(planned_only(rest).contains(p));
                let i = choose|i: int| 0 <= i < rest.len() && rest[i] == CandidateModel::Planned(p);
                assert(v[i] == CandidateModel::Planned(p));
            } else {
                assert(v[v.len() - 1] == CandidateModel::Planned(p));
            }
        }
    }
}

/// Whether `p` starts within `q`: at or behind its start, and before its end.
pub open spec fn update_starts_within(p: PlannedModel, q: PlannedModel) -> bool {
    let at = p.range.start;
    let start = q.range.start;
    let end = q.range.end;
    &&& start.line < at.line || start.line == at.line && start.character <= at.character
    &&& at.line < end.line || at.line == end.line && at.character < end.character
}

proof fn lemma_planned_survivors(s: Seq<PlannedModel>)
    requires
        ascending(s, planned_start()),
    ensures
        ({
            let kept = planned_without_overlaps(s);
            &&& forall|i: int| 0 <= i < kept.len() ==> s.contains(#[trigger] kept[i])
            &&& forall|i: int|
                0 <= i < s.len() ==> kept.contains(#[trigger] s[i]) || exists|k: int|
                    0 <= k < kept.len() && update_starts_within(s[i], #[trigger] kept[k])
            &&& forall|i: int, j: int|
                0 <= i < j < kept.len() ==> !update_starts_within(
                    #[trigger] kept[j],
                    #[trigger] kept[i],
                )
            &&& ascending(kept, planned_start())
            &&& forall|i: int, j: int|
                0 <= i < j < kept.len() ==> span_key(
                    ((#[trigger] kept[i]).range.end.line, kept[i].range.end.character),
                ) <= planned_start()(#[trigger] kept[j])
        }),
    decreases s.len(),
{
    let key = planned_start();
    if s.len() > 0 {
        let rest = s.drop_last();
        assert forall|a: int, b: int| 0 <= a <= b < rest.len() implies key(#[trigger] rest[a])
            <= key(#[trigger] rest[b]) by {
            assert(key(s[a]) <= key(s[b]));
        }
        lemma_planned_survivors(rest);
        let kept = planned_without_overlaps(rest);
        let all = planned_without_overlaps(s);
        assert forall|i: int| 0 <= i < all.len() implies s.contains(#[trigger] all[i]) by {
            if i < kept.len() {
                assert(rest.contains(kept[i]));
                let at = choose|k: int| 0 <= k < rest.len() && rest[k] == kept[i];
                assert(s[at] == all[i]);
            } else {
                assert(s[s.len() - 1] == all[i]);
            }
        }
        assert forall|i: int, j: int| 0 <= i <= j < all.len() implies key(#[trigger] all[i])
            <= key(#[trigger] all[j]) by {
            if j < kept.len() {
                assert(key(kept[i]) <= key(kept[j]));
            } else if i < kept.len() {
                assert(rest.contains(kept[i]));
                let at = choose|k: int| 0 <= k < rest.len() && rest[k] == kept[i];
                assert(key(s[at]) <= key(s[s.len() - 1]));
            }
        }
        assert forall|i: int, j: int| 0 <= i < j < all.len() implies span_key(
            ((#[trigger] all[i]).range.end.line, all[i].range.end.character),
        ) <= planned_start()(#[trigger] all[j]) by {
            if j < kept.len() {
                assert(span_key((kept[i].range.end.line, kept[i].range.end.character)) <= key(
                    kept[j],
                ));
            } else if i < kept.len() - 1 {
                assert(span_key((kept[i].range.end.line, kept[i].range.end.character)) <= key(
                    kept[kept.len() - 1],
                ));
                assert(key(all[kept.len() - 1]) <= key(all[j]));
            }
        }
        assert forall|i: int, j: int| 0 <= i < j < all.len() implies !update_starts_within(
            #[trigger] all[j],
            #[trigger] all[i],
        ) by {
            assert(span_key((all[i].range.end.line, all[i].range.end.character)) <= key(all[j]));
        }
        assert forall|i: int| 0 <= i < s.len() implies all.contains(#[trigger] s[i]) || exists|
            k: int,
        |
            0 <= k < all.len() && update_starts_within(s[i], #[trigger] all[k]) by {
            if i < rest.len() {
                assert(rest[i] == s[i]);
                if kept.contains(rest[i]) {
                    let k = choose|k: int| 0 <= k < kept.len() && kept[k] == rest[i];
                    assert(all[k] == s[i]);
                } else {
                    let k = choose|k: int|
                        0 <= k < kept.len() && update_starts_within(rest[i], #[trigger] kept[k]);
                    assert(update_starts_within(s[i], all[k]));
                }
            } else if all == kept.push(s.last()) {
                assert(all[kept.len() as int] == s[i]);
            } else {
                assert(rest.contains(kept[kept.len() - 1]));
                let at = choose|k: int| 0 <= k < rest.len() && rest[k] == kept[kept.len() - 1];
                assert(key(s[at]) <= key(s[i]));
                assert(update_starts_within(s[i], all[kept.len() - 1]));
            }
        }
    }
}

/// Of the planned updates, those that survive are among them, in order of their start and none
/// within another; one is dropped only where it starts within one that survives.
pub proof fn law_only_overlapping_updates_are_dropped(v: Seq<PlannedModel>)
    ensures
        ({
            let kept = surviving_planned(v);
            &&& forall|i: int| 0 <= i < kept.len() ==> v.contains(#[trigger] kept[i])
            &&& forall|i: int|
                0 <= i < v.len() ==> kept.contains(#[trigger] v[i]) || exists|k: int|
                    0 <= k < kept.len() && update_starts_within(v[i], #[trigger] kept[k])
            &&& forall|i: int, j: int|
                0 <= i < j < kept.len() ==> {
                    let a = (#[trigger] kept[i]).range;
                    let b = (#[trigger] kept[j]).range;
                    &&& a.start.line < b.start.line || a.start.line == b.start.line
                        && a.start.character <= b.start.character
                    &&& a.end.line < b.start.line || a.end.line == b.start.line && a.end.character
                        <= b.start.character
                }
        }),
{
    broadcast use vstd::seq_lib::group_to_multiset_ensures;

    let key = planned_start();
    let sorted = stable_sorted(v, key);
    lemma_stable_sorted(v, key);
    lemma_planned_survivors(sorted);
    let kept = surviving_planned(v);
    assert forall|i: int| 0 <= i < kept.len() implies v.contains(#[trigger] kept[i]) by {
        assert(sorted.contains(kept[i]));
        assert(sorted.to_multiset().count(kept[i]) > 0);
        assert(v.to_multiset().count(kept[i]) > 0);
    }
    assert forall|i: int| 0 <= i < v.len() implies kept.contains(#[trigger] v[i]) || exists|k: int|
        0 <= k < kept.len() && update_starts_within(v[i], #[trigger] kept[k]) by {
        lemma_sorted_contains(v, key, i);
        let at = choose|k: int| 0 <= k < sorted.len() && sorted[k] == v[i];
        assert(sorted[at] == v[i]);
    }
    assert forall|i: int, j: int| 0 <= i < j < kept.len() implies ({
        let a = (#[trigger] kept[i]).range;
        let b = (#[trigger] kept[j]).range;
        &&& a.start.line < b.start.line || a.start.line == b.start.line && a.start.character
            <= b.start.character
        &&& a.end.line < b.start.line || a.end.line == b.start.line && a.end.character
            <= b.start.character
    }) by {
        assert(key(kept[i]) <= key(kept[j]));
        assert(span_key((kept[i].range.end.line, kept[i].range.end.character)) <= key(kept[j]));
    }
}

/// An outdated dependency that an edit could be planned for, within no other planned edit, is
/// updated, whatever becomes of the other dependencies; and every update that is made is one of
/// those planned for an outdated dependency.
pub proof fn law_unhindered_dependencies_are_updated<D: Dependency, F: EcosystemFormatter>(
    deps: Seq<D>,
    content: Seq<char>,
    versions: &VersionData,
    formatter: &F,
)
    ensures
        ({
            let made = surviving_planned(
                planned_only(candidates(deps, content, versions, formatter)),
            );
            let planned = |d: D, p: PlannedModel|
                outdated(&d, versions, formatter) && planned_outcome(
                    &d,
                    content,
                    versions,
                    formatter,
                ) == CandidateModel::Planned(p);
            &&& forall|i: int, p: PlannedModel|
                0 <= i < deps.len() && #[trigger] planned(deps[i], p) && (forall|
                    j: int,
                    q: PlannedModel,
                |
                    0 <= j < deps.len() && j != i && #[trigger] planned(deps[j], q)
                        ==> !update_starts_within(p, q)) ==> made.contains(p)
            &&& forall|k: int|
                0 <= k < made.len() ==> exists|i: int|
                    0 <= i < deps.len() && planned(#[trigger] deps[i], #[trigger] made[k])
        }),
{
    let all = candidates(deps, content, versions, formatter);
    let list = planned_only(all);
    let made = surviving_planned(list);
    let planned = |d: D, p: PlannedModel|
        outdated(&d, versions, formatter) && planned_outcome(&d, content, versions, formatter)
            == CandidateModel::Planned(p);
    law_every_planned_update_is_handed_on(all);
    law_only_overlapping_updates_are_dropped(list);
    lemma_candidates_are_of_dependencies(deps, content, versions, formatter);
    assert forall|q: PlannedModel| #[trigger] list.contains(q) implies exists|j: int|
        0 <= j < deps.len() && planned(#[trigger] deps[j], q) by {
        let k = choose|k: int| 0 <= k < all.len() && all[k] == CandidateModel::Planned(q);
        assert(all.contains(CandidateModel::Planned(q)));
        let j = choose|j: int|
            0 <= j < deps.len() && outdated(&(#[trigger] deps[j]), versions, formatter)
                && planned_outcome(&deps[j], content, versions, formatter) == all[k];
        assert(planned(deps[j], q));
    }
    assert forall|i: int, p: PlannedModel|
        0 <= i < deps.len() && #[trigger] planned(deps[i], p) && (forall|j: int, q: PlannedModel|
            0 <= j < deps.len() && j != i && #[trigger] planned(deps[j], q)
                ==> !update_starts_within(p, q)) implies made.contains(p) by {
        assert(all.contains(planned_outcome(&deps[i], content, versions, formatter)));
        let at = choose|at: int| 0 <= at < all.len() && all[at] == CandidateModel::Planned(p);
        assert(all[at] is Planned);
        assert(list.contains(p));
        let n = choose|n: int| 0 <= n < list.len() && list[n] == p;
        if !made.contains(p) {
            assert(!made.contains(list[n]));
            let k = choose|k: int|
                0 <= k < made.len() && update_starts_within(list[n], #[trigger] made[k]);
            assert(list.contains(made[k]));
            let j = choose|j: int| 0 <= j < deps.len() && planned(#[trigger] deps[j], made[k]);
            assert(planned(deps[j], made[k]));
            if j == i {
                assert(made[k] == p);
            }
        }
    }
    assert forall|k: int| 0 <= k < made.len() implies exists|i: int|
        0 <= i < deps.len() && planned(#[trigger] deps[i], #[trigger] made[k]) by {
        assert(list.contains(made[k]));
    }
}

proof fn lemma_candidates_are_of_dependencies<D: Dependency, F: EcosystemFormatter>(
    deps: Seq<D>,
    content: Seq<char>,
    versions: &VersionData,
    formatter: &F,
)
    ensures
        ({
            let all = candidates(deps, content, versions, formatter);
            &&& forall|i: int|
                0 <= i < deps.len() && outdated(&(#[trigger] deps[i]), versions, formatter)
                    ==> all.contains(planned_outcome(&deps[i], content, versions, formatter))
            &&& forall|k: int|
                0 <= k < all.len() ==> exists|i: int|
                    0 <= i < deps.len() && outdated(&(#[trigger] deps[i]), versions, formatter)
                        && planned_outcome(&deps[i], content, versions, formatter)
                        == #[trigger] all[k]
        }),
    decreases deps.len(),
{
    if deps.len() > 0 {
        let rest = deps.drop_last();
        lemma_candidates_are_of_dependencies(rest, content, versions, formatter);
        let before = candidates(rest, content, versions, formatter);
        let all = candidates(deps, content, versions, formatter);
        assert forall|i: int|
            0 <= i < deps.len() && outdated(
                &(#[trigger] deps[i]),
                versions,
                formatter,
            ) implies all.contains(planned_outcome(&deps[i], content, versions, formatter)) by {
            let outcome = planned_outcome(&deps[i], content, versions, formatter);
            if i < rest.len() {
                assert(rest[i] == deps[i]);
                assert(before.contains(outcome));
                let k = choose|k: int| 0 <= k < before.len() && before[k] == outcome;
                assert(all[k] == outcome);
            } else {
                assert(all[before.len() as int] == outcome);
            }
        }
        assert forall|k: int| 0 <= k < all.len() implies exists|i: int|
            0 <= i < deps.len() && outdated(&(#[trigger] deps[i]), versions, formatter)
                && planned_outcome(&deps[i], content, versions, formatter) == #[trigger] all[k] by {
            if k < before.len() {
                assert(all[k] == before[k]);
                let i = choose|i: int|
                    0 <= i < rest.len() && outdated(&(#[trigger] rest[i]), versions, formatter)
                        && planned_outcome(&rest[i], content, versions, formatter) == before[k];
                assert(deps[i] == rest[i]);
            } else {
                assert(deps[deps.len() - 1] == deps.last());
            }
        }
    }
}

/// Of planned updates that start together, before all others, the first planned survives.
pub proof fn law_first_of_updates_that_start_together_survives(v: Seq<PlannedModel>, i: int)
    requires
        0 <= i < v.len(),
        forall|j: int|
            0 <= j < v.len() ==> {
                let a = v[i].range.start;
                let b = (#[trigger] v[j]).range.start;
                a.line < b.line || a.line == b.line && a.character <= b.character
            },
        forall|j: int| 0 <= j < i ==> (#[trigger] v[j]).range.start != v[i].range.start,
    ensures
        surviving_planned(v).len() > 0,
        surviving_planned(v)[0] == v[i],
{
    let key = planned_start();
    lemma_first_of_sorted(v, key, i);
    lemma_first_planned_is_kept(stable_sorted(v, key));
}

proof fn lemma_first_planned_is_kept(s: Seq<PlannedModel>)
    requires
        s.len() > 0,
    ensures
        planned_without_overlaps(s).len() > 0,
        planned_without_overlaps(s)[0] == s[0],
    decreases s.len(),
{
    if s.len() > 1 {
        lemma_first_planned_is_kept(s.drop_last());
    } else {
        assert(planned_without_overlaps(s.drop_last()).len() == 0);
    }
}

/// The contents of a planned update are those of its fields.
pub proof fn law_contents_of_a_planned_update(p: PlannedUpdate)
    ensures
        p@.name == p.name@,
        p@.normalized_name == p.normalized_name@,
        p@.name_range == p.name_range,
        p@.current == p.current@,
        p@.target == p.target.text(),
        p@.range == p.edit.range,
        p@.new_text == p.edit.new_text@,
        UpdateCandidate::Planned(p)@ == CandidateModel::Planned(p@),
{
}

/// The text of a range is what lies between its two positions, nothing where the end lies before
/// the start.
pub proof fn law_text_of_a_range(
    before: Seq<char>,
    text: Seq<char>,
    after: Seq<char>,
    range: Range,
)
    ensures
        position_offset(before + text + after, range.start) == before.len() && position_offset(
            before + text + after,
            range.end,
        ) == before.len() + text.len() ==> range_text(before + text + after, range) == text,
        position_offset(before, range.start) > position_offset(before, range.end) ==> range_text(
            before,
            range,
        ).len() == 0,
{
    let content = before + text + after;
    assert(content.subrange(before.len() as int, (before.len() + text.len()) as int) =~= text);
}

/// A requirement is rewritten, with the formatter's own text, exactly where neither it nor the
/// dependency's literal is a placeholder.
pub proof fn law_placeholders_are_never_rewritten<D: Dependency, F: EcosystemFormatter>(
    formatter: &F,
    dep: &D,
    version: Seq<char>,
    current: Seq<char>,
)
    ensures
        ({
            let literal = dep.spec_version_literal();
            let placeholder = formatter.spec_placeholder(current) || literal is Some
                && formatter.spec_placeholder(literal->0);
            &&& placeholder_for(formatter, dep, current) <==> placeholder
            &&& placeholder ==> replacement(formatter, dep, version, current) is None
            &&& !placeholder ==> replacement(formatter, dep, version, current) == Some(
                formatter.spec_replacing(dep, version, current),
            )
        }),
{
}

} // verus!
