//! Inlay hints and hover texts, for any ecosystem.
//!
//! Versions are fetched by the caller: [`split_dependencies`] says for which dependencies, and
//! [`generate_inlay_hints`] makes hints of what came back.

use crate::ecosystem::Dependency;
use crate::formatter::option_text;
use crate::position::{Position, Range};
use crate::text::{
    contains_text, decimal, decimal_of, occurs_at, replace, replaced, same_text, string_texts,
};
use vstd::prelude::*;

verus! {

/// The ecosystem-specific part of hints and hovers.
///
/// The `spec_*` functions name the answers of the methods. They are left open here: a verified
/// implementation says what its answers are.
pub trait EcosystemHandler: Sized {
    /// Dependency type for this ecosystem.
    type Dependency: Dependency;

    /// The answer of [`Self::extract_dependency`].
    open spec fn spec_extract<UnifiedDep>(dep: &UnifiedDep) -> Option<Self::Dependency> {
        arbitrary()
    }

    /// The answer of [`Self::package_url`].
    open spec fn spec_package_url(name: Seq<char>) -> Seq<char> {
        arbitrary()
    }

    /// The answer of [`Self::ecosystem_display_name`].
    open spec fn spec_display_name() -> Seq<char> {
        arbitrary()
    }

    /// The answer of [`Self::is_version_latest`].
    open spec fn spec_version_latest(version_req: Seq<char>, latest: Seq<char>) -> bool {
        arbitrary()
    }

    /// The typed dependency in a unified one: `None` if it belongs to another ecosystem.
    fn extract_dependency<'a, UnifiedDep>(dep: &'a UnifiedDep) -> (r: Option<&'a Self::Dependency>)
        ensures
            match r {
                Some(d) => Self::spec_extract(dep) == Some(*d),
                None => Self::spec_extract(dep) is None,
            },
    ;

    /// Package URL for this ecosystem.
    fn package_url(name: &str) -> (r: String)
        ensures
            r@ == Self::spec_package_url(name@),
    ;

    /// Display name for the ecosystem, such as `crates.io`.
    fn ecosystem_display_name() -> (r: &'static str)
        ensures
            r@ == Self::spec_display_name(),
    ;

    /// Whether the latest version satisfies the requirement, so that the dependency is up to
    /// date within its constraint.
    fn is_version_latest(version_req: &str, latest: &str) -> (r: bool)
        ensures
            r == Self::spec_version_latest(version_req@, latest@),
    ;
}

/// Configuration for inlay hint display.
pub struct InlayHintsConfig {
    /// Whether hints are shown.
    pub enabled: bool,
    /// The hint for an up-to-date dependency.
    pub up_to_date_text: String,
    /// The hint for an outdated dependency; `{}` stands for the latest version.
    pub needs_update_text: String,
}

impl Default for InlayHintsConfig {
    fn default() -> (r: Self)
        ensures
            r.enabled,
            r.up_to_date_text@ == "✅"@,
            r.needs_update_text@ == "❌ {}"@,
    {
        InlayHintsConfig {
            enabled: true,
            up_to_date_text: "✅".to_owned(),
            needs_update_text: "❌ {}".to_owned(),
        }
    }
}

/// Access to the text of a version.
pub trait VersionStringGetter {
    /// The answer of [`Self::version_string`].
    open spec fn spec_version_string(&self) -> Seq<char> {
        arbitrary()
    }

    /// The version's text.
    fn version_string(&self) -> (r: &str)
        ensures
            r@ == self.spec_version_string(),
    ;
}

/// Access to whether a version is yanked.
pub trait YankedChecker {
    /// The answer of [`Self::is_yanked`].
    open spec fn spec_is_yanked(&self) -> bool {
        arbitrary()
    }

    /// Whether the version is yanked.
    fn is_yanked(&self) -> (r: bool)
        ensures
            r == self.spec_is_yanked(),
    ;
}

/// A version as a registry lists it.
pub trait VersionInfo: VersionStringGetter + YankedChecker {
    /// The answer of [`Self::features`].
    open spec fn spec_features(&self) -> Seq<Seq<char>> {
        arbitrary()
    }

    /// The features of the version; none unless the ecosystem has them.
    fn features(&self) -> (r: Vec<String>)
        ensures
            string_texts(r@) == self.spec_features(),
    ;
}

// ---------------------------------------------------------------------------
// Which versions to fetch
// ---------------------------------------------------------------------------

/// A dependency whose latest version is at hand.
pub struct CachedDependency {
    /// The name.
    pub name: String,
    /// The declared requirement.
    pub version_req: String,
    /// Where the requirement stands.
    pub version_range: Range,
    /// The latest version.
    pub latest_version: String,
    /// Whether the latest version is yanked.
    pub is_yanked: bool,
}

/// A dependency whose versions are to be fetched.
pub struct PendingDependency {
    /// The name.
    pub name: String,
    /// The declared requirement.
    pub version_req: String,
    /// Where the requirement stands.
    pub version_range: Range,
}

/// The contents of a [`CachedDependency`].
pub struct CachedModel {
    /// The name.
    pub name: Seq<char>,
    /// The declared requirement.
    pub version_req: Seq<char>,
    /// Where the requirement stands.
    pub version_range: Range,
    /// The latest version.
    pub latest_version: Seq<char>,
    /// Whether the latest version is yanked.
    pub is_yanked: bool,
}

/// The contents of a [`PendingDependency`].
pub struct PendingModel {
    /// The name.
    pub name: Seq<char>,
    /// The declared requirement.
    pub version_req: Seq<char>,
    /// Where the requirement stands.
    pub version_range: Range,
}

impl View for CachedDependency {
    type V = CachedModel;

    open spec fn view(&self) -> CachedModel {
        CachedModel {
            name: self.name@,
            version_req: self.version_req@,
            version_range: self.version_range,
            latest_version: self.latest_version@,
            is_yanked: self.is_yanked,
        }
    }
}

impl View for PendingDependency {
    type V = PendingModel;

    open spec fn view(&self) -> PendingModel {
        PendingModel {
            name: self.name@,
            version_req: self.version_req@,
            version_range: self.version_range,
        }
    }
}

/// The contents of a list of cached dependencies.
pub open spec fn cached_models(v: Seq<CachedDependency>) -> Seq<CachedModel> {
    v.map_values(|d: CachedDependency| d@)
}

/// The contents of a list of pending dependencies.
pub open spec fn pending_models(v: Seq<PendingDependency>) -> Seq<PendingModel> {
    v.map_values(|d: PendingDependency| d@)
}

/// The first entry of a version cache that has the given name.
pub open spec fn cached_at<V>(cached: Seq<(String, V)>, name: Seq<char>, i: int) -> bool {
    &&& 0 <= i < cached.len()
    &&& cached[i].0@ == name
    &&& forall|j: int| 0 <= j < i ==> (#[trigger] cached[j]).0@ != name
}

/// Whether a version cache knows the name.
pub open spec fn is_cached<V>(cached: Seq<(String, V)>, name: Seq<char>) -> bool {
    exists|i: int| 0 <= i < cached.len() && (#[trigger] cached[i]).0@ == name
}

/// The dependency of this ecosystem in a unified one, with its requirement and its span: what a
/// hint needs.
pub open spec fn hintable<H: EcosystemHandler, U>(dep: &U) -> Option<PendingModel> {
    match H::spec_extract(dep) {
        None => None,
        Some(d) => match (d.spec_version_requirement(), d.spec_version_range()) {
            (Some(version_req), Some(version_range)) => Some(
                PendingModel { name: d.spec_name(), version_req, version_range },
            ),
            _ => None,
        },
    }
}

/// The dependencies, in order, whose latest version is at hand.
pub open spec fn cached_part<
    H: EcosystemHandler,
    U,
    V: VersionStringGetter + YankedChecker,
>(deps: Seq<U>, cached: Seq<(String, V)>) -> Seq<CachedModel>
    decreases deps.len(),
{
    if deps.len() == 0 {
        Seq::empty()
    } else {
        let before = cached_part::<H, U, V>(deps.drop_last(), cached);
        match hintable::<H, U>(&deps.last()) {
            Some(p) => if is_cached(cached, p.name) {
                let i = choose|i: int| cached_at(cached, p.name, i);
                before.push(
                    CachedModel {
                        name: p.name,
                        version_req: p.version_req,
                        version_range: p.version_range,
                        latest_version: cached[i].1.spec_version_string(),
                        is_yanked: cached[i].1.spec_is_yanked(),
                    },
                )
            } else {
                before
            },
            None => before,
        }
    }
}

/// The dependencies, in order, whose versions are to be fetched.
pub open spec fn pending_part<H: EcosystemHandler, U, V>(
    deps: Seq<U>,
    cached: Seq<(String, V)>,
) -> Seq<PendingModel>
    decreases deps.len(),
{
    if deps.len() == 0 {
        Seq::empty()
    } else {
        let before = pending_part::<H, U, V>(deps.drop_last(), cached);
        match hintable::<H, U>(&deps.last()) {
            Some(p) => if is_cached(cached, p.name) {
                before
            } else {
                before.push(p)
            },
            None => before,
        }
    }
}

fn find_cached<V>(cached: &[(String, V)], name: &str) -> (r: Option<usize>)
    ensures
        match r {
            Some(i) => cached_at(cached@, name@, i as int),
            None => !is_cached(cached@, name@),
        },
{
    let mut i: usize = 0;
    while i < cached.len()
        invariant
            i <= cached@.len(),
            forall|j: int| 0 <= j < i ==> (#[trigger] cached@[j]).0@ != name@,
        decreases cached@.len() - i,
    {
        if same_text(cached[i].0.as_str(), name) {
            return Some(i);
        }
        i += 1;
    }
    None
}

/// Separates the dependencies that a hint is to be made for into those whose latest version is
/// in `cached` and those whose versions are to be fetched. Dependencies of other ecosystems, and
/// those without a requirement or a span, are passed over.
pub fn split_dependencies<
    H: EcosystemHandler,
    UnifiedDep,
    UnifiedVer: VersionStringGetter + YankedChecker,
>(dependencies: &[UnifiedDep], cached: &[(String, UnifiedVer)]) -> (r: (
    Vec<CachedDependency>,
    Vec<PendingDependency>,
))
    ensures
        cached_models(r.0@) == cached_part::<H, UnifiedDep, UnifiedVer>(dependencies@, cached@),
        pending_models(r.1@) == pending_part::<H, UnifiedDep, UnifiedVer>(dependencies@, cached@),
{
    let mut known: Vec<CachedDependency> = Vec::new();
    let mut pending: Vec<PendingDependency> = Vec::new();
    let mut i: usize = 0;
    proof {
        assert(dependencies@.take(0) =~= Seq::<UnifiedDep>::empty());
        assert(cached_models(known@) =~= Seq::<CachedModel>::empty());
        assert(pending_models(pending@) =~= Seq::<PendingModel>::empty());
    }
    while i < dependencies.len()
        invariant
            i <= dependencies@.len(),
            cached_models(known@) == cached_part::<H, UnifiedDep, UnifiedVer>(
                dependencies@.take(i as int),
                cached@,
            ),
            pending_models(pending@) == pending_part::<H, UnifiedDep, UnifiedVer>(
                dependencies@.take(i as int),
                cached@,
            ),
        decreases dependencies@.len() - i,
    {
        proof {
            assert(dependencies@.take(i + 1).drop_last() =~= dependencies@.take(i as int));
            assert(dependencies@.take(i + 1).last() == dependencies@[i as int]);
        }
        if let Some(dep) = H::extract_dependency(&dependencies[i]) {
            if let Some(version_req) = dep.version_requirement() {
                if let Some(version_range) = dep.version_range() {
                    let name = dep.name();
                    match find_cached(cached, name) {
                        Some(at) => {
                            let ghost before = known@;
                            let entry = CachedDependency {
                                name: name.to_owned(),
                                version_req: version_req.to_owned(),
                                version_range,
                                latest_version: cached[at].1.version_string().to_owned(),
                                is_yanked: cached[at].1.is_yanked(),
                            };
                            proof {
                                assert(cached@[at as int].0@ == name@);
                                assert forall|k: int| cached_at(cached@, name@, k) implies k == at by {
                                    if k < at {
                                        assert(cached@[k].0@ != name@);
                                    }
                                    if at < k {
                                        assert(cached@[at as int].0@ != name@);
                                    }
                                }
                            }
                            known.push(entry);
                            proof {
                                assert(cached_models(known@) =~= cached_models(before).push(
                                    entry@,
                                ));
                            }
                        },
                        None => {
                            let ghost before = pending@;
                            let entry = PendingDependency {
                                name: name.to_owned(),
                                version_req: version_req.to_owned(),
                                version_range,
                            };
                            pending.push(entry);
                            proof {
                                assert(pending_models(pending@) =~= pending_models(before).push(
                                    entry@,
                                ));
                            }
                        },
                    }
                }
            }
        }
        i += 1;
    }
    proof {
        assert(dependencies@.take(i as int) =~= dependencies@);
    }
    (known, pending)
}

// ---------------------------------------------------------------------------
// Hints
// ---------------------------------------------------------------------------

/// What a hint is about.
#[derive(Debug, Clone, Copy, PartialEq, Eq, Structural)]
pub enum InlayHintKind {
    /// A type.
    Type,
    /// A parameter.
    Parameter,
}

/// A hint at the end of a version requirement.
#[derive(Debug, Clone, PartialEq, Eq)]
pub struct InlayHint {
    /// Where the hint is shown.
    pub position: Position,
    /// The text of the hint.
    pub label: String,
    /// The Markdown shown on hovering over the hint.
    pub tooltip: String,
    /// The title of the command behind the hint.
    pub command_title: String,
    /// The identifier of that command.
    pub command: String,
    /// The page that the command opens, its only argument.
    pub url: String,
    /// What the hint is about, where that is told.
    pub kind: Option<InlayHintKind>,
    /// Whether there is room before the hint, where that is told.
    pub padding_left: Option<bool>,
    /// Whether there is room behind the hint, where that is told.
    pub padding_right: Option<bool>,
}

/// The contents of an [`InlayHint`].
pub struct HintModel {
    /// Where the hint is shown.
    pub position: Position,
    /// The text of the hint.
    pub label: Seq<char>,
    /// The Markdown shown on hovering over the hint.
    pub tooltip: Seq<char>,
    /// The title of the command behind the hint.
    pub command_title: Seq<char>,
    /// The identifier of that command.
    pub command: Seq<char>,
    /// The page that the command opens, its only argument.
    pub url: Seq<char>,
    /// What the hint is about, where that is told.
    pub kind: Option<InlayHintKind>,
    /// Whether there is room before the hint, where that is told.
    pub padding_left: Option<bool>,
    /// Whether there is room behind the hint, where that is told.
    pub padding_right: Option<bool>,
}

impl View for InlayHint {
    type V = HintModel;

    open spec fn view(&self) -> HintModel {
        HintModel {
            position: self.position,
            label: self.label@,
            tooltip: self.tooltip@,
            command_title: self.command_title@,
            command: self.command@,
            url: self.url@,
            kind: self.kind,
            padding_left: self.padding_left,
            padding_right: self.padding_right,
        }
    }
}

/// The contents of a list of hints.
pub open spec fn hint_models(v: Seq<InlayHint>) -> Seq<HintModel> {
    v.map_values(|h: InlayHint| h@)
}

/// The hint for a dependency with the given latest version.
pub open spec fn hint_for<H: EcosystemHandler>(
    dep: PendingModel,
    latest: Seq<char>,
    config: &InlayHintsConfig,
) -> HintModel {
    let url = H::spec_package_url(dep.name);
    HintModel {
        position: dep.version_range.end,
        label: if H::spec_version_latest(dep.version_req, latest) {
            config.up_to_date_text@
        } else {
            replaced(config.needs_update_text@, "{}"@, latest)
        },
        tooltip: "["@ + dep.name + "]("@ + url + ") - "@ + url + "\n\nLatest: **"@ + latest
            + "**"@,
        command_title: "Open on "@ + H::spec_display_name(),
        command: "vscode.open"@,
        url,
        kind: Some(InlayHintKind::Type),
        padding_left: Some(true),
        padding_right: None,
    }
}

fn create_hint<H: EcosystemHandler>(
    name: &str,
    version_range: Range,
    latest_version: &str,
    is_latest: bool,
    config: &InlayHintsConfig,
    version_req: Ghost<Seq<char>>,
) -> (r: InlayHint)
    requires
        is_latest == H::spec_version_latest(version_req@, latest_version@),
    ensures
        r@ == hint_for::<H>(
            PendingModel { name: name@, version_req: version_req@, version_range },
            latest_version@,
            config,
        ),
{
    let label = if is_latest {
        config.up_to_date_text.clone()
    } else {
        proof {
            reveal_strlit("{}");
        }
        replace(config.needs_update_text.as_str(), "{}", latest_version)
    };
    let url = H::package_url(name);
    let mut tooltip = "[".to_owned();
    tooltip.append(name);
    tooltip.append("](");
    tooltip.append(url.as_str());
    tooltip.append(") - ");
    tooltip.append(url.as_str());
    tooltip.append("\n\nLatest: **");
    tooltip.append(latest_version);
    tooltip.append("**");
    let mut command_title = "Open on ".to_owned();
    command_title.append(H::ecosystem_display_name());
    InlayHint {
        position: version_range.end,
        label,
        tooltip,
        command_title,
        command: "vscode.open".to_owned(),
        url,
        kind: Some(InlayHintKind::Type),
        padding_left: Some(true),
        padding_right: None,
    }
}

/// The hints for dependencies whose latest version is at hand: none for a yanked one.
pub open spec fn cached_hints<H: EcosystemHandler>(
    cached: Seq<CachedModel>,
    config: &InlayHintsConfig,
) -> Seq<HintModel>
    decreases cached.len(),
{
    if cached.len() == 0 {
        Seq::empty()
    } else {
        let before = cached_hints::<H>(cached.drop_last(), config);
        let d = cached.last();
        if d.is_yanked {
            before
        } else {
            before.push(
                hint_for::<H>(
                    PendingModel {
                        name: d.name,
                        version_req: d.version_req,
                        version_range: d.version_range,
                    },
                    d.latest_version,
                    config,
                ),
            )
        }
    }
}

/// The first version of the list that is not yanked.
pub open spec fn first_not_yanked<V: VersionStringGetter + YankedChecker>(
    versions: Seq<V>,
) -> Option<Seq<char>>
    decreases versions.len(),
{
    if versions.len() == 0 {
        None
    } else if !versions[0].spec_is_yanked() {
        Some(versions[0].spec_version_string())
    } else {
        first_not_yanked(versions.drop_first())
    }
}

/// The hints for dependencies whose versions were fetched: none where the fetch failed or every
/// version is yanked.
pub open spec fn fetched_hints<H: EcosystemHandler, V: VersionStringGetter + YankedChecker>(
    fetched: Seq<(PendingDependency, Option<Vec<V>>)>,
    config: &InlayHintsConfig,
) -> Seq<HintModel>
    decreases fetched.len(),
{
    if fetched.len() == 0 {
        Seq::empty()
    } else {
        let before = fetched_hints::<H, V>(fetched.drop_last(), config);
        match fetched.last().1 {
            None => before,
            Some(versions) => match first_not_yanked(versions@) {
                None => before,
                Some(latest) => before.push(hint_for::<H>(fetched.last().0@, latest, config)),
            },
        }
    }
}

fn latest_not_yanked<V: VersionStringGetter + YankedChecker>(versions: &Vec<V>) -> (r: Option<&str>)
    ensures
        option_text(r) == first_not_yanked(versions@),
{
    let mut i: usize = 0;
    proof {
        assert(versions@.skip(0) =~= versions@);
    }
    while i < versions.len()
        invariant
            i <= versions@.len(),
            first_not_yanked(versions@.skip(i as int)) == first_not_yanked(versions@),
        decreases versions@.len() - i,
    {
        proof {
            assert(versions@.skip(i as int)[0] == versions@[i as int]);
            assert(versions@.skip(i as int).drop_first() =~= versions@.skip(i + 1));
        }
        if !versions[i].is_yanked() {
            return Some(versions[i].version_string());
        }
        i += 1;
    }
    None
}

/// The hints for the dependencies whose latest version was at hand, followed by those for the
/// dependencies whose versions were fetched. `None` stands for a fetch that failed.
pub fn generate_inlay_hints<H: EcosystemHandler, V: VersionStringGetter + YankedChecker>(
    cached: &Vec<CachedDependency>,
    fetched: &Vec<(PendingDependency, Option<Vec<V>>)>,
    config: &InlayHintsConfig,
) -> (r: Vec<InlayHint>)
    ensures
        hint_models(r@) == cached_hints::<H>(cached_models(cached@), config) + fetched_hints::<
            H,
            V,
        >(fetched@, config),
{
    let mut hints: Vec<InlayHint> = Vec::new();
    let ghost known = cached_models(cached@);
    let mut i: usize = 0;
    proof {
        assert(known.take(0) =~= Seq::<CachedModel>::empty());
        assert(hint_models(hints@) =~= Seq::<HintModel>::empty());
    }
    while i < cached.len()
        invariant
            i <= cached@.len(),
            known == cached_models(cached@),
            hint_models(hints@) == cached_hints::<H>(known.take(i as int), config),
        decreases cached@.len() - i,
    {
        let dep = &cached[i];
        proof {
            assert(known.take(i + 1).drop_last() =~= known.take(i as int));
            assert(known.take(i + 1).last() == dep@);
        }
        if !dep.is_yanked {
            let is_latest = H::is_version_latest(
                dep.version_req.as_str(),
                dep.latest_version.as_str(),
            );
            let ghost before = hints@;
            let hint = create_hint::<H>(
                dep.name.as_str(),
                dep.version_range,
                dep.latest_version.as_str(),
                is_latest,
                config,
                Ghost(dep.version_req@),
            );
            hints.push(hint);
            proof {
                assert(hint_models(hints@) =~= hint_models(before).push(hint@));
            }
        }
        i += 1;
    }
    let ghost first = cached_hints::<H>(known, config);
    proof {
        assert(known.take(i as int) =~= known);
        assert(fetched@.take(0) =~= Seq::<(PendingDependency, Option<Vec<V>>)>::empty());
        assert(first + Seq::<HintModel>::empty() =~= first);
    }
    let mut k: usize = 0;
    while k < fetched.len()
        invariant
            k <= fetched@.len(),
            hint_models(hints@) == first + fetched_hints::<H, V>(fetched@.take(k as int), config),
        decreases fetched@.len() - k,
    {
        proof {
            assert(fetched@.take(k + 1).drop_last() =~= fetched@.take(k as int));
            assert(fetched@.take(k + 1).last() == fetched@[k as int]);
        }
        let dep = &fetched[k].0;
        if let Some(versions) = &fetched[k].1 {
            if let Some(latest) = latest_not_yanked(versions) {
                let is_latest = H::is_version_latest(dep.version_req.as_str(), latest);
                let ghost before = hints@;
                let hint = create_hint::<H>(
                    dep.name.as_str(),
                    dep.version_range,
                    latest,
                    is_latest,
                    config,
                    Ghost(dep.version_req@),
                );
                hints.push(hint);
                proof {
                    assert(hint_models(hints@) =~= hint_models(before).push(hint@));
                    let so_far = fetched_hints::<H, V>(fetched@.take(k as int), config);
                    assert((first + so_far).push(hint@) =~= first + so_far.push(hint@));
                }
            }
        }
        k += 1;
    }
    proof {
        assert(fetched@.take(k as int) =~= fetched@);
    }
    hints
}

// ---------------------------------------------------------------------------
// Hover
// ---------------------------------------------------------------------------

/// A hover text for a span.
#[derive(Debug, Clone, PartialEq, Eq)]
pub struct Hover {
    /// The Markdown text.
    pub markdown: String,
    /// The span that the text is about.
    pub range: Range,
}

/// The lines for the first `n` versions; the first one is marked as the latest.
pub open spec fn version_lines<V: VersionInfo>(versions: Seq<V>, n: int) -> Seq<char>
    decreases n,
{
    if n <= 0 {
        Seq::empty()
    } else {
        let text = versions[n - 1].spec_version_string();
        version_lines(versions, n - 1) + (if n == 1 {
            "- "@ + text + " *(latest)*\n"@
        } else {
            "- "@ + text + "\n"@
        })
    }
}

/// The lines for the first `n` features.
pub open spec fn feature_lines(features: Seq<Seq<char>>, n: int) -> Seq<char>
    decreases n,
{
    if n <= 0 {
        Seq::empty()
    } else {
        feature_lines(features, n - 1) + ("- `"@ + features[n - 1] + "`\n"@)
    }
}

/// The smaller of a length and a cap.
pub open spec fn at_most(len: nat, cap: int) -> int {
    if len <= cap {
        len as int
    } else {
        cap
    }
}

/// The line that counts what was left out of a list of `len` beyond `cap`.
pub open spec fn more_line(len: nat, cap: nat) -> Seq<char> {
    if len > cap {
        "- *...and "@ + decimal((len - cap) as nat) + " more*\n"@
    } else {
        Seq::empty()
    }
}

/// The part of the hover text above the list of versions.
pub open spec fn hover_head(
    name: Seq<char>,
    url: Seq<char>,
    current: Option<Seq<char>>,
    yanked: bool,
) -> Seq<char> {
    let title = "# ["@ + name + "]("@ + url + ")\n\n"@;
    let with_current = match current {
        Some(current) => title + "**Current**: `"@ + current + "`\n\n"@,
        None => title,
    };
    if yanked {
        with_current + "⚠️ **Warning**: This version has been yanked\n\n"@
    } else {
        with_current
    }
}

/// The part of the hover text below the list of versions.
pub open spec fn hover_features(features: Seq<Seq<char>>) -> Seq<char> {
    if features.len() == 0 {
        Seq::empty()
    } else {
        "\n**Features**:\n"@ + feature_lines(features, at_most(features.len(), 10)) + more_line(
            features.len(),
            10,
        )
    }
}

/// The hover text of a dependency whose versions, newest first, are `versions`.
pub open spec fn hover_markdown<H: EcosystemHandler, V: VersionInfo>(
    dep: &H::Dependency,
    versions: Seq<V>,
) -> Seq<char> {
    hover_head(
        dep.spec_name(),
        H::spec_package_url(dep.spec_name()),
        dep.spec_version_requirement(),
        versions[0].spec_is_yanked(),
    ) + "**Versions** *(use Cmd+. to update)*:\n"@ + version_lines(
        versions,
        at_most(versions.len(), 8),
    ) + more_line(versions.len(), 8) + hover_features(versions[0].spec_features())
}

fn push_more_line(markdown: &mut String, len: usize, cap: usize)
    ensures
        final(markdown)@ == old(markdown)@ + more_line(len as nat, cap as nat),
{
    let ghost before = markdown@;
    if len > cap {
        let count = decimal_of((len - cap) as u64);
        markdown.append("- *...and ");
        markdown.append(count.as_str());
        markdown.append(" more*\n");
        proof {
            assert(markdown@ =~= before + more_line(len as nat, cap as nat));
        }
    } else {
        proof {
            assert(before + Seq::<char>::empty() =~= before);
        }
    }
}

/// The hover for a unified dependency whose versions, newest first, are `versions`: title,
/// current requirement, up to eight versions and up to ten features. `None` for a dependency of
/// another ecosystem and where there is no version.
pub fn generate_hover<H: EcosystemHandler, UnifiedDep, V: VersionInfo>(
    dep: &UnifiedDep,
    versions: &Vec<V>,
) -> (r: Option<Hover>)
    ensures
        match H::spec_extract(dep) {
            None => r is None,
            Some(d) => if versions@.len() == 0 {
                r is None
            } else {
                r matches Some(hover) && hover.markdown@ == hover_markdown::<H, V>(&d, versions@)
                    && hover.range == d.spec_name_range()
            },
        },
{
    let typed = match H::extract_dependency(dep) {
        Some(typed) => typed,
        None => {
            return None;
        },
    };
    if versions.len() == 0 {
        return None;
    }
    let latest = &versions[0];
    let name = typed.name();
    let url = H::package_url(name);
    let mut markdown = "# [".to_owned();
    markdown.append(name);
    markdown.append("](");
    markdown.append(url.as_str());
    markdown.append(")\n\n");
    if let Some(current) = typed.version_requirement() {
        markdown.append("**Current**: `");
        markdown.append(current);
        markdown.append("`\n\n");
    }
    if latest.is_yanked() {
        markdown.append("⚠️ **Warning**: This version has been yanked\n\n");
    }
    markdown.append("**Versions** *(use Cmd+. to update)*:\n");
    let ghost head = markdown@;
    let shown: usize = if versions.len() <= 8 {
        versions.len()
    } else {
        8
    };
    let mut i: usize = 0;
    proof {
        assert(head + Seq::<char>::empty() =~= head);
    }
    while i < shown
        invariant
            i <= shown <= versions@.len(),
            markdown@ == head + version_lines(versions@, i as int),
        decreases shown - i,
    {
        let ghost before = markdown@;
        markdown.append("- ");
        markdown.append(versions[i].version_string());
        if i == 0 {
            markdown.append(" *(latest)*\n");
        } else {
            markdown.append("\n");
        }
        proof {
            let text = versions@[i as int].spec_version_string();
            let line = if i == 0 {
                "- "@ + text + " *(latest)*\n"@
            } else {
                "- "@ + text + "\n"@
            };
            assert(markdown@ =~= before + line);
            assert(head + version_lines(versions@, i + 1) =~= head + version_lines(
                versions@,
                i as int,
            ) + line);
        }
        i += 1;
    }
    push_more_line(&mut markdown, versions.len(), 8);
    let features = latest.features();
    let ghost fs = string_texts(features@);
    let ghost body = markdown@;
    if features.len() > 0 {
        markdown.append("\n**Features**:\n");
        let ghost lead = markdown@;
        let listed: usize = if features.len() <= 10 {
            features.len()
        } else {
            10
        };
        let mut k: usize = 0;
        proof {
            assert(lead + Seq::<char>::empty() =~= lead);
        }
        while k < listed
            invariant
                k <= listed <= features@.len(),
                fs == string_texts(features@),
                markdown@ == lead + feature_lines(fs, k as int),
            decreases listed - k,
        {
            let ghost before = markdown@;
            markdown.append("- `");
            markdown.append(features[k].as_str());
            markdown.append("`\n");
            proof {
                let line = "- `"@ + fs[k as int] + "`\n"@;
                assert(markdown@ =~= before + line);
                assert(lead + feature_lines(fs, k + 1) =~= lead + feature_lines(fs, k as int)
                    + line);
            }
            k += 1;
        }
        push_more_line(&mut markdown, features.len(), 10);
        proof {
            assert(markdown@ =~= body + hover_features(fs));
        }
    } else {
        proof {
            assert(body + Seq::<char>::empty() =~= body);
        }
    }
    Some(Hover { markdown, range: typed.name_range() })
}

// ---------------------------------------------------------------------------
// Laws
// ---------------------------------------------------------------------------

/// A dependency is either cached or pending, never both: every hintable dependency is accounted
/// for once, with the cached ones if and only if the cache knows its name.
pub proof fn law_every_hintable_dependency_is_handled_once<
    H: EcosystemHandler,
    U,
    V: VersionStringGetter + YankedChecker,
>(deps: Seq<U>, cached: Seq<(String, V)>)
    ensures
        cached_part::<H, U, V>(deps, cached).len() + pending_part::<H, U, V>(deps, cached).len()
            == deps.filter(|d: U| hintable::<H, U>(&d) is Some).len(),
        forall|i: int|
            0 <= i < cached_part::<H, U, V>(deps, cached).len() ==> is_cached(
                cached,
                (#[trigger] cached_part::<H, U, V>(deps, cached)[i]).name,
            ),
        forall|i: int|
            0 <= i < pending_part::<H, U, V>(deps, cached).len() ==> !is_cached(
                cached,
                (#[trigger] pending_part::<H, U, V>(deps, cached)[i]).name,
            ),
    decreases deps.len(),
{
    reveal(Seq::filter);
    if deps.len() > 0 {
        law_every_hintable_dependency_is_handled_once::<H, U, V>(deps.drop_last(), cached);
    }
}

/// A yanked version is never what a hint is made from: that is the first version that is not
/// yanked, and there is none only where every version is yanked.
pub proof fn law_yanked_versions_make_no_hint<V: VersionStringGetter + YankedChecker>(
    versions: Seq<V>,
)
    ensures
        match first_not_yanked(versions) {
            Some(text) => exists|i: int|
                0 <= i < versions.len() && !(#[trigger] versions[i]).spec_is_yanked()
                    && versions[i].spec_version_string() == text && forall|j: int|
                    0 <= j < i ==> (#[trigger] versions[j]).spec_is_yanked(),
            None => forall|i: int|
                0 <= i < versions.len() ==> (#[trigger] versions[i]).spec_is_yanked(),
        },
    decreases versions.len(),
{
    if versions.len() > 0 {
        let rest = versions.drop_first();
        law_yanked_versions_make_no_hint(rest);
        if versions[0].spec_is_yanked() {
            if let Some(text) = first_not_yanked(rest) {
                let i = choose|i: int|
                    0 <= i < rest.len() && !(#[trigger] rest[i]).spec_is_yanked()
                        && rest[i].spec_version_string() == text && forall|j: int|
                        0 <= j < i ==> (#[trigger] rest[j]).spec_is_yanked();
                assert(versions[i + 1] == rest[i]);
                assert forall|j: int| 0 <= j < i + 1 implies (
                #[trigger] versions[j]).spec_is_yanked() by {
                    if j > 0 {
                        assert(rest[j - 1].spec_is_yanked());
                    }
                }
            } else {
                assert forall|i: int| 0 <= i < versions.len() implies (
                #[trigger] versions[i]).spec_is_yanked() by {
                    if i > 0 {
                        assert(rest[i - 1].spec_is_yanked());
                    }
                }
            }
        }
    }
}

/// A dependency is hintable exactly where it is of this ecosystem and has both a requirement and a
/// span for it, and it is hinted at under its own name, requirement and span.
pub proof fn law_what_is_hintable<H: EcosystemHandler, U>(dep: &U)
    ensures
        match H::spec_extract(dep) {
            None => hintable::<H, U>(dep) is None,
            Some(d) => {
                &&& hintable::<H, U>(dep) is Some <==> d.spec_version_requirement() is Some
                    && d.spec_version_range() is Some
                &&& hintable::<H, U>(dep) matches Some(p) ==> p.name == d.spec_name() && Some(
                    p.version_req,
                ) == d.spec_version_requirement() && Some(p.version_range)
                    == d.spec_version_range()
            },
        },
{
}

/// A hintable dependency that the cache knows is handed on with the version that the cache holds
/// for it first, and one that it does not know is left to be fetched.
pub proof fn law_hintable_dependencies_are_handed_on<
    H: EcosystemHandler,
    U,
    V: VersionStringGetter + YankedChecker,
>(deps: Seq<U>, cached: Seq<(String, V)>, n: int, i: int)
    requires
        0 <= n < deps.len(),
        hintable::<H, U>(&deps[n]) is Some,
    ensures
        ({
            let p = hintable::<H, U>(&deps[n])->0;
            &&& 0 <= i < cached.len() && cached[i].0@ == p.name && (forall|j: int|
                0 <= j < i ==> (#[trigger] cached[j]).0@ != p.name) ==> cached_part::<H, U, V>(
                deps,
                cached,
            ).contains(
                CachedModel {
                    name: p.name,
                    version_req: p.version_req,
                    version_range: p.version_range,
                    latest_version: cached[i].1.spec_version_string(),
                    is_yanked: cached[i].1.spec_is_yanked(),
                },
            )
            &&& (forall|j: int| 0 <= j < cached.len() ==> (#[trigger] cached[j]).0@ != p.name)
                ==> pending_part::<H, U, V>(deps, cached).contains(p)
        }),
    decreases deps.len(),
{
    let p = hintable::<H, U>(&deps[n])->0;
    let known = cached_part::<H, U, V>(deps, cached);
    let left = pending_part::<H, U, V>(deps, cached);
    let rest = deps.drop_last();
    let known_before = cached_part::<H, U, V>(rest, cached);
    let left_before = pending_part::<H, U, V>(rest, cached);
    let found = 0 <= i < cached.len() && cached[i].0@ == p.name && (forall|j: int|
        0 <= j < i ==> (#[trigger] cached[j]).0@ != p.name);
    let missing = forall|j: int| 0 <= j < cached.len() ==> (#[trigger] cached[j]).0@ != p.name;
    let model = CachedModel {
        name: p.name,
        version_req: p.version_req,
        version_range: p.version_range,
        latest_version: cached[i].1.spec_version_string(),
        is_yanked: cached[i].1.spec_is_yanked(),
    };
    if n < rest.len() {
        assert(rest[n] == deps[n]);
        law_hintable_dependencies_are_handed_on::<H, U, V>(rest, cached, n, i);
        if found {
            assert(known_before.contains(model));
            let k = choose|k: int| 0 <= k < known_before.len() && known_before[k] == model;
            assert(known[k] == model);
        }
        if missing {
            assert(left_before.contains(p));
            let k = choose|k: int| 0 <= k < left_before.len() && left_before[k] == p;
            assert(left[k] == p);
        }
    } else {
        assert(deps.last() == deps[n]);
        if found {
            assert(is_cached(cached, p.name));
            assert(cached_at(cached, p.name, i));
            let c = choose|c: int| cached_at(cached, p.name, c);
            assert(c == i) by {
                if c < i {
                    assert(cached[c].0@ != p.name);
                }
                if i < c {
                    assert(cached[i].0@ != p.name);
                }
            }
            assert(known[known_before.len() as int] == model);
        }
        if missing {
            assert(!is_cached(cached, p.name));
            assert(left[left_before.len() as int] == p);
        }
    }
}

/// Of the dependencies whose latest version is at hand, each gets its hint, in order, but those
/// whose version is yanked.
pub proof fn law_every_cached_version_but_yanked_ones_is_hinted<H: EcosystemHandler>(
    cached: Seq<CachedModel>,
    config: &InlayHintsConfig,
)
    ensures
        cached_hints::<H>(cached, config) == cached.filter(
            |d: CachedModel| !d.is_yanked,
        ).map_values(
            |d: CachedModel|
                hint_for::<H>(
                    PendingModel {
                        name: d.name,
                        version_req: d.version_req,
                        version_range: d.version_range,
                    },
                    d.latest_version,
                    config,
                ),
        ),
    decreases cached.len(),
{
    reveal(Seq::filter);
    let keep = |d: CachedModel| !d.is_yanked;
    let hint = |d: CachedModel|
        hint_for::<H>(
            PendingModel {
                name: d.name,
                version_req: d.version_req,
                version_range: d.version_range,
            },
            d.latest_version,
            config,
        );
    if cached.len() == 0 {
        assert(cached_hints::<H>(cached, config) =~= cached.filter(keep).map_values(hint));
    } else {
        let rest = cached.drop_last();
        law_every_cached_version_but_yanked_ones_is_hinted::<H>(rest, config);
        if keep(cached.last()) {
            assert(cached.filter(keep).map_values(hint) =~= rest.filter(keep).map_values(
                hint,
            ).push(hint(cached.last())));
        }
    }
}

/// Of the dependencies whose versions were fetched, each gets the hint for its first version that
/// is not yanked, in order; the others are passed over and take no other hint with them.
pub proof fn law_every_fetched_version_but_yanked_ones_is_hinted<
    H: EcosystemHandler,
    V: VersionStringGetter + YankedChecker,
>(fetched: Seq<(PendingDependency, Option<Vec<V>>)>, config: &InlayHintsConfig)
    ensures
        fetched_hints::<H, V>(fetched, config) == fetched.filter(
            |f: (PendingDependency, Option<Vec<V>>)|
                f.1 matches Some(versions) && first_not_yanked(versions@) is Some,
        ).map_values(
            |f: (PendingDependency, Option<Vec<V>>)|
                hint_for::<H>(f.0@, first_not_yanked((f.1->0)@)->0, config),
        ),
    decreases fetched.len(),
{
    reveal(Seq::filter);
    let keep = |f: (PendingDependency, Option<Vec<V>>)|
        f.1 matches Some(versions) && first_not_yanked(versions@) is Some;
    let hint = |f: (PendingDependency, Option<Vec<V>>)|
        hint_for::<H>(f.0@, first_not_yanked((f.1->0)@)->0, config);
    if fetched.len() == 0 {
        assert(fetched_hints::<H, V>(fetched, config) =~= fetched.filter(keep).map_values(hint));
    } else {
        let rest = fetched.drop_last();
        law_every_fetched_version_but_yanked_ones_is_hinted::<H, V>(rest, config);
        if keep(fetched.last()) {
            assert(fetched.filter(keep).map_values(hint) =~= rest.filter(keep).map_values(
                hint,
            ).push(hint(fetched.last())));
        }
    }
}

proof fn lemma_part(before: Seq<char>, part: Seq<char>, after: Seq<char>)
    ensures
        contains_text(before + part + after, part),
{
    let s = before + part + after;
    let at = before.len() as int;
    assert(s.subrange(at, at + part.len()) =~= part);
    assert(occurs_at(s, part, at));
}

/// A part of a part is a part of the whole.
proof fn lemma_part_within(before: Seq<char>, middle: Seq<char>, after: Seq<char>, part: Seq<char>)
    requires
        contains_text(middle, part),
    ensures
        contains_text(before + middle + after, part),
{
    let at = choose|at: int| occurs_at(middle, part, at);
    let s = before + middle + after;
    let from = before.len() + at;
    assert(s.subrange(from, from + part.len()) =~= middle.subrange(at, at + part.len()));
    assert(occurs_at(s, part, from));
}

/// A hint stands at the end of the requirement, says whether that is up to date and what the
/// latest version is, and leads to the package's page.
pub proof fn law_hint_tells_the_latest_version<H: EcosystemHandler>(
    dep: PendingModel,
    latest: Seq<char>,
    config: &InlayHintsConfig,
)
    ensures
        ({
            let hint = hint_for::<H>(dep, latest, config);
            let url = H::spec_package_url(dep.name);
            &&& hint.position == dep.version_range.end
            &&& hint.url == url
            &&& H::spec_version_latest(dep.version_req, latest) ==> hint.label
                == config.up_to_date_text@
            &&& !H::spec_version_latest(dep.version_req, latest) ==> hint.label == replaced(
                config.needs_update_text@,
                seq!['{', '}'],
                latest,
            )
            &&& contains_text(hint.tooltip, dep.name)
            &&& contains_text(hint.tooltip, url)
            &&& contains_text(hint.tooltip, latest)
            &&& contains_text(hint.command_title, H::spec_display_name())
        }),
{
    reveal_strlit("{}");
    assert("{}"@ =~= seq!['{', '}']);
    let url = H::spec_package_url(dep.name);
    let hint = hint_for::<H>(dep, latest, config);
    let tail = "]("@ + url + ") - "@ + url + "\n\nLatest: **"@ + latest + "**"@;
    lemma_part("["@, dep.name, tail);
    assert("["@ + dep.name + tail =~= hint.tooltip);
    let rest = ") - "@ + url + "\n\nLatest: **"@ + latest + "**"@;
    lemma_part("["@ + dep.name + "]("@, url, rest);
    assert("["@ + dep.name + "]("@ + url + rest =~= hint.tooltip);
    lemma_part("["@ + dep.name + "]("@ + url + ") - "@ + url + "\n\nLatest: **"@, latest, "**"@);
    let none = Seq::<char>::empty();
    lemma_part("Open on "@, H::spec_display_name(), none);
    assert("Open on "@ + H::spec_display_name() + none =~= hint.command_title);
}

/// The hover text shows the package's name and page, the requirement, up to eight versions and
/// up to ten features, and how many of either it leaves out.
pub proof fn law_hover_shows_versions_and_features<H: EcosystemHandler, V: VersionInfo>(
    dep: &H::Dependency,
    versions: Seq<V>,
    i: int,
)
    requires
        versions.len() > 0,
    ensures
        ({
            let text = hover_markdown::<H, V>(dep, versions);
            let features = versions[0].spec_features();
            &&& contains_text(text, dep.spec_name())
            &&& contains_text(text, H::spec_package_url(dep.spec_name()))
            &&& dep.spec_version_requirement() matches Some(req) ==> contains_text(text, req)
            &&& 0 <= i < versions.len() && i < 8 ==> contains_text(
                text,
                versions[i].spec_version_string(),
            )
            &&& versions.len() > 8 ==> contains_text(text, decimal((versions.len() - 8) as nat))
            &&& 0 <= i < features.len() && i < 10 ==> contains_text(text, features[i])
            &&& features.len() > 10 ==> contains_text(text, decimal((features.len() - 10) as nat))
        }),
{
    let name = dep.spec_name();
    let url = H::spec_package_url(name);
    let features = versions[0].spec_features();
    let yanked = versions[0].spec_is_yanked();
    let head = hover_head(name, url, dep.spec_version_requirement(), yanked);
    let title = "**Versions** *(use Cmd+. to update)*:\n"@;
    let listed = version_lines(versions, at_most(versions.len(), 8));
    let more = more_line(versions.len(), 8);
    let below = hover_features(features);
    let text = hover_markdown::<H, V>(dep, versions);
    let none = Seq::<char>::empty();
    assert(none + head + (title + listed + more + below) =~= text);
    lemma_hover_head(name, url, dep.spec_version_requirement(), yanked);
    lemma_part_within(none, head, title + listed + more + below, name);
    lemma_part_within(none, head, title + listed + more + below, url);
    if let Some(req) = dep.spec_version_requirement() {
        lemma_part_within(none, head, title + listed + more + below, req);
    }
    if 0 <= i < versions.len() && i < 8 {
        lemma_version_is_listed(versions, at_most(versions.len(), 8), i);
        lemma_part_within(head + title, listed, more + below, versions[i].spec_version_string());
        assert(head + title + listed + (more + below) =~= text);
    }
    if versions.len() > 8 {
        let left = decimal((versions.len() - 8) as nat);
        lemma_part("- *...and "@, left, " more*\n"@);
        lemma_part_within(head + title + listed, more, below, left);
    }
    if 0 <= i < features.len() && i < 10 {
        let shown = feature_lines(features, at_most(features.len(), 10));
        lemma_feature_is_listed(features, at_most(features.len(), 10), i);
        lemma_part_within("\n**Features**:\n"@, shown, more_line(features.len(), 10), features[i]);
        lemma_part_within(head + title + listed + more, below, none, features[i]);
        assert(head + title + listed + more + below + none =~= text);
    }
    if features.len() > 10 {
        let left = decimal((features.len() - 10) as nat);
        let shown = feature_lines(features, at_most(features.len(), 10));
        let line = more_line(features.len(), 10);
        lemma_part("- *...and "@, left, " more*\n"@);
        lemma_part_within("\n**Features**:\n"@ + shown, line, none, left);
        assert("\n**Features**:\n"@ + shown + line + none =~= below);
        lemma_part_within(head + title + listed + more, below, none, left);
        assert(head + title + listed + more + below + none =~= text);
    }
}

proof fn lemma_hover_head(
    name: Seq<char>,
    url: Seq<char>,
    current: Option<Seq<char>>,
    yanked: bool,
)
    ensures
        contains_text(hover_head(name, url, current, yanked), name),
        contains_text(hover_head(name, url, current, yanked), url),
        current matches Some(req) ==> contains_text(hover_head(name, url, current, yanked), req),
{
    let head = hover_head(name, url, current, yanked);
    let none = Seq::<char>::empty();
    let title = "# ["@ + name + "]("@ + url + ")\n\n"@;
    let with_current = match current {
        Some(current) => title + "**Current**: `"@ + current + "`\n\n"@,
        None => title,
    };
    let warning = if yanked {
        "⚠️ **Warning**: This version has been yanked\n\n"@
    } else {
        none
    };
    assert(none + with_current + warning =~= head);
    lemma_part("# ["@, name, "]("@ + url + ")\n\n"@);
    assert("# ["@ + name + ("]("@ + url + ")\n\n"@) =~= title);
    lemma_part("# ["@ + name + "]("@, url, ")\n\n"@);
    if let Some(req) = current {
        lemma_part_within(none, title, "**Current**: `"@ + req + "`\n\n"@, name);
        lemma_part_within(none, title, "**Current**: `"@ + req + "`\n\n"@, url);
        assert(none + title + ("**Current**: `"@ + req + "`\n\n"@) =~= with_current);
        lemma_part(title + "**Current**: `"@, req, "`\n\n"@);
        lemma_part_within(none, with_current, warning, req);
    }
    lemma_part_within(none, with_current, warning, name);
    lemma_part_within(none, with_current, warning, url);
}

proof fn lemma_version_is_listed<V: VersionInfo>(versions: Seq<V>, n: int, i: int)
    requires
        0 <= i < n <= versions.len(),
    ensures
        contains_text(version_lines(versions, n), versions[i].spec_version_string()),
    decreases n,
{
    let none = Seq::<char>::empty();
    let text = versions[n - 1].spec_version_string();
    let before = version_lines(versions, n - 1);
    let line = if n == 1 {
        "- "@ + text + " *(latest)*\n"@
    } else {
        "- "@ + text + "\n"@
    };
    if i < n - 1 {
        lemma_version_is_listed(versions, n - 1, i);
        lemma_part_within(none, before, line, versions[i].spec_version_string());
        assert(none + before + line =~= version_lines(versions, n));
    } else {
        lemma_part("- "@, text, " *(latest)*\n"@);
        lemma_part("- "@, text, "\n"@);
        lemma_part_within(before, line, none, text);
        assert(before + line + none =~= version_lines(versions, n));
    }
}

proof fn lemma_feature_is_listed(features: Seq<Seq<char>>, n: int, i: int)
    requires
        0 <= i < n <= features.len(),
    ensures
        contains_text(feature_lines(features, n), features[i]),
    decreases n,
{
    let none = Seq::<char>::empty();
    let before = feature_lines(features, n - 1);
    let line = "- `"@ + features[n - 1] + "`\n"@;
    if i < n - 1 {
        lemma_feature_is_listed(features, n - 1, i);
        lemma_part_within(none, before, line, features[i]);
        assert(none + before + line =~= feature_lines(features, n));
    } else {
        lemma_part("- `"@, features[i], "`\n"@);
        lemma_part_within(before, line, none, features[i]);
        assert(before + line + none =~= feature_lines(features, n));
    }
}

/// A yanked version is warned of, and the first version is marked as the latest: the text above
/// and the list differ by nothing else.
pub proof fn law_hover_warns_of_a_yanked_version(
    name: Seq<char>,
    url: Seq<char>,
    current: Option<Seq<char>>,
)
    ensures
        hover_head(name, url, current, true) == hover_head(name, url, current, false)
            + "⚠️ **Warning**: This version has been yanked\n\n"@,
{
}

/// The dependencies to be fetched are those hintable ones that the cache does not know, in order;
/// the ones at hand are the others, in order.
pub proof fn law_dependencies_keep_their_order<
    H: EcosystemHandler,
    U,
    V: VersionStringGetter + YankedChecker,
>(deps: Seq<U>, cached: Seq<(String, V)>)
    ensures
        pending_part::<H, U, V>(deps, cached) == deps.filter(
            |d: U| hintable::<H, U>(&d) matches Some(p) && !is_cached(cached, p.name),
        ).map_values(|d: U| hintable::<H, U>(&d)->0),
        cached_part::<H, U, V>(deps, cached).map_values(
            |c: CachedModel|
                PendingModel {
                    name: c.name,
                    version_req: c.version_req,
                    version_range: c.version_range,
                },
        ) == deps.filter(
            |d: U| hintable::<H, U>(&d) matches Some(p) && is_cached(cached, p.name),
        ).map_values(|d: U| hintable::<H, U>(&d)->0),
    decreases deps.len(),
{
    reveal(Seq::filter);
    let open = |d: U| hintable::<H, U>(&d) matches Some(p) && !is_cached(cached, p.name);
    let known = |d: U| hintable::<H, U>(&d) matches Some(p) && is_cached(cached, p.name);
    let model = |d: U| hintable::<H, U>(&d)->0;
    let cut = |c: CachedModel|
        PendingModel { name: c.name, version_req: c.version_req, version_range: c.version_range };
    let pending = pending_part::<H, U, V>(deps, cached);
    let ready = cached_part::<H, U, V>(deps, cached);
    if deps.len() == 0 {
        assert(pending =~= deps.filter(open).map_values(model));
        assert(ready.map_values(cut) =~= deps.filter(known).map_values(model));
    } else {
        let rest = deps.drop_last();
        let before = cached_part::<H, U, V>(rest, cached);
        law_dependencies_keep_their_order::<H, U, V>(rest, cached);
        if open(deps.last()) {
            assert(deps.filter(open).map_values(model) =~= rest.filter(open).map_values(
                model,
            ).push(model(deps.last())));
        }
        if known(deps.last()) {
            assert(deps.filter(known).map_values(model) =~= rest.filter(known).map_values(
                model,
            ).push(model(deps.last())));
            assert(ready.map_values(cut) =~= before.map_values(cut).push(model(deps.last())));
        }
    }
}

/// Versions beyond the eighth do not show in the hover text, nor do features beyond the tenth:
/// only how many there are.
pub proof fn law_hover_is_cut<H: EcosystemHandler, V: VersionInfo>(
    dep: &H::Dependency,
    versions: Seq<V>,
    others: Seq<V>,
)
    requires
        versions.len() == others.len(),
        versions.len() > 0,
        forall|i: int|
            0 <= i < versions.len() && i < 8 ==> (
            #[trigger] versions[i]).spec_version_string() == others[i].spec_version_string(),
        versions[0].spec_is_yanked() == others[0].spec_is_yanked(),
        versions[0].spec_features().len() == others[0].spec_features().len(),
        forall|i: int|
            0 <= i < versions[0].spec_features().len() && i < 10
                ==> #[trigger] versions[0].spec_features()[i] == others[0].spec_features()[i],
    ensures
        hover_markdown::<H, V>(dep, versions) == hover_markdown::<H, V>(dep, others),
{
    let n = at_most(versions.len(), 8);
    lemma_same_version_lines(versions, others, n);
    let m = at_most(versions[0].spec_features().len(), 10);
    lemma_same_feature_lines(versions[0].spec_features(), others[0].spec_features(), m);
}

proof fn lemma_same_version_lines<V: VersionInfo>(versions: Seq<V>, others: Seq<V>, n: int)
    requires
        n <= versions.len(),
        versions.len() == others.len(),
        forall|i: int|
            0 <= i < n ==> (#[trigger] versions[i]).spec_version_string()
                == others[i].spec_version_string(),
    ensures
        version_lines(versions, n) == version_lines(others, n),
    decreases n,
{
    if n > 0 {
        lemma_same_version_lines(versions, others, n - 1);
        assert(versions[n - 1].spec_version_string() == others[n - 1].spec_version_string());
    }
}

proof fn lemma_same_feature_lines(features: Seq<Seq<char>>, others: Seq<Seq<char>>, n: int)
    requires
        n <= features.len(),
        features.len() == others.len(),
        forall|i: int| 0 <= i < n ==> #[trigger] features[i] == others[i],
    ensures
        feature_lines(features, n) == feature_lines(others, n),
    decreases n,
{
    if n > 0 {
        lemma_same_feature_lines(features, others, n - 1);
        assert(features[n - 1] == others[n - 1]);
    }
}

/// Each version has its line, behind those of the versions before it; the first line alone is
/// marked as the latest.
pub proof fn law_versions_are_listed_in_order<V: VersionInfo>(versions: Seq<V>, n: int)
    ensures
        version_lines(versions, 0).len() == 0,
        version_lines(versions, 1) == "- "@ + versions[0].spec_version_string()
            + " *(latest)*\n"@,
        n >= 1 ==> version_lines(versions, n + 1) == version_lines(versions, n) + ("- "@
            + versions[n].spec_version_string() + "\n"@),
{
    let none = version_lines(versions, 0);
    let line = "- "@ + versions[0].spec_version_string() + " *(latest)*\n"@;
    assert(version_lines(versions, 1) == none + line);
    assert(none + line =~= line);
}

/// The contents of a dependency and of a hint are those of their fields.
pub proof fn law_contents_of_dependencies_and_hints(
    ready: CachedDependency,
    pending: PendingDependency,
    hint: InlayHint,
)
    ensures
        ready@.name == ready.name@ && ready@.version_req == ready.version_req@,
        ready@.version_range == ready.version_range && ready@.is_yanked == ready.is_yanked,
        ready@.latest_version == ready.latest_version@,
        pending@.name == pending.name@ && pending@.version_req == pending.version_req@,
        pending@.version_range == pending.version_range,
        hint@.position == hint.position && hint@.label == hint.label@,
        hint@.tooltip == hint.tooltip@ && hint@.url == hint.url@,
        hint@.command == hint.command@ && hint@.command_title == hint.command_title@,
{
}

/// A list that was not cut has no line that counts what was left out; that of a cut list counts
/// exactly what does not show.
pub proof fn law_what_was_left_out_is_counted(cap: nat, shown: nat, hidden: nat)
    requires
        shown <= cap,
        hidden > 0,
    ensures
        more_line(shown, cap).len() == 0,
        more_line(cap + hidden, cap) == "- *...and "@ + decimal(hidden) + " more*\n"@,
        at_most(shown, cap as int) == shown,
        at_most(cap + hidden, cap as int) == cap,
{
}

} // verus!
