//! The ecosystem-specific rules that edit planning consults.

use crate::ecosystem::{Dependency, EcosystemId};
use crate::text::same_text;
use vstd::prelude::*;

verus! {

/// The text of an optional string slice.
pub open spec fn option_text(o: Option<&str>) -> Option<Seq<char>> {
    match o {
        Some(s) => Some(s@),
        None => None,
    }
}

/// The text of an optional string.
pub open spec fn option_string(o: Option<String>) -> Option<Seq<char>> {
    match o {
        Some(s) => Some(s@),
        None => None,
    }
}

/// How a declared requirement stands to the latest version.
#[derive(Debug, Clone, Copy, PartialEq, Eq, Structural)]
pub enum RequirementStatus {
    /// The requirement covers the latest version.
    UpToDate,
    /// The requirement leaves the latest version out.
    Outdated,
    /// The two cannot be compared.
    Unresolved,
}

/// A concrete version, as a registry spells it.
#[derive(Debug, Clone, PartialEq, Eq)]
pub struct ConcreteVersion(String);

impl ConcreteVersion {
    /// The version's text.
    pub closed spec fn text(&self) -> Seq<char> {
        self.0@
    }

    /// The version spelled `version`.
    pub fn new(version: &str) -> (r: Self)
        ensures
            r.text() == version@,
    {
        ConcreteVersion(version.to_owned())
    }

    /// The version's text.
    pub fn as_str(&self) -> (r: &str)
        ensures
            r@ == self.text(),
    {
        self.0.as_str()
    }
}

/// Package versions by package name. A name holds one version, the one recorded last.
pub struct VersionTable {
    entries: Vec<(String, String)>,
}

/// What a list of records says when later records replace earlier ones of the same name.
pub open spec fn recorded_versions(entries: Seq<(String, String)>) -> Map<Seq<char>, Seq<char>>
    decreases entries.len(),
{
    if entries.len() == 0 {
        Map::empty()
    } else {
        recorded_versions(entries.drop_last()).insert(entries.last().0@, entries.last().1@)
    }
}

impl View for VersionTable {
    type V = Map<Seq<char>, Seq<char>>;

    closed spec fn view(&self) -> Map<Seq<char>, Seq<char>> {
        recorded_versions(self.entries@)
    }
}

impl VersionTable {
    /// A table without entries.
    pub fn new() -> (r: Self)
        ensures
            r@ == Map::<Seq<char>, Seq<char>>::empty(),
    {
        VersionTable { entries: Vec::new() }
    }

    /// Records `version` for `name`, in place of what was recorded for it before.
    pub fn insert(&mut self, name: &str, version: &str)
        ensures
            final(self)@ == old(self)@.insert(name@, version@),
    {
        let ghost before = self.entries@;
        self.entries.push((name.to_owned(), version.to_owned()));
        proof {
            assert(self.entries@.drop_last() =~= before);
        }
    }

    /// The version recorded for `name`.
    pub fn get(&self, name: &str) -> (r: Option<&str>)
        ensures
            option_text(r) == (if self@.dom().contains(name@) {
                Some(self@[name@])
            } else {
                None
            }),
    {
        let mut i: usize = self.entries.len();
        proof {
            assert(self.entries@.take(i as int) =~= self.entries@);
        }
        while i > 0
            invariant
                i <= self.entries@.len(),
                recorded_versions(self.entries@.take(i as int)).dom().contains(name@)
                    == self@.dom().contains(name@),
                self@.dom().contains(name@) ==> recorded_versions(
                    self.entries@.take(i as int),
                )[name@] == self@[name@],
            decreases i,
        {
            proof {
                assert(self.entries@.take(i as int).drop_last() =~= self.entries@.take(i - 1));
                assert(self.entries@.take(i as int).last() == self.entries@[i - 1]);
            }
            i -= 1;
            if same_text(self.entries[i].0.as_str(), name) {
                return Some(self.entries[i].1.as_str());
            }
        }
        None
    }
}

/// The version knowledge that planning works from.
pub struct VersionData<'a> {
    /// The latest version of each package, as the registry reported it.
    pub cached: &'a VersionTable,
    /// The version that the lock file resolves each package to.
    pub resolved: &'a VersionTable,
    /// Every version that the lock file holds for a package, by package name.
    pub resolved_version_candidates: &'a [(String, Vec<String>)],
    /// The ecosystem of the manifest, where it is known.
    pub ecosystem: Option<EcosystemId>,
}

/// The naming, rendering and requirement rules of one ecosystem.
///
/// Each rule is a function of what it is asked about; the `spec_*` functions name its answer.
/// They are left open here: a verified implementation says what its answers are.
pub trait EcosystemFormatter {
    /// The answer of [`Self::normalize_package_name`].
    open spec fn spec_normalized(&self, name: Seq<char>) -> Seq<char> {
        arbitrary()
    }

    /// The answer of [`Self::requirement_is_placeholder`].
    open spec fn spec_placeholder(&self, requirement: Seq<char>) -> bool {
        arbitrary()
    }

    /// The answer of [`Self::requirement_status_for`].
    open spec fn spec_status<D: Dependency>(
        &self,
        dep: &D,
        requirement: Seq<char>,
        latest: Seq<char>,
    ) -> RequirementStatus {
        arbitrary()
    }

    /// The answer of [`Self::requirement_already_resolves_to`].
    open spec fn spec_already_resolves(&self, requirement: Seq<char>, target: Seq<char>) -> bool {
        arbitrary()
    }

    /// The answer of [`Self::format_version_replacing_for`].
    open spec fn spec_replacing<D: Dependency>(
        &self,
        dep: &D,
        version: Seq<char>,
        current: Seq<char>,
    ) -> Seq<char> {
        arbitrary()
    }

    /// The answer of [`Self::osv_version_to_native`].
    open spec fn spec_native(&self, version: Seq<char>) -> Seq<char> {
        arbitrary()
    }

    /// The answer of [`Self::is_safe_version_string`].
    open spec fn spec_safe(&self, version: Seq<char>) -> bool {
        arbitrary()
    }

    /// The answer of [`Self::resolve_in_use_version`].
    open spec fn spec_in_use<D: Dependency>(
        &self,
        dep: &D,
        normalized_name: Seq<char>,
        versions: &VersionData,
        ecosystem: EcosystemId,
    ) -> Option<Seq<char>> {
        arbitrary()
    }

    /// The form of `name` that versions are recorded under.
    fn normalize_package_name(&self, name: &str) -> (r: String)
        ensures
            r@ == self.spec_normalized(name@),
    ;

    /// Whether `requirement` is an unexpanded placeholder or interpolation.
    fn requirement_is_placeholder(&self, requirement: &str) -> (r: bool)
        ensures
            r == self.spec_placeholder(requirement@),
    ;

    /// How `requirement` stands to `latest`.
    fn requirement_status_for<D: Dependency>(
        &self,
        dep: &D,
        requirement: &str,
        latest: &str,
    ) -> (r: RequirementStatus)
        ensures
            r == self.spec_status(dep, requirement@, latest@),
    ;

    /// Whether `requirement`, left unedited, already resolves forward to `target`.
    fn requirement_already_resolves_to(&self, requirement: &str, target: &str) -> (r: bool)
        ensures
            r == self.spec_already_resolves(requirement@, target@),
    ;

    /// The text that replaces `current` so that the dependency asks for `version`.
    fn format_version_replacing_for<D: Dependency>(
        &self,
        dep: &D,
        version: &str,
        current: &str,
    ) -> (r: String)
        ensures
            r@ == self.spec_replacing(dep, version@, current@),
    ;

    /// An advisory's version in this ecosystem's own spelling.
    fn osv_version_to_native(&self, version: &str) -> (r: String)
        ensures
            r@ == self.spec_native(version@),
    ;

    /// Whether `version` may be written into a manifest.
    fn is_safe_version_string(&self, version: &str) -> (r: bool)
        ensures
            r == self.spec_safe(version@),
    ;

    /// The version that this occurrence of the dependency is pinned to, where it can be told.
    fn resolve_in_use_version<D: Dependency>(
        &self,
        dep: &D,
        normalized_name: &str,
        versions: &VersionData,
        ecosystem: EcosystemId,
    ) -> (r: Option<String>)
        ensures
            option_string(r) == self.spec_in_use(dep, normalized_name@, versions, ecosystem),
    ;
}

} // verus!
