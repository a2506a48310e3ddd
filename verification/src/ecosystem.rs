//! Ecosystem identities and what a parsed manifest offers.

use crate::error::DepsError;
use crate::formatter::option_text;
use crate::position::Range;
use crate::text::same_text;
use vstd::prelude::*;

pub mod private;

verus! {

/// One of the supported package ecosystems.
#[derive(Debug, Clone, Copy, PartialEq, Eq, Hash, Structural)]
pub enum EcosystemId {
    /// Rust, Cargo.
    Cargo,
    /// JavaScript, npm.
    Npm,
    /// Python, PyPI.
    Pypi,
    /// Go modules.
    Go,
    /// Ruby, Bundler.
    Bundler,
    /// Dart, pub.
    Dart,
    /// Java, Maven.
    Maven,
    /// PHP, Composer.
    Composer,
    /// Java and Kotlin, Gradle.
    Gradle,
    /// Swift packages.
    Swift,
    /// .NET, NuGet.
    NuGet,
    /// Deno.
    Deno,
    /// GitHub Actions workflows.
    GithubActions,
    /// GitLab CI pipelines.
    GitlabCi,
}

/// The stable identifier of an ecosystem.
pub open spec fn ecosystem_id(e: EcosystemId) -> Seq<char> {
    match e {
        EcosystemId::Cargo => "cargo"@,
        EcosystemId::Npm => "npm"@,
        EcosystemId::Pypi => "pypi"@,
        EcosystemId::Go => "go"@,
        EcosystemId::Bundler => "bundler"@,
        EcosystemId::Dart => "dart"@,
        EcosystemId::Maven => "maven"@,
        EcosystemId::Composer => "composer"@,
        EcosystemId::Gradle => "gradle"@,
        EcosystemId::Swift => "swift"@,
        EcosystemId::NuGet => "nuget"@,
        EcosystemId::Deno => "deno"@,
        EcosystemId::GithubActions => "github-actions"@,
        EcosystemId::GitlabCi => "gitlab-ci"@,
    }
}

/// The name of an ecosystem in OSV, which tracks some ecosystems under a shared name.
pub open spec fn osv_name(e: EcosystemId) -> Option<Seq<char>> {
    match e {
        EcosystemId::Cargo => Some("crates.io"@),
        EcosystemId::Npm => Some("npm"@),
        EcosystemId::Deno => Some("npm"@),
        EcosystemId::Pypi => Some("PyPI"@),
        EcosystemId::Go => Some("Go"@),
        EcosystemId::Bundler => Some("RubyGems"@),
        EcosystemId::Dart => Some("Pub"@),
        EcosystemId::Maven => Some("Maven"@),
        EcosystemId::Gradle => Some("Maven"@),
        EcosystemId::Composer => Some("Packagist"@),
        EcosystemId::Swift => Some("SwiftURL"@),
        EcosystemId::NuGet => Some("NuGet"@),
        EcosystemId::GithubActions => Some("GitHub Actions"@),
        EcosystemId::GitlabCi => None,
    }
}

impl EcosystemId {
    /// Every ecosystem, once.
    pub fn all() -> (r: Vec<EcosystemId>)
        ensures
            r@ == all_ecosystems(),
    {
        let r = vec![
            EcosystemId::Cargo,
            EcosystemId::Npm,
            EcosystemId::Pypi,
            EcosystemId::Go,
            EcosystemId::Bundler,
            EcosystemId::Dart,
            EcosystemId::Maven,
            EcosystemId::Composer,
            EcosystemId::Gradle,
            EcosystemId::Swift,
            EcosystemId::NuGet,
            EcosystemId::Deno,
            EcosystemId::GithubActions,
            EcosystemId::GitlabCi,
        ];
        proof {
            assert(r@ =~= all_ecosystems());
        }
        r
    }

    /// The stable identifier.
    #[must_use]
    pub fn id(self) -> (r: &'static str)
        ensures
            r@ == ecosystem_id(self),
    {
        match self {
            EcosystemId::Cargo => "cargo",
            EcosystemId::Npm => "npm",
            EcosystemId::Pypi => "pypi",
            EcosystemId::Go => "go",
            EcosystemId::Bundler => "bundler",
            EcosystemId::Dart => "dart",
            EcosystemId::Maven => "maven",
            EcosystemId::Composer => "composer",
            EcosystemId::Gradle => "gradle",
            EcosystemId::Swift => "swift",
            EcosystemId::NuGet => "nuget",
            EcosystemId::Deno => "deno",
            EcosystemId::GithubActions => "github-actions",
            EcosystemId::GitlabCi => "gitlab-ci",
        }
    }

    /// The ecosystem whose identifier is `s`.
    ///
    /// # Errors
    ///
    /// [`DepsError::UnsupportedEcosystem`] with `s` when no ecosystem has that identifier.
    pub fn from_id(s: &str) -> (r: Result<EcosystemId, DepsError>)
        ensures
            match r {
                Ok(e) => ecosystem_id(e) == s@,
                Err(err) => (forall|e: EcosystemId| #[trigger] ecosystem_id(e) != s@) && (
                err matches DepsError::UnsupportedEcosystem(name) && name@ == s@),
            },
    {
        let all = EcosystemId::all();
        let mut i: usize = 0;
        while i < all.len()
            invariant
                i <= all@.len(),
                all@ == all_ecosystems(),
                forall|k: int| 0 <= k < i ==> ecosystem_id(#[trigger] all@[k]) != s@,
            decreases all@.len() - i,
        {
            if same_text(all[i].id(), s) {
                return Ok(all[i]);
            }
            i += 1;
        }
        proof {
            assert forall|e: EcosystemId| #[trigger] ecosystem_id(e) != s@ by {
                law_all_ecosystems_listed(e);
                let k = choose|k: int| 0 <= k < all_ecosystems().len() && all_ecosystems()[k] == e;
                assert(ecosystem_id(all@[k]) != s@);
            }
        }
        Err(DepsError::UnsupportedEcosystem(s.to_owned()))
    }

    /// The identifier as owned text.
    #[must_use]
    pub fn to_string(&self) -> (r: String)
        ensures
            r@ == ecosystem_id(*self),
    {
        (*self).id().to_owned()
    }

    /// The ecosystem's name in OSV, `None` where advisories cannot be looked up by name.
    #[must_use]
    pub fn osv_ecosystem(self) -> (r: Option<&'static str>)
        ensures
            option_text(r) == osv_name(self),
    {
        match self {
            EcosystemId::Cargo => Some("crates.io"),
            EcosystemId::Npm | EcosystemId::Deno => Some("npm"),
            EcosystemId::Pypi => Some("PyPI"),
            EcosystemId::Go => Some("Go"),
            EcosystemId::Bundler => Some("RubyGems"),
            EcosystemId::Dart => Some("Pub"),
            EcosystemId::Maven | EcosystemId::Gradle => Some("Maven"),
            EcosystemId::Composer => Some("Packagist"),
            EcosystemId::Swift => Some("SwiftURL"),
            EcosystemId::NuGet => Some("NuGet"),
            EcosystemId::GithubActions => Some("GitHub Actions"),
            // A git tag or release pin has no OSV coordinate by name.
            EcosystemId::GitlabCi => None,
        }
    }
}

impl std::str::FromStr for EcosystemId {
    type Err = DepsError;

    fn from_str(s: &str) -> (r: Result<Self, DepsError>)
        ensures
            match r {
                Ok(e) => ecosystem_id(e) == s@,
                Err(err) => (forall|e: EcosystemId| #[trigger] ecosystem_id(e) != s@) && (
                err matches DepsError::UnsupportedEcosystem(name) && name@ == s@),
            },
    {
        EcosystemId::from_id(s)
    }
}

/// Every ecosystem, once.
pub open spec fn all_ecosystems() -> Seq<EcosystemId> {
    seq![
        EcosystemId::Cargo,
        EcosystemId::Npm,
        EcosystemId::Pypi,
        EcosystemId::Go,
        EcosystemId::Bundler,
        EcosystemId::Dart,
        EcosystemId::Maven,
        EcosystemId::Composer,
        EcosystemId::Gradle,
        EcosystemId::Swift,
        EcosystemId::NuGet,
        EcosystemId::Deno,
        EcosystemId::GithubActions,
        EcosystemId::GitlabCi,
    ]
}

/// Every ecosystem is in the list of all.
pub proof fn law_all_ecosystems_listed(e: EcosystemId)
    ensures
        all_ecosystems().contains(e),
{
    let all = all_ecosystems();
    assert(all.contains(all[0]) && all.contains(all[1]) && all.contains(all[2]) && all.contains(
        all[3],
    ) && all.contains(all[4]) && all.contains(all[5]) && all.contains(all[6]) && all.contains(
        all[7],
    ) && all.contains(all[8]) && all.contains(all[9]) && all.contains(all[10]) && all.contains(
        all[11],
    ) && all.contains(all[12]) && all.contains(all[13]));
}

/// An identifier names one ecosystem: whatever has the identifier of an ecosystem is that
/// ecosystem.
#[verifier::spinoff_prover]
pub proof fn law_identifiers_are_distinct(a: EcosystemId, b: EcosystemId)
    requires
        ecosystem_id(a) == ecosystem_id(b),
    ensures
        a == b,
{
    reveal_strlit("cargo");
    reveal_strlit("npm");
    reveal_strlit("pypi");
    reveal_strlit("go");
    reveal_strlit("bundler");
    reveal_strlit("dart");
    reveal_strlit("maven");
    reveal_strlit("composer");
    reveal_strlit("gradle");
    reveal_strlit("swift");
    reveal_strlit("nuget");
    reveal_strlit("deno");
    reveal_strlit("github-actions");
    reveal_strlit("gitlab-ci");
    let x = ecosystem_id(a);
    let y = ecosystem_id(b);
    assert(x.len() == y.len());
    assert(x[0] == y[0]);
    assert(x[1] == y[1]);
}

/// Display configuration of an ecosystem's hints.
#[derive(Debug, Clone)]
pub struct EcosystemConfig {
    /// Whether a hint is shown for an up-to-date dependency.
    pub show_up_to_date_hints: bool,
    /// The hint for an up-to-date dependency.
    pub up_to_date_text: String,
    /// The hint for an outdated dependency; `{}` stands for the latest version.
    pub needs_update_text: String,
    /// The hint while versions are being fetched.
    pub loading_text: String,
    /// Whether a hint is shown while versions are being fetched.
    pub show_loading_hints: bool,
    /// Whether the network is switched off.
    pub offline: bool,
}

impl Default for EcosystemConfig {
    fn default() -> (r: Self)
        ensures
            r.show_up_to_date_hints,
            r.up_to_date_text@ == "✅"@,
            r.needs_update_text@ == "❌ {}"@,
            r.loading_text@ == "⏳"@,
            r.show_loading_hints,
            !r.offline,
    {
        EcosystemConfig {
            show_up_to_date_hints: true,
            up_to_date_text: "✅".to_owned(),
            needs_update_text: "❌ {}".to_owned(),
            loading_text: "⏳".to_owned(),
            show_loading_hints: true,
            offline: false,
        }
    }
}

/// Where an ecosystem's license data comes from.
#[derive(Debug, Clone, Copy, PartialEq, Eq, Structural)]
pub enum LicenseSource {
    /// Declared as SPDX in the registry response that is fetched anyway.
    RegistryDeclaredSpdx,
    /// Declared as SPDX, in a response of its own.
    FetchedDeclaredSpdx,
    /// Detected from the sources.
    DetectedSpdx,
    /// Free text of a POM file.
    PomFreeText,
}

impl Default for LicenseSource {
    fn default() -> (r: Self)
        ensures
            r == LicenseSource::RegistryDeclaredSpdx,
    {
        LicenseSource::RegistryDeclaredSpdx
    }
}

impl LicenseSource {
    /// Whether license data takes a request of its own.
    #[must_use]
    pub fn requires_dedicated_fetch(self) -> (r: bool)
        ensures
            r == (self != LicenseSource::RegistryDeclaredSpdx),
    {
        match self {
            LicenseSource::RegistryDeclaredSpdx => false,
            LicenseSource::FetchedDeclaredSpdx | LicenseSource::DetectedSpdx
            | LicenseSource::PomFreeText => true,
        }
    }
}

/// One dependency of a parsed manifest.
///
/// The `spec_*` functions name the answers of the methods. They are left open here: a verified
/// implementation says what its answers are.
pub trait Dependency {
    /// The answer of [`Self::name`].
    open spec fn spec_name(&self) -> Seq<char> {
        arbitrary()
    }

    /// The answer of [`Self::name_range`].
    open spec fn spec_name_range(&self) -> Range {
        arbitrary()
    }

    /// The answer of [`Self::version_requirement`].
    open spec fn spec_version_requirement(&self) -> Option<Seq<char>> {
        arbitrary()
    }

    /// The answer of [`Self::version_range`].
    open spec fn spec_version_range(&self) -> Option<Range> {
        arbitrary()
    }

    /// The answer of [`Self::version_literal`].
    open spec fn spec_version_literal(&self) -> Option<Seq<char>> {
        arbitrary()
    }

    /// The declared name.
    fn name(&self) -> (r: &str)
        ensures
            r@ == self.spec_name(),
    ;

    /// Where the name stands in the manifest.
    fn name_range(&self) -> (r: Range)
        ensures
            r == self.spec_name_range(),
    ;

    /// The declared version requirement.
    fn version_requirement(&self) -> (r: Option<&str>)
        ensures
            option_text(r) == self.spec_version_requirement(),
    ;

    /// Where the version requirement stands in the manifest.
    fn version_range(&self) -> (r: Option<Range>)
        ensures
            r == self.spec_version_range(),
    ;

    /// The literal text in the manifest where it differs from the requirement, as for a
    /// requirement that was synthesized from an interpolation.
    fn version_literal(&self) -> (r: Option<&str>)
        ensures
            option_text(r) == self.spec_version_literal(),
    ;

    /// The enabled features: none unless the ecosystem has them.
    fn features(&self) -> (r: Vec<String>)
        default_ensures
            r@.len() == 0,
    {
        Vec::new()
    }

    /// Where the features stand in the manifest.
    fn features_range(&self) -> (r: Option<Range>)
        default_ensures
            r is None,
    {
        None
    }

    /// The environment markers: none unless the ecosystem has them.
    fn markers(&self) -> (r: Option<&str>)
        default_ensures
            r is None,
    {
        None
    }

    /// Where the markers stand in the manifest.
    fn markers_range(&self) -> (r: Option<Range>)
        default_ensures
            r is None,
    {
        None
    }
}

/// What parsing a manifest yields. `spec_dependencies` is left open for implementations.
pub trait ParseResult {
    /// The dependency type of the ecosystem.
    type Dep: Dependency;

    /// The answer of [`Self::dependencies`].
    open spec fn spec_dependencies(&self) -> Seq<Self::Dep> {
        arbitrary()
    }

    /// The dependencies, in manifest order.
    fn dependencies(&self) -> (r: &[Self::Dep])
        ensures
            r@ == self.spec_dependencies(),
    ;
}

/// Advisories of two ecosystems are looked up under one name exactly where the two share a
/// registry: Deno's packages are npm's, and Gradle's are Maven's. Only GitLab CI has none.
pub proof fn law_shared_registries_share_advisories(a: EcosystemId, b: EcosystemId)
    ensures
        osv_name(a) is None <==> a is GitlabCi,
        osv_name(a) == osv_name(b) <==> a == b || (a is Npm || a is Deno) && (b is Npm || b is Deno)
            || (a is Maven || a is Gradle) && (b is Maven || b is Gradle),
{
    reveal_strlit("crates.io");
    reveal_strlit("npm");
    reveal_strlit("PyPI");
    reveal_strlit("Go");
    reveal_strlit("RubyGems");
    reveal_strlit("Pub");
    reveal_strlit("Maven");
    reveal_strlit("Packagist");
    reveal_strlit("SwiftURL");
    reveal_strlit("NuGet");
    reveal_strlit("GitHub Actions");
    if osv_name(a) is Some && osv_name(a) == osv_name(b) {
        let x = osv_name(a)->0;
        let y = osv_name(b)->0;
        assert(x.len() == y.len());
        assert(x[0] == y[0]);
        assert(x[1] == y[1]);
    }
}

} // verus!
