//! Systems, project keys and provenance.

use crate::deps_dev::types::{ProvenanceEntry, ProvenanceStatus, RelatedProject};
use crate::ecosystem::EcosystemId;
use crate::github::identity::{dot_segment, has_identity_chars, identity_char, is_dot_segment};
use crate::text::{
    ascii_alphanumeric, chars_of, is_ascii_alphanumeric, law_split_at_separator,
    law_split_counts_separators, law_split_without_separator, same_text, split, split_on, texts,
};
use vstd::prelude::*;

verus! {

/// The systems that deps.dev covers.
#[derive(Debug, Clone, Copy, PartialEq, Eq, Hash, Structural)]
pub enum DepsDevSystem {
    /// npm.
    Npm,
    /// crates.io, via Cargo.
    Cargo,
    /// Go modules.
    Go,
    /// Maven Central and other Maven-coordinate repositories.
    Maven,
    /// PyPI.
    Pypi,
    /// RubyGems, via Bundler.
    Rubygems,
    /// NuGet.
    NuGet,
}

/// The system of an ecosystem, where deps.dev covers it.
pub open spec fn system_of(id: EcosystemId) -> Option<DepsDevSystem> {
    match id {
        EcosystemId::Npm => Some(DepsDevSystem::Npm),
        EcosystemId::Cargo => Some(DepsDevSystem::Cargo),
        EcosystemId::Go => Some(DepsDevSystem::Go),
        EcosystemId::Maven => Some(DepsDevSystem::Maven),
        EcosystemId::Pypi => Some(DepsDevSystem::Pypi),
        EcosystemId::Bundler => Some(DepsDevSystem::Rubygems),
        EcosystemId::NuGet => Some(DepsDevSystem::NuGet),
        EcosystemId::Composer => None,
        EcosystemId::Dart => None,
        EcosystemId::Swift => None,
        EcosystemId::Gradle => None,
        EcosystemId::Deno => None,
        EcosystemId::GithubActions => None,
        EcosystemId::GitlabCi => None,
    }
}

/// Maps an ecosystem to deps.dev's system. Every ecosystem is named: a new one must be decided
/// on.
#[must_use]
pub fn deps_dev_system(id: EcosystemId) -> (r: Option<DepsDevSystem>)
    ensures
        r == system_of(id),
{
    match id {
        EcosystemId::Npm => Some(DepsDevSystem::Npm),
        EcosystemId::Cargo => Some(DepsDevSystem::Cargo),
        EcosystemId::Go => Some(DepsDevSystem::Go),
        EcosystemId::Maven => Some(DepsDevSystem::Maven),
        EcosystemId::Pypi => Some(DepsDevSystem::Pypi),
        EcosystemId::Bundler => Some(DepsDevSystem::Rubygems),
        EcosystemId::NuGet => Some(DepsDevSystem::NuGet),
        EcosystemId::Composer | EcosystemId::Dart | EcosystemId::Swift | EcosystemId::Gradle
        | EcosystemId::Deno | EcosystemId::GithubActions | EcosystemId::GitlabCi => None,
    }
}

/// The path segment of a system in deps.dev's URLs.
pub open spec fn path_segment(system: DepsDevSystem) -> Seq<char> {
    match system {
        DepsDevSystem::Npm => "npm"@,
        DepsDevSystem::Cargo => "cargo"@,
        DepsDevSystem::Go => "go"@,
        DepsDevSystem::Maven => "maven"@,
        DepsDevSystem::Pypi => "pypi"@,
        DepsDevSystem::Rubygems => "rubygems"@,
        DepsDevSystem::NuGet => "nuget"@,
    }
}

/// The name of a system in the body of a batch request, which takes no lower case.
pub open spec fn batch_name(system: DepsDevSystem) -> Seq<char> {
    match system {
        DepsDevSystem::Npm => "NPM"@,
        DepsDevSystem::Cargo => "CARGO"@,
        DepsDevSystem::Go => "GO"@,
        DepsDevSystem::Maven => "MAVEN"@,
        DepsDevSystem::Pypi => "PYPI"@,
        DepsDevSystem::Rubygems => "RUBYGEMS"@,
        DepsDevSystem::NuGet => "NUGET"@,
    }
}

impl DepsDevSystem {
    /// The path segment of this system in deps.dev's URLs.
    #[must_use]
    pub fn as_path_segment(self) -> (r: &'static str)
        ensures
            r@ == path_segment(self),
    {
        match self {
            DepsDevSystem::Npm => "npm",
            DepsDevSystem::Cargo => "cargo",
            DepsDevSystem::Go => "go",
            DepsDevSystem::Maven => "maven",
            DepsDevSystem::Pypi => "pypi",
            DepsDevSystem::Rubygems => "rubygems",
            DepsDevSystem::NuGet => "nuget",
        }
    }

    /// The name of this system in the body of a batch request: the path segment in upper case.
    #[must_use]
    pub fn as_batch_name(self) -> (r: &'static str)
        ensures
            r@ == batch_name(self),
    {
        match self {
            DepsDevSystem::Npm => "NPM",
            DepsDevSystem::Cargo => "CARGO",
            DepsDevSystem::Go => "GO",
            DepsDevSystem::Maven => "MAVEN",
            DepsDevSystem::Pypi => "PYPI",
            DepsDevSystem::Rubygems => "RUBYGEMS",
            DepsDevSystem::NuGet => "NUGET",
        }
    }
}

// ---------------------------------------------------------------------------
// Project keys
// ---------------------------------------------------------------------------

/// A character of a DNS label.
pub open spec fn label_char(c: char) -> bool {
    ascii_alphanumeric(c) || c == '-'
}

/// Whether `s` is a DNS label: letters, digits and hyphens, with a hyphen at neither end.
pub open spec fn host_label(s: Seq<char>) -> bool {
    &&& s.len() > 0
    &&& s[0] != '-'
    &&& s.last() != '-'
    &&& forall|i: int| 0 <= i < s.len() ==> label_char(#[trigger] s[i])
}

/// Whether `s` is a host name of at least two labels.
pub open spec fn host_name(s: Seq<char>) -> bool {
    let labels = split_on(s, '.');
    labels.len() >= 2 && forall|i: int| 0 <= i < labels.len() ==> host_label(#[trigger] labels[i])
}

/// Whether `s` can be a path segment of a project key.
pub open spec fn key_segment(s: Seq<char>) -> bool {
    &&& s.len() > 0
    &&& !dot_segment(s)
    &&& forall|i: int| 0 <= i < s.len() ==> identity_char(#[trigger] s[i])
}

/// Whether `key` is a project key: a host name followed by one to three path segments.
pub open spec fn project_key_valid(key: Seq<char>) -> bool {
    let segments = split_on(key, '/');
    &&& 2 <= segments.len() <= 4
    &&& host_name(segments[0])
    &&& forall|i: int| 1 <= i < segments.len() ==> key_segment(#[trigger] segments[i])
}

fn is_host_label(s: &[char]) -> (r: bool)
    ensures
        r == host_label(s@),
{
    if s.len() == 0 || s[0] == '-' || s[s.len() - 1] == '-' {
        return false;
    }
    let mut i: usize = 0;
    while i < s.len()
        invariant
            i <= s@.len(),
            forall|k: int| 0 <= k < i ==> label_char(#[trigger] s@[k]),
        decreases s@.len() - i,
    {
        if !(is_ascii_alphanumeric(s[i]) || s[i] == '-') {
            proof {
                assert(!label_char(s@[i as int]));
            }
            return false;
        }
        i += 1;
    }
    true
}

fn is_host_name(s: &[char]) -> (r: bool)
    ensures
        r == host_name(s@),
{
    let labels = split(s, '.');
    if labels.len() < 2 {
        return false;
    }
    let mut i: usize = 0;
    while i < labels.len()
        invariant
            i <= labels@.len(),
            texts(labels@) == split_on(s@, '.'),
            forall|k: int| 0 <= k < i ==> host_label(#[trigger] split_on(s@, '.')[k]),
        decreases labels@.len() - i,
    {
        proof {
            assert(split_on(s@, '.')[i as int] == labels@[i as int]@);
        }
        if !is_host_label(labels[i].as_slice()) {
            return false;
        }
        i += 1;
    }
    true
}

proof fn lemma_host_name_shape(s: Seq<char>)
    requires
        host_name(s),
    ensures
        s.len() > 0,
        !dot_segment(s),
{
    let labels = split_on(s, '.');
    if s.len() == 0 {
        assert(labels.len() == 1);
    }
    if s == seq!['.'] {
        assert(s.drop_last() =~= Seq::<char>::empty());
        assert(split_on(s.drop_last(), '.').len() == 1);
        assert(labels[0].len() == 0);
        assert(!host_label(labels[0]));
    }
    if s == seq!['.', '.'] {
        let t = s.drop_last();
        assert(t =~= seq!['.']);
        assert(t.drop_last() =~= Seq::<char>::empty());
        assert(split_on(t.drop_last(), '.') =~= seq![Seq::<char>::empty()]);
        assert(split_on(t, '.')[0].len() == 0);
        assert(labels[0].len() == 0);
        assert(!host_label(labels[0]));
    }
}

/// Validates deps.dev's project key before it is put into a request path: a malformed third-party
/// key is rejected before it costs a request.
#[must_use]
pub fn is_valid_project_key(key: &str) -> (r: bool)
    ensures
        r == project_key_valid(key@),
{
    let chars = chars_of(key);
    let segments = split(chars.as_slice(), '/');
    let ghost pieces = split_on(key@, '/');
    if segments.len() < 2 || segments.len() > 4 {
        return false;
    }
    proof {
        assert(pieces[0] == segments@[0]@);
    }
    if !is_host_name(segments[0].as_slice()) {
        return false;
    }
    let mut i: usize = 1;
    while i < segments.len()
        invariant
            1 <= i <= segments@.len(),
            2 <= segments@.len() <= 4,
            texts(segments@) == pieces,
            pieces == split_on(key@, '/'),
            host_name(pieces[0]),
            forall|k: int| 1 <= k < i ==> key_segment(#[trigger] pieces[k]),
        decreases segments@.len() - i,
    {
        proof {
            assert(pieces[i as int] == segments@[i as int]@);
        }
        let s = segments[i].as_slice();
        if s.len() == 0 || is_dot_segment(s) || !has_identity_chars(s) {
            proof {
                assert(!key_segment(pieces[i as int]));
            }
            return false;
        }
        i += 1;
    }
    true
}

// ---------------------------------------------------------------------------
// Provenance
// ---------------------------------------------------------------------------

/// Whether one of the entries is verified.
pub open spec fn any_verified(entries: Seq<ProvenanceEntry>) -> bool {
    exists|i: int| 0 <= i < entries.len() && (#[trigger] entries[i]).verified
}

/// The provenance verdict for the entries of a version.
pub open spec fn provenance_of(
    slsa: Seq<ProvenanceEntry>,
    attestations: Seq<ProvenanceEntry>,
) -> ProvenanceStatus {
    if slsa.len() == 0 && attestations.len() == 0 {
        ProvenanceStatus::Absent
    } else if any_verified(slsa) || any_verified(attestations) {
        ProvenanceStatus::Verified
    } else {
        ProvenanceStatus::Unverified
    }
}

fn has_verified(entries: &[ProvenanceEntry]) -> (r: bool)
    ensures
        r == any_verified(entries@),
{
    let mut i: usize = 0;
    while i < entries.len()
        invariant
            i <= entries@.len(),
            forall|k: int| 0 <= k < i ==> !(#[trigger] entries@[k]).verified,
        decreases entries@.len() - i,
    {
        if entries[i].verified {
            return true;
        }
        i += 1;
    }
    false
}

/// Classifies a version's provenance from its two lists of entries.
pub fn classify_provenance(slsa: &[ProvenanceEntry], attestations: &[ProvenanceEntry]) -> (r:
    ProvenanceStatus)
    ensures
        r == provenance_of(slsa@, attestations@),
{
    if slsa.len() == 0 && attestations.len() == 0 {
        ProvenanceStatus::Absent
    } else if has_verified(slsa) || has_verified(attestations) {
        ProvenanceStatus::Verified
    } else {
        ProvenanceStatus::Unverified
    }
}

// ---------------------------------------------------------------------------
// Choice of the project
// ---------------------------------------------------------------------------

/// Whether a project is the version's source repository.
pub open spec fn source_repo(p: RelatedProject) -> bool {
    p.relation_type@ == "SOURCE_REPO"@
}

/// Whether a project is attested to be the version's source repository.
pub open spec fn attested_source_repo(p: RelatedProject) -> bool {
    source_repo(p) && p.relation_provenance@ == "SLSA_ATTESTATION"@
}

/// Whether the first project of which `wanted` holds stands at `i`.
pub open spec fn first_project(
    projects: Seq<RelatedProject>,
    wanted: spec_fn(RelatedProject) -> bool,
    i: int,
) -> bool {
    &&& 0 <= i < projects.len()
    &&& wanted(projects[i])
    &&& forall|j: int| 0 <= j < i ==> !wanted(#[trigger] projects[j])
}

/// The chosen source repository: the first attested one, else the first that the package only
/// reports itself.
pub open spec fn chosen_project(projects: Seq<RelatedProject>) -> Option<(Seq<char>, bool)> {
    let attested = |p: RelatedProject| attested_source_repo(p);
    let any = |p: RelatedProject| source_repo(p);
    if exists|i: int| #[trigger] first_project(projects, attested, i) {
        let i = choose|i: int| #[trigger] first_project(projects, attested, i);
        Some((projects[i].project_key@, false))
    } else if exists|i: int| #[trigger] first_project(projects, any, i) {
        let i = choose|i: int| #[trigger] first_project(projects, any, i);
        Some((projects[i].project_key@, true))
    } else {
        None
    }
}

/// The chosen source repository, where its key is valid, and whether it is only self-reported.
pub open spec fn usable_project(projects: Seq<RelatedProject>) -> Option<(Seq<char>, bool)> {
    match chosen_project(projects) {
        Some((key, self_reported)) => if project_key_valid(key) {
            Some((key, self_reported))
        } else {
            None
        },
        None => None,
    }
}

/// Picks the source repository to fetch a Scorecard for, with a valid key, and tells whether the
/// pick is only self-reported.
///
/// An attested relation is preferred: a self-reported one comes from the package's own metadata,
/// and a hostile package could point it at a reputable repository.
pub fn choose_project_key(projects: &[RelatedProject]) -> (r: Option<(String, bool)>)
    ensures
        match r {
            Some((key, self_reported)) => usable_project(projects@) == Some((key@, self_reported)),
            None => usable_project(projects@) is None,
        },
{
    let ghost attested_of = |p: RelatedProject| attested_source_repo(p);
    let ghost any_of = |p: RelatedProject| source_repo(p);
    let mut attested: Option<usize> = None;
    let mut reported: Option<usize> = None;
    let mut i: usize = 0;
    while i < projects.len()
        invariant
            i <= projects@.len(),
            attested_of == (|p: RelatedProject| attested_source_repo(p)),
            any_of == (|p: RelatedProject| source_repo(p)),
            match attested {
                Some(a) => a < i && first_project(projects@, attested_of, a as int),
                None => forall|j: int| 0 <= j < i ==> !attested_of(#[trigger] projects@[j]),
            },
            match reported {
                Some(a) => a < i && first_project(projects@, any_of, a as int),
                None => forall|j: int| 0 <= j < i ==> !any_of(#[trigger] projects@[j]),
            },
        decreases projects@.len() - i,
    {
        if same_text(projects[i].relation_type.as_str(), "SOURCE_REPO") {
            if reported.is_none() {
                reported = Some(i);
            }
            if attested.is_none() && same_text(
                projects[i].relation_provenance.as_str(),
                "SLSA_ATTESTATION",
            ) {
                attested = Some(i);
            }
        }
        i += 1;
    }
    let (at, self_reported) = match attested {
        Some(a) => {
            proof {
                lemma_first_project_unique(projects@, attested_of, a as int);
            }
            (a, false)
        },
        None => {
            proof {
                assert forall|k: int| !(#[trigger] first_project(projects@, attested_of, k)) by {
                    if 0 <= k < projects@.len() {
                        assert(!attested_of(projects@[k]));
                    }
                }
            }
            match reported {
                Some(a) => {
                    proof {
                        lemma_first_project_unique(projects@, any_of, a as int);
                    }
                    (a, true)
                },
                None => {
                    proof {
                        assert forall|k: int| !(#[trigger] first_project(projects@, any_of, k)) by {
                            if 0 <= k < projects@.len() {
                                assert(!any_of(projects@[k]));
                            }
                        }
                    }
                    return None;
                },
            }
        },
    };
    if is_valid_project_key(projects[at].project_key.as_str()) {
        Some((projects[at].project_key.clone(), self_reported))
    } else {
        None
    }
}

proof fn lemma_first_project_unique(
    projects: Seq<RelatedProject>,
    wanted: spec_fn(RelatedProject) -> bool,
    a: int,
)
    requires
        first_project(projects, wanted, a),
    ensures
        forall|k: int| #[trigger] first_project(projects, wanted, k) ==> k == a,
{
    assert forall|k: int| #[trigger] first_project(projects, wanted, k) implies k == a by {
        if k < a {
            assert(!wanted(projects[k]));
        }
        if a < k {
            assert(!wanted(projects[a]));
        }
    }
}

// ---------------------------------------------------------------------------
// Laws
// ---------------------------------------------------------------------------

/// No segment of a valid project key is empty, `.` or `..`.
pub proof fn law_project_keys_cannot_retarget_a_path(key: Seq<char>, i: int)
    requires
        project_key_valid(key),
        0 <= i < split_on(key, '/').len(),
    ensures
        split_on(key, '/')[i].len() > 0,
        !dot_segment(split_on(key, '/')[i]),
{
    let segments = split_on(key, '/');
    if i == 0 {
        lemma_host_name_shape(segments[0]);
    } else {
        assert(key_segment(segments[i]));
    }
}

/// A choice is presented as attested only where an attested relation with its key is among the
/// projects, and as self-reported only where none is attested.
pub proof fn law_attested_relation_is_preferred(projects: Seq<RelatedProject>)
    ensures
        match chosen_project(projects) {
            Some((key, self_reported)) => if self_reported {
                forall|i: int|
                    0 <= i < projects.len() ==> !attested_source_repo(#[trigger] projects[i])
            } else {
                exists|i: int|
                    0 <= i < projects.len() && attested_source_repo(#[trigger] projects[i])
                        && projects[i].project_key@ == key
            },
            None => forall|i: int|
                0 <= i < projects.len() ==> !attested_source_repo(#[trigger] projects[i]),
        },
{
    let attested = |p: RelatedProject| attested_source_repo(p);
    if exists|i: int| #[trigger] first_project(projects, attested, i) {
        let i = choose|i: int| #[trigger] first_project(projects, attested, i);
        assert(attested_source_repo(projects[i]));
    } else {
        assert forall|i: int| 0 <= i < projects.len() implies !attested_source_repo(
            #[trigger] projects[i],
        ) by {
            if attested_source_repo(projects[i]) {
                lemma_first_exists(projects, attested, i);
            }
        }
    }
}

proof fn lemma_first_exists(
    projects: Seq<RelatedProject>,
    wanted: spec_fn(RelatedProject) -> bool,
    i: int,
)
    requires
        0 <= i < projects.len(),
        wanted(projects[i]),
    ensures
        exists|k: int| #[trigger] first_project(projects, wanted, k),
    decreases i,
{
    if exists|j: int| 0 <= j < i && wanted(#[trigger] projects[j]) {
        let j = choose|j: int| 0 <= j < i && wanted(#[trigger] projects[j]);
        lemma_first_exists(projects, wanted, j);
    } else {
        assert(first_project(projects, wanted, i));
    }
}

/// Different systems have different path segments, so that memo keys never alias.
pub proof fn law_path_segments_are_distinct(a: DepsDevSystem, b: DepsDevSystem)
    requires
        path_segment(a) == path_segment(b),
    ensures
        a == b,
{
    reveal_strlit("npm");
    reveal_strlit("cargo");
    reveal_strlit("go");
    reveal_strlit("maven");
    reveal_strlit("pypi");
    reveal_strlit("rubygems");
    reveal_strlit("nuget");
    let x = path_segment(a);
    let y = path_segment(b);
    assert(x.len() == y.len());
    assert(x[0] == y[0]);
}

/// A project key is a host and one to three segments, joined by slashes, each of them in order.
pub proof fn law_shape_of_a_project_key(
    host: Seq<char>,
    a: Seq<char>,
    b: Seq<char>,
    c: Seq<char>,
    rest: Seq<char>,
)
    requires
        !host.contains('/') && !a.contains('/') && !b.contains('/') && !c.contains('/'),
    ensures
        !project_key_valid(host),
        project_key_valid(host + seq!['/'] + a) <==> host_name(host) && key_segment(a),
        project_key_valid(host + seq!['/'] + (a + seq!['/'] + b)) <==> host_name(host)
            && key_segment(a) && key_segment(b),
        project_key_valid(host + seq!['/'] + (a + seq!['/'] + (b + seq!['/'] + c))) <==> host_name(
            host,
        ) && key_segment(a) && key_segment(b) && key_segment(c),
        !project_key_valid(
            host + seq!['/'] + (a + seq!['/'] + (b + seq!['/'] + (c + seq!['/'] + rest))),
        ),
{
    let d = c + seq!['/'] + rest;
    law_split_without_separator(host, '/');
    law_split_without_separator(a, '/');
    law_split_without_separator(b, '/');
    law_split_without_separator(c, '/');
    let bc = b + seq!['/'] + c;
    let bd = b + seq!['/'] + d;
    law_split_at_separator(host, '/', a);
    law_split_at_separator(a, '/', b);
    law_split_at_separator(host, '/', a + seq!['/'] + b);
    law_split_at_separator(b, '/', c);
    law_split_at_separator(a, '/', bc);
    law_split_at_separator(host, '/', a + seq!['/'] + bc);
    law_split_at_separator(c, '/', rest);
    law_split_at_separator(b, '/', d);
    law_split_at_separator(a, '/', bd);
    law_split_at_separator(host, '/', a + seq!['/'] + bd);
    law_split_counts_separators(rest, '/');
    let two = split_on(host + seq!['/'] + a, '/');
    assert(two =~= seq![host, a]);
    assert(two[0] == host && two[1] == a);
    let three = split_on(host + seq!['/'] + (a + seq!['/'] + b), '/');
    assert(three =~= seq![host, a, b]);
    assert(three[0] == host && three[1] == a && three[2] == b);
    let four = split_on(host + seq!['/'] + (a + seq!['/'] + bc), '/');
    assert(four =~= seq![host, a, b, c]);
    assert(four[0] == host && four[1] == a && four[2] == b && four[3] == c);
}

/// A host name has at least two labels, joined by dots; one more label makes it another host
/// name, or none where the label is not one.
pub proof fn law_shape_of_a_host_name(host: Seq<char>, label: Seq<char>)
    requires
        !label.contains('.'),
    ensures
        !host_name(label),
        host_name(host + seq!['.'] + label) <==> host_label(label) && (host_name(host) || (
        !host.contains('.') && host_label(host))),
{
    law_split_without_separator(label, '.');
    law_split_at_separator(host, '.', label);
    law_split_counts_separators(host, '.');
    let before = split_on(host, '.');
    let all = split_on(host + seq!['.'] + label, '.');
    assert(all =~= before.push(label));
    assert(all[before.len() as int] == label);
    if !host.contains('.') {
        law_split_without_separator(host, '.');
        assert(before[0] == host);
        assert(all[0] == host);
        assert(!host_name(host));
    } else {
        lemma_holds_separator(host);
        if host_name(host + seq!['.'] + label) {
            assert forall|i: int| 0 <= i < before.len() implies host_label(
                #[trigger] before[i],
            ) by {
                assert(host_label(all[i]));
            }
        }
        if host_name(host) && host_label(label) {
            assert forall|i: int| 0 <= i < all.len() implies host_label(#[trigger] all[i]) by {
                if i < before.len() {
                    assert(host_label(before[i]));
                }
            }
        }
    }
}

proof fn lemma_holds_separator(s: Seq<char>)
    requires
        s.contains('.'),
    ensures
        split_on(s, '.').len() >= 2,
{
    let at = choose|at: int| 0 <= at < s.len() && s[at] == '.';
    let a = s.take(at);
    let b = s.skip(at + 1);
    assert(s =~= a + seq!['.'] + b);
    law_split_at_separator(a, '.', b);
    law_split_counts_separators(a, '.');
    law_split_counts_separators(b, '.');
}

/// A label is made of letters, digits and hyphens, with no hyphen at either end; a segment of
/// letters, digits, dots, underscores and hyphens, and is neither `.` nor `..`. Neither is empty.
pub proof fn law_characters_of_labels_and_segments(s: Seq<char>)
    ensures
        host_label(s) <==> s.len() > 0 && s[0] != '-' && s.last() != '-' && forall|i: int|
            0 <= i < s.len() ==> (ascii_alphanumeric(#[trigger] s[i]) || s[i] == '-'),
        key_segment(s) <==> s.len() > 0 && s != seq!['.'] && s != seq!['.', '.'] && forall|i: int|
            0 <= i < s.len() ==> (ascii_alphanumeric(#[trigger] s[i]) || s[i] == '.' || s[i] == '_'
                || s[i] == '-'),
{
    if forall|i: int|
        0 <= i < s.len() ==> (ascii_alphanumeric(#[trigger] s[i]) || s[i] == '-') {
        assert forall|i: int| 0 <= i < s.len() implies label_char(#[trigger] s[i]) by {
            assert(ascii_alphanumeric(s[i]) || s[i] == '-');
        }
    }
    if forall|i: int|
        0 <= i < s.len() ==> (ascii_alphanumeric(#[trigger] s[i]) || s[i] == '.' || s[i] == '_'
            || s[i] == '-') {
        assert forall|i: int| 0 <= i < s.len() implies identity_char(#[trigger] s[i]) by {
            assert(ascii_alphanumeric(s[i]) || s[i] == '.' || s[i] == '_' || s[i] == '-');
        }
    }
}

/// Provenance is absent exactly where no entry of either kind is there, and verified exactly
/// where one of them is.
pub proof fn law_one_verified_entry_is_enough(
    slsa: Seq<ProvenanceEntry>,
    attestations: Seq<ProvenanceEntry>,
    i: int,
)
    ensures
        provenance_of(slsa, attestations) is Absent <==> slsa.len() == 0 && attestations.len()
            == 0,
        0 <= i < slsa.len() && slsa[i].verified ==> provenance_of(slsa, attestations) is Verified,
        0 <= i < attestations.len() && attestations[i].verified ==> provenance_of(
            slsa,
            attestations,
        ) is Verified,
        (slsa.len() > 0 || attestations.len() > 0) && (forall|k: int|
            0 <= k < slsa.len() ==> !(#[trigger] slsa[k]).verified) && (forall|k: int|
            0 <= k < attestations.len() ==> !(#[trigger] attestations[k]).verified)
            ==> provenance_of(slsa, attestations) is Unverified,
{
}

/// The project is the first attested source repository; where none is attested, the first that
/// the package itself reports, marked as such. It is used only where its key is valid, and no
/// other takes its place.
pub proof fn law_which_project_is_used(projects: Seq<RelatedProject>, i: int)
    requires
        0 <= i < projects.len(),
        projects[i].relation_type@ == "SOURCE_REPO"@,
    ensures
        ({
            let key = projects[i].project_key@;
            &&& projects[i].relation_provenance@ == "SLSA_ATTESTATION"@ && (forall|j: int|
                0 <= j < i ==> !((#[trigger] projects[j]).relation_type@ == "SOURCE_REPO"@
                    && projects[j].relation_provenance@ == "SLSA_ATTESTATION"@))
                ==> usable_project(projects) == (if project_key_valid(key) {
                Some((key, false))
            } else {
                None
            })
            &&& (forall|j: int|
                0 <= j < projects.len() ==> !((#[trigger] projects[j]).relation_type@
                    == "SOURCE_REPO"@ && projects[j].relation_provenance@ == "SLSA_ATTESTATION"@))
                && (forall|j: int|
                0 <= j < i ==> (#[trigger] projects[j]).relation_type@ != "SOURCE_REPO"@)
                ==> usable_project(projects) == (if project_key_valid(key) {
                Some((key, true))
            } else {
                None
            })
        }),
{
    let attested = |p: RelatedProject| attested_source_repo(p);
    let any = |p: RelatedProject| source_repo(p);
    if projects[i].relation_provenance@ == "SLSA_ATTESTATION"@ && (forall|j: int|
        0 <= j < i ==> !((#[trigger] projects[j]).relation_type@ == "SOURCE_REPO"@
            && projects[j].relation_provenance@ == "SLSA_ATTESTATION"@)) {
        assert(first_project(projects, attested, i));
        lemma_first_project_unique(projects, attested, i);
    }
    if (forall|j: int|
        0 <= j < projects.len() ==> !((#[trigger] projects[j]).relation_type@ == "SOURCE_REPO"@
            && projects[j].relation_provenance@ == "SLSA_ATTESTATION"@)) && (forall|j: int|
        0 <= j < i ==> (#[trigger] projects[j]).relation_type@ != "SOURCE_REPO"@) {
        assert forall|k: int| !#[trigger] first_project(projects, attested, k) by {
            if first_project(projects, attested, k) {
                assert(projects[k].relation_type@ == "SOURCE_REPO"@);
            }
        }
        assert(first_project(projects, any, i));
        lemma_first_project_unique(projects, any, i);
    }
}

/// No source repository among the projects, no project.
pub proof fn law_no_source_repository_no_project(projects: Seq<RelatedProject>)
    requires
        forall|j: int|
            0 <= j < projects.len() ==> (#[trigger] projects[j]).relation_type@
                != "SOURCE_REPO"@,
    ensures
        usable_project(projects) is None,
{
    let attested = |p: RelatedProject| attested_source_repo(p);
    let any = |p: RelatedProject| source_repo(p);
    assert forall|k: int| !#[trigger] first_project(projects, attested, k) by {
        if first_project(projects, attested, k) {
            assert(projects[k].relation_type@ == "SOURCE_REPO"@);
        }
    }
    assert forall|k: int| !#[trigger] first_project(projects, any, k) by {
        if first_project(projects, any, k) {
            assert(projects[k].relation_type@ == "SOURCE_REPO"@);
        }
    }
}

/// The name of a system in a batch is its path segment in upper case.
pub proof fn law_batch_names_are_path_segments_in_upper_case(system: DepsDevSystem, i: int)
    ensures
        batch_name(system).len() == path_segment(system).len(),
        0 <= i < path_segment(system).len() ==> 'a' <= path_segment(system)[i] <= 'z'
            && batch_name(system)[i] as u32 + 0x20 == path_segment(system)[i] as u32,
{
    reveal_strlit("npm");
    reveal_strlit("cargo");
    reveal_strlit("go");
    reveal_strlit("maven");
    reveal_strlit("pypi");
    reveal_strlit("rubygems");
    reveal_strlit("nuget");
    reveal_strlit("NPM");
    reveal_strlit("CARGO");
    reveal_strlit("GO");
    reveal_strlit("MAVEN");
    reveal_strlit("PYPI");
    reveal_strlit("RUBYGEMS");
    reveal_strlit("NUGET");
}

} // verus!
