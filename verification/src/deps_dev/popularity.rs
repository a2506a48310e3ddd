//! A package's popularity: the dependents of its default version.

use crate::deps_dev::memo::CallOutcome;
use crate::deps_dev::project::DepsDevSystem;
use crate::deps_dev::requests::{
    dependents_url, dependents_url_of, package_url, package_url_of, similar_url, similar_url_of,
    CallFailure,
};
use crate::github::identity::{dot_segment, is_dot_segment};
use crate::text::chars_of;
use vstd::prelude::*;

verus! {

/// One version of a package.
pub struct PackageVersion {
    /// The version.
    pub version: String,
    /// Whether it is the package's default version.
    pub is_default: bool,
}

/// What follows in the lookup of a popularity.
pub enum PopularityStep {
    /// Nothing more is to be asked.
    Done(CallOutcome<Option<u64>>),
    /// This URL is to be requested.
    Request(String),
}

/// The first default version of a package.
pub open spec fn default_version(versions: Seq<PackageVersion>) -> Option<Seq<char>>
    decreases versions.len(),
{
    if versions.len() == 0 {
        None
    } else if versions[0].is_default {
        Some(versions[0].version@)
    } else {
        default_version(versions.drop_first())
    }
}

/// Begins the lookup of a package's popularity: a name that is `.` or `..` has none, for good.
pub fn start_popularity(base: &str, system: DepsDevSystem, name: &str) -> (r: PopularityStep)
    ensures
        if dot_segment(name@) {
            r == PopularityStep::Done(CallOutcome::Definitive(None))
        } else {
            r matches PopularityStep::Request(url) && url@ == package_url_of(base@, system, name@)
        },
{
    let n = chars_of(name);
    if is_dot_segment(n.as_slice()) {
        return PopularityStep::Done(CallOutcome::Definitive(None));
    }
    PopularityStep::Request(package_url(base, system, name))
}

fn find_default(versions: &Vec<PackageVersion>) -> (r: Option<usize>)
    ensures
        match r {
            Some(i) => i < versions@.len() && default_version(versions@) == Some(
                versions@[i as int].version@,
            ),
            None => default_version(versions@) is None,
        },
{
    let mut i: usize = 0;
    proof {
        assert(versions@.skip(0) =~= versions@);
    }
    while i < versions.len()
        invariant
            i <= versions@.len(),
            default_version(versions@.skip(i as int)) == default_version(versions@),
        decreases versions@.len() - i,
    {
        proof {
            assert(versions@.skip(i as int)[0] == versions@[i as int]);
            assert(versions@.skip(i as int).drop_first() =~= versions@.skip(i + 1));
        }
        if versions[i].is_default {
            return Some(i);
        }
        i += 1;
    }
    None
}

/// Takes the answer of the package call: the dependents of the default version are asked for. No
/// such package, no default version, and a default version that is `.` or `..` are definitive
/// answers; a failed call is not.
pub fn after_package_call(
    base: &str,
    system: DepsDevSystem,
    name: &str,
    reply: Result<Vec<PackageVersion>, CallFailure>,
) -> (r: PopularityStep)
    ensures
        match reply {
            Err(CallFailure::NotFound) => r == PopularityStep::Done(CallOutcome::Definitive(None)),
            Err(CallFailure::Transient) => r == PopularityStep::Done(CallOutcome::Degraded(None)),
            Ok(versions) => match default_version(versions@) {
                None => r == PopularityStep::Done(CallOutcome::Definitive(None)),
                Some(version) => if dot_segment(version) {
                    r == PopularityStep::Done(CallOutcome::Definitive(None))
                } else {
                    r matches PopularityStep::Request(url) && url@ == dependents_url_of(
                        base@,
                        system,
                        name@,
                        version,
                    )
                },
            },
        },
{
    match reply {
        Err(CallFailure::NotFound) => PopularityStep::Done(CallOutcome::Definitive(None)),
        Err(CallFailure::Transient) => PopularityStep::Done(CallOutcome::Degraded(None)),
        Ok(versions) => match find_default(&versions) {
            None => PopularityStep::Done(CallOutcome::Definitive(None)),
            Some(i) => {
                let version = versions[i].version.as_str();
                let v = chars_of(version);
                if is_dot_segment(v.as_slice()) {
                    PopularityStep::Done(CallOutcome::Definitive(None))
                } else {
                    PopularityStep::Request(dependents_url(base, system, name, version))
                }
            },
        },
    }
}

/// Takes the answer of the dependents call. Unlike for the package itself, "not found" is not
/// definitive here: the default version may have changed between the two calls.
pub fn after_dependents_call(reply: Result<u64, CallFailure>) -> (r: CallOutcome<Option<u64>>)
    ensures
        match reply {
            Ok(count) => r == CallOutcome::Definitive(Some(count)),
            Err(_) => r == CallOutcome::<Option<u64>>::Degraded(None),
        },
{
    match reply {
        Ok(count) => CallOutcome::Definitive(Some(count)),
        Err(_) => CallOutcome::Degraded(None),
    }
}

/// The URL to search for packages named like `name`; `None` for a name that is `.` or `..`, for
/// which there are none, for good.
pub fn start_similar_packages(base: &str, system: DepsDevSystem, name: &str) -> (r: Option<String>)
    ensures
        match r {
            Some(url) => !dot_segment(name@) && url@ == similar_url_of(base@, system, name@),
            None => dot_segment(name@),
        },
{
    let n = chars_of(name);
    if is_dot_segment(n.as_slice()) {
        return None;
    }
    Some(similar_url(base, system, name))
}

// ---------------------------------------------------------------------------
// Laws
// ---------------------------------------------------------------------------

/// The default version is the first that is marked as such; there is none exactly where no
/// version is.
pub proof fn law_first_default_version_counts(versions: Seq<PackageVersion>, i: int)
    ensures
        0 <= i < versions.len() && versions[i].is_default && (forall|j: int|
            0 <= j < i ==> !(#[trigger] versions[j]).is_default) ==> default_version(versions)
            == Some(versions[i].version@),
        default_version(versions) is None <==> forall|j: int|
            0 <= j < versions.len() ==> !(#[trigger] versions[j]).is_default,
    decreases versions.len(),
{
    if versions.len() > 0 {
        let rest = versions.drop_first();
        law_first_default_version_counts(rest, i - 1);
        if !versions[0].is_default {
            if 0 < i < versions.len() && forall|j: int|
                0 <= j < i ==> !(#[trigger] versions[j]).is_default {
                assert forall|j: int| 0 <= j < i - 1 implies !(#[trigger] rest[j]).is_default by {
                    assert(!versions[j + 1].is_default);
                }
            }
            if default_version(rest) is None {
                assert forall|j: int| 0 <= j < versions.len() implies !(
                #[trigger] versions[j]).is_default by {
                    if j > 0 {
                        assert(!rest[j - 1].is_default);
                    }
                }
            } else {
                let j = choose|j: int| 0 <= j < rest.len() && (#[trigger] rest[j]).is_default;
                assert(versions[j + 1].is_default);
            }
        } else if 0 < i < versions.len() && forall|j: int|
            0 <= j < i ==> !(#[trigger] versions[j]).is_default {
            assert(!versions[0].is_default);
        }
    }
}

} // verus!
