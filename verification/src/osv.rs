//! Vulnerability findings of one dependency, as far as fix planning reads them.

use crate::text::{same_text, string_texts};
use vstd::prelude::*;

verus! {

/// One published advisory.
#[derive(Debug, Clone, PartialEq, Eq)]
pub struct Advisory {
    /// The advisory's identifier.
    pub id: String,
}

/// A list that may have been cut short: `total` counts what there was to list.
#[derive(Debug, Clone, PartialEq, Eq)]
pub struct Capped<T> {
    items: Vec<T>,
    total: usize,
}

impl<T> Capped<T> {
    /// The items that were kept.
    pub closed spec fn kept(&self) -> Seq<T> {
        self.items@
    }

    /// How many items there were before the list was cut.
    pub closed spec fn whole(&self) -> nat {
        self.total as nat
    }

    /// Whether nothing was cut.
    pub open spec fn complete(&self) -> bool {
        self.kept().len() >= self.whole()
    }

    /// A list of `items` out of `total`.
    pub fn new(items: Vec<T>, total: usize) -> (r: Self)
        ensures
            r.kept() == items@,
            r.whole() == total,
    {
        Capped { items, total }
    }

    /// The items that were kept.
    pub fn items(&self) -> (r: &[T])
        ensures
            r@ == self.kept(),
    {
        self.items.as_slice()
    }

    /// Whether nothing was cut.
    pub fn is_complete(&self) -> (r: bool)
        ensures
            r == self.complete(),
    {
        self.items.len() >= self.total
    }
}

/// What a live check of a fix target found.
#[derive(Debug, Clone, PartialEq, Eq)]
pub enum UpgradeStatus {
    /// The target was never checked.
    NotChecked,
    /// The target is not affected by any advisory.
    CandidateClean {
        /// The version that was checked.
        version: String,
    },
    /// The target is still affected.
    CandidateVulnerable {
        /// The version that was checked.
        version: String,
        /// The advisories that affect it.
        advisory_ids: Capped<String>,
    },
}

/// A version that resolves advisories.
#[derive(Debug, Clone, PartialEq, Eq)]
pub struct FixRecommendation {
    /// The fixed version, as the advisory spells it.
    pub version: String,
    /// The advisories that the version claims to resolve.
    pub advisory_ids: Vec<String>,
}

/// Everything known about the vulnerabilities of one dependency.
#[derive(Debug, Clone, PartialEq, Eq)]
pub struct DependencyVulnerabilities {
    /// The advisories that affect the version in use.
    pub advisories: Capped<Advisory>,
    /// What the live check of the fix target found.
    pub fix_target_status: UpgradeStatus,
    /// The fix that the advisories recommend, if any can be claimed.
    pub recommended: Option<FixRecommendation>,
}

impl DependencyVulnerabilities {
    /// Findings without a recommendation and with an unchecked fix target.
    pub fn new(advisories: Capped<Advisory>) -> (r: Self)
        ensures
            r.advisories == advisories,
            r.fix_target_status == UpgradeStatus::NotChecked,
            r.recommended == None::<FixRecommendation>,
    {
        DependencyVulnerabilities {
            advisories,
            fix_target_status: UpgradeStatus::NotChecked,
            recommended: None,
        }
    }

    /// The same findings with a recommended fix.
    pub fn with_recommended_fix(self, fix: FixRecommendation) -> (r: Self)
        ensures
            r == (DependencyVulnerabilities { recommended: Some(fix), ..self }),
    {
        DependencyVulnerabilities { recommended: Some(fix), ..self }
    }

    /// The same findings with the result of a live check.
    pub fn with_fix_target_status(self, status: UpgradeStatus) -> (r: Self)
        ensures
            r == (DependencyVulnerabilities { fix_target_status: status, ..self }),
    {
        DependencyVulnerabilities { fix_target_status: status, ..self }
    }

    /// The fix that the advisories recommend.
    pub fn recommended_fix(&self) -> (r: Option<&FixRecommendation>)
        ensures
            match r {
                Some(fix) => self.recommended == Some(*fix),
                None => self.recommended is None,
            },
    {
        self.recommended.as_ref()
    }
}

/// Whether `id` is among the strings `v`.
pub(crate) fn contains_string(v: &[String], id: &str) -> (r: bool)
    ensures
        r == string_texts(v@).contains(id@),
{
    let mut i: usize = 0;
    while i < v.len()
        invariant
            i <= v@.len(),
            forall|k: int| 0 <= k < i ==> (#[trigger] v@[k])@ != id@,
        decreases v@.len() - i,
    {
        if same_text(v[i].as_str(), id) {
            proof {
                assert(string_texts(v@)[i as int] == id@);
            }
            return true;
        }
        i += 1;
    }
    proof {
        assert forall|k: int| 0 <= k < string_texts(v@).len() implies string_texts(v@)[k] != id@ by {
            assert(v@[k]@ != id@);
        }
    }
    false
}

/// The identifiers of a list of advisories.
pub open spec fn advisory_texts(v: Seq<Advisory>) -> Seq<Seq<char>> {
    v.map_values(|a: Advisory| a.id@)
}

/// Whether an advisory with this identifier is in the list.
pub(crate) fn contains_advisory(v: &[Advisory], id: &str) -> (r: bool)
    ensures
        r == advisory_texts(v@).contains(id@),
{
    let mut i: usize = 0;
    while i < v.len()
        invariant
            i <= v@.len(),
            forall|k: int| 0 <= k < i ==> (#[trigger] v@[k]).id@ != id@,
        decreases v@.len() - i,
    {
        if same_text(v[i].id.as_str(), id) {
            proof {
                assert(advisory_texts(v@)[i as int] == id@);
            }
            return true;
        }
        i += 1;
    }
    proof {
        assert forall|k: int| 0 <= k < advisory_texts(v@).len() implies advisory_texts(v@)[k]
            != id@ by {
            assert(v@[k].id@ != id@);
        }
    }
    false
}

// ---------------------------------------------------------------------------
// Laws
// ---------------------------------------------------------------------------

/// A capped list is complete exactly where nothing that there was to list is missing.
pub proof fn law_complete_lists_miss_nothing<T>(list: Capped<T>)
    ensures
        list.complete() <==> list.kept().len() >= list.whole(),
{
}

/// Each advisory is known by its own identifier, in its own place.
pub proof fn law_advisories_are_known_by_their_identifiers(v: Seq<Advisory>, id: Seq<char>, i: int)
    requires
        0 <= i < v.len(),
    ensures
        advisory_texts(v).len() == v.len(),
        advisory_texts(v)[i] == v[i].id@,
        v[i].id@ == id ==> advisory_texts(v).contains(id),
{
    if v[i].id@ == id {
        assert(advisory_texts(v)[i] == id);
    }
}

} // verus!
