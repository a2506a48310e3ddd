//! The popularity gate that tells a typosquat suspect from a similarly named package.

use crate::deps_dev::memo::{CallOutcome, FetchCompleteness};
use crate::deps_dev::requests::CallFailure;
use crate::text::same_text;
use vstd::prelude::*;

verus! {

/// A package with a similar name.
#[derive(Debug, Clone, PartialEq, Eq)]
pub struct SimilarPackageCandidate {
    /// The package's name.
    pub name: String,
}

/// The suspicion that a declared dependency was mistaken for a far more popular package.
#[non_exhaustive]
#[derive(Debug, Clone, PartialEq)]
pub struct TyposquatSignal {
    /// The similarly named, far more popular package.
    pub suspected_name: String,
    /// The dependents of the declared package.
    pub declared_dependent_count: u64,
    /// The dependents of the suspected package.
    pub suspected_dependent_count: u64,
}

/// Minimum popularity ratio that makes a similar package a suspect.
pub const TYPOSQUAT_RATIO_THRESHOLD: u64 = 50;

/// Minimum number of dependents of a suspect, independent of the ratio: two obscure packages can
/// have a large and meaningless ratio.
pub const TYPOSQUAT_MIN_CANDIDATE_DEPENDENTS: u64 = 50;

/// How many similar packages are looked into.
pub const TYPOSQUAT_MAX_CANDIDATES_CHECKED: usize = 5;

/// The dependents that a suspect must have, by the ratio, for the given declared count.
pub open spec fn ratio_gate(declared: u64) -> int {
    if declared * 50 > u64::MAX {
        u64::MAX as int
    } else {
        declared * 50
    }
}

/// Whether a candidate clears both gates and is not the declared package itself.
pub open spec fn qualifies(
    declared_name: Seq<char>,
    declared: u64,
    candidate: (Seq<char>, u64),
) -> bool {
    &&& candidate.0 != declared_name
    &&& candidate.1 >= TYPOSQUAT_MIN_CANDIDATE_DEPENDENTS
    &&& candidate.1 >= ratio_gate(declared)
}

/// Whether the candidate at `i` is the suspect: it qualifies, no other that does has more
/// dependents, and of several equally popular ones it is the last.
pub open spec fn is_suspect(
    declared_name: Seq<char>,
    declared: u64,
    candidates: Seq<(Seq<char>, u64)>,
    i: int,
) -> bool {
    &&& 0 <= i < candidates.len()
    &&& qualifies(declared_name, declared, candidates[i])
    &&& forall|j: int|
        0 <= j < candidates.len() && qualifies(declared_name, declared, #[trigger] candidates[j])
            ==> candidates[j].1 <= candidates[i].1 && (i < j ==> candidates[j].1
            < candidates[i].1)
}

/// Whether `r` is what the candidates amount to: the suspect among them, nothing where none
/// qualifies.
pub open spec fn is_evaluation(
    r: Option<TyposquatSignal>,
    declared_name: Seq<char>,
    declared: u64,
    candidates: Seq<(Seq<char>, u64)>,
) -> bool {
    match r {
        Some(signal) => exists|i: int| #[trigger]
            is_suspect(declared_name, declared, candidates, i) && signal.suspected_name@
                == candidates[i].0 && signal.suspected_dependent_count == candidates[i].1
                && signal.declared_dependent_count == declared,
        None => forall|j: int|
            0 <= j < candidates.len() ==> !qualifies(
                declared_name,
                declared,
                #[trigger] candidates[j],
            ),
    }
}

/// The texts and counts of a list of candidates.
pub open spec fn candidate_texts(v: Seq<(String, u64)>) -> Seq<(Seq<char>, u64)> {
    v.map_values(|c: (String, u64)| (c.0@, c.1))
}

/// Picks the most popular candidate that clears the ratio gate and the popularity floor. A
/// candidate with the declared name itself never counts: the declared package is then the popular
/// one of the pair.
pub fn evaluate_candidates(
    declared_name: &str,
    declared_dependent_count: u64,
    candidates: &[(String, u64)],
) -> (r: Option<TyposquatSignal>)
    ensures
        is_evaluation(
            r,
            declared_name@,
            declared_dependent_count,
            candidate_texts(candidates@),
        ),
{
    let gate: u64 = match declared_dependent_count.checked_mul(TYPOSQUAT_RATIO_THRESHOLD) {
        Some(gate) => gate,
        None => u64::MAX,
    };
    let ghost all = candidate_texts(candidates@);
    let mut best: Option<usize> = None;
    let mut i: usize = 0;
    while i < candidates.len()
        invariant
            i <= candidates@.len(),
            all == candidate_texts(candidates@),
            gate == ratio_gate(declared_dependent_count),
            match best {
                Some(b) => b < i && is_suspect(
                    declared_name@,
                    declared_dependent_count,
                    all.take(i as int),
                    b as int,
                ),
                None => forall|j: int|
                    0 <= j < i ==> !qualifies(
                        declared_name@,
                        declared_dependent_count,
                        #[trigger] all[j],
                    ),
            },
        decreases candidates@.len() - i,
    {
        let count: u64 = candidates[i].1;
        let ghost earlier = all.take(i as int);
        let ghost now = all.take(i + 1);
        proof {
            assert(all[i as int] == (candidates@[i as int].0@, count));
            assert forall|j: int| 0 <= j < i implies earlier[j] == #[trigger] now[j] by {}
        }
        if !same_text(candidates[i].0.as_str(), declared_name) && count
            >= TYPOSQUAT_MIN_CANDIDATE_DEPENDENTS && count >= gate {
            match best {
                Some(b) => {
                    proof {
                        assert(earlier[b as int] == (candidates@[b as int].0@, candidates@[b as int].1));
                    }
                    if count >= candidates[b].1 {
                        best = Some(i);
                    }
                },
                None => {
                    best = Some(i);
                },
            }
        }
        i += 1;
    }
    proof {
        assert(all.take(i as int) =~= all);
    }
    match best {
        Some(b) => {
            proof {
                assert(is_suspect(declared_name@, declared_dependent_count, all, b as int));
            }
            Some(
                TyposquatSignal {
                    suspected_name: candidates[b].0.clone(),
                    declared_dependent_count,
                    suspected_dependent_count: candidates[b].1,
                },
            )
        },
        None => None,
    }
}

/// The names of the similar packages to look into: those other than the declared one, in order,
/// up to the cap.
pub open spec fn candidate_names(name: Seq<char>, packages: Seq<String>) -> Seq<Seq<char>>
    decreases packages.len(),
{
    if packages.len() == 0 {
        Seq::empty()
    } else {
        let before = candidate_names(name, packages.drop_last());
        if before.len() < TYPOSQUAT_MAX_CANDIDATES_CHECKED && packages.last()@ != name {
            before.push(packages.last()@)
        } else {
            before
        }
    }
}

/// The names of a list of candidates.
pub open spec fn names_of(v: Seq<SimilarPackageCandidate>) -> Seq<Seq<char>> {
    v.map_values(|c: SimilarPackageCandidate| c.name@)
}

/// What a search for packages named like `name` comes to. The declared package itself is left
/// out and the list is cut before it is kept anywhere. No such record is a definitive answer, a
/// failed call is not.
pub fn similar_packages_outcome(
    name: &str,
    reply: Result<Vec<String>, CallFailure>,
) -> (r: CallOutcome<Vec<SimilarPackageCandidate>>)
    ensures
        match reply {
            Ok(packages) => r is Definitive && names_of(r.value()@) == candidate_names(
                name@,
                packages@,
            ),
            Err(CallFailure::NotFound) => r is Definitive && r.value()@.len() == 0,
            Err(CallFailure::Transient) => r is Degraded && r.value()@.len() == 0,
        },
{
    match reply {
        Err(CallFailure::NotFound) => CallOutcome::Definitive(Vec::new()),
        Err(CallFailure::Transient) => CallOutcome::Degraded(Vec::new()),
        Ok(packages) => {
            let mut out: Vec<SimilarPackageCandidate> = Vec::new();
            let mut i: usize = 0;
            proof {
                assert(packages@.take(0) =~= Seq::<String>::empty());
                assert(names_of(out@) =~= Seq::<Seq<char>>::empty());
            }
            while i < packages.len()
                invariant
                    i <= packages@.len(),
                    names_of(out@) == candidate_names(name@, packages@.take(i as int)),
                decreases packages@.len() - i,
            {
                proof {
                    assert(packages@.take(i + 1).drop_last() =~= packages@.take(i as int));
                    assert(packages@.take(i + 1).last() == packages@[i as int]);
                }
                if out.len() < TYPOSQUAT_MAX_CANDIDATES_CHECKED && !same_text(
                    packages[i].as_str(),
                    name,
                ) {
                    let ghost before = out@;
                    out.push(SimilarPackageCandidate { name: packages[i].clone() });
                    proof {
                        assert(names_of(out@) =~= names_of(before).push(packages@[i as int]@));
                    }
                }
                i += 1;
            }
            proof {
                assert(packages@.take(i as int) =~= packages@);
            }
            CallOutcome::Definitive(out)
        },
    }
}

/// A candidate whose popularity was looked up.
pub struct ResolvedCandidate {
    /// The candidate's name.
    pub name: String,
    /// Its dependents, where they could be told.
    pub dependent_count: Option<u64>,
    /// Whether the lookup completed.
    pub completeness: FetchCompleteness,
}

/// The completeness of all lookups taken together.
pub open spec fn combined_completeness(
    first: FetchCompleteness,
    resolved: Seq<ResolvedCandidate>,
) -> FetchCompleteness
    decreases resolved.len(),
{
    if resolved.len() == 0 {
        first
    } else {
        combined_completeness(first, resolved.drop_last()).combined(resolved.last().completeness)
    }
}

/// The candidates whose popularity could be told.
pub open spec fn counted(resolved: Seq<ResolvedCandidate>) -> Seq<(Seq<char>, u64)>
    decreases resolved.len(),
{
    if resolved.len() == 0 {
        Seq::empty()
    } else {
        match resolved.last().dependent_count {
            Some(count) => counted(resolved.drop_last()).push((resolved.last().name@, count)),
            None => counted(resolved.drop_last()),
        }
    }
}

/// The suspicion about `name`, from the search for similar packages and the popularity of the
/// declared package and of each candidate, with the completeness of the whole evaluation.
///
/// Without candidates the search alone decides; without the declared package's popularity there
/// is no suspicion. A candidate whose lookup failed makes the evaluation incomplete: it might
/// have been the suspect.
pub fn typosquat_signal(
    name: &str,
    similarity: FetchCompleteness,
    declared: (Option<u64>, FetchCompleteness),
    resolved: Vec<ResolvedCandidate>,
) -> (r: (Option<TyposquatSignal>, FetchCompleteness))
    ensures
        if resolved@.len() == 0 {
            r.0 is None && r.1 == similarity
        } else {
            &&& r.1 == combined_completeness(similarity.combined(declared.1), resolved@)
            &&& match declared.0 {
                None => r.0 is None,
                Some(count) => is_evaluation(r.0, name@, count, counted(resolved@)),
            }
        },
{
    if resolved.len() == 0 {
        return (None, similarity);
    }
    let mut completeness = similarity.combine(declared.1);
    let ghost first = completeness;
    let mut candidates: Vec<(String, u64)> = Vec::new();
    let mut i: usize = 0;
    proof {
        assert(resolved@.take(0) =~= Seq::<ResolvedCandidate>::empty());
        assert(candidate_texts(candidates@) =~= Seq::<(Seq<char>, u64)>::empty());
    }
    while i < resolved.len()
        invariant
            i <= resolved@.len(),
            completeness == combined_completeness(first, resolved@.take(i as int)),
            candidate_texts(candidates@) == counted(resolved@.take(i as int)),
        decreases resolved@.len() - i,
    {
        proof {
            assert(resolved@.take(i + 1).drop_last() =~= resolved@.take(i as int));
            assert(resolved@.take(i + 1).last() == resolved@[i as int]);
        }
        completeness = completeness.combine(resolved[i].completeness);
        if let Some(count) = resolved[i].dependent_count {
            let ghost before = candidates@;
            candidates.push((resolved[i].name.clone(), count));
            proof {
                assert(candidate_texts(candidates@) =~= candidate_texts(before).push(
                    (resolved@[i as int].name@, count),
                ));
            }
        }
        i += 1;
    }
    proof {
        assert(resolved@.take(i as int) =~= resolved@);
    }
    match declared.0 {
        None => (None, completeness),
        Some(count) => {
            let signal = evaluate_candidates(name, count, candidates.as_slice());
            (signal, completeness)
        },
    }
}

// ---------------------------------------------------------------------------
// Laws
// ---------------------------------------------------------------------------

/// A package is never its own suspect, and a suspect always has at least fifty dependents of its
/// own and at least fifty times the declared package's, as far as that product can be counted.
pub proof fn law_suspects_are_far_more_popular(
    declared_name: Seq<char>,
    declared: u64,
    candidates: Seq<(Seq<char>, u64)>,
    i: int,
)
    requires
        is_suspect(declared_name, declared, candidates, i),
    ensures
        candidates[i].0 != declared_name,
        candidates[i].1 >= 50,
        declared * 50 <= u64::MAX ==> candidates[i].1 >= declared * 50,
{
}

/// There is at most one suspect.
pub proof fn law_suspect_is_unique(
    declared_name: Seq<char>,
    declared: u64,
    candidates: Seq<(Seq<char>, u64)>,
    i: int,
    j: int,
)
    requires
        is_suspect(declared_name, declared, candidates, i),
        is_suspect(declared_name, declared, candidates, j),
    ensures
        i == j,
{
}

/// The more popular a package, the less is suspected of it: a candidate that does not qualify
/// against a package does not qualify against a more popular one either.
pub proof fn law_popular_packages_raise_less_suspicion(
    declared_name: Seq<char>,
    declared: u64,
    more: u64,
    candidate: (Seq<char>, u64),
)
    requires
        declared <= more,
        qualifies(declared_name, more, candidate),
    ensures
        qualifies(declared_name, declared, candidate),
{
}

/// The declared package is never among the candidates that are looked into, and there are never
/// more of them than the cap allows.
pub proof fn law_candidates_are_capped_and_foreign(name: Seq<char>, packages: Seq<String>)
    ensures
        candidate_names(name, packages).len() <= TYPOSQUAT_MAX_CANDIDATES_CHECKED,
        !candidate_names(name, packages).contains(name),
    decreases packages.len(),
{
    if packages.len() > 0 {
        law_candidates_are_capped_and_foreign(name, packages.drop_last());
        let before = candidate_names(name, packages.drop_last());
        let all = candidate_names(name, packages);
        assert forall|i: int| 0 <= i < all.len() implies all[i] != name by {
            if i < before.len() {
                assert(before.contains(before[i]));
            }
        }
    }
}

/// One failed lookup makes the whole evaluation incomplete.
pub proof fn law_failed_lookup_makes_the_evaluation_incomplete(
    first: FetchCompleteness,
    resolved: Seq<ResolvedCandidate>,
    i: int,
)
    requires
        0 <= i < resolved.len(),
        resolved[i].completeness == FetchCompleteness::Incomplete,
    ensures
        combined_completeness(first, resolved) == FetchCompleteness::Incomplete,
    decreases resolved.len(),
{
    if i < resolved.len() - 1 {
        law_failed_lookup_makes_the_evaluation_incomplete(first, resolved.drop_last(), i);
    }
}

/// A candidate qualifies exactly where it is another package, has at least fifty dependents, and
/// at least fifty times those of the declared package; beyond what can be counted, only the
/// largest count is enough.
pub proof fn law_what_qualifies(
    declared_name: Seq<char>,
    declared: u64,
    name: Seq<char>,
    count: u64,
)
    ensures
        declared * 50 <= u64::MAX ==> (qualifies(declared_name, declared, (name, count)) <==> name
            != declared_name && count >= 50 && count >= declared * 50),
        declared * 50 > u64::MAX ==> (qualifies(declared_name, declared, (name, count)) <==> name
            != declared_name && count == u64::MAX),
{
}

/// The suspicion names the most popular candidate that qualifies, the last one of several equally
/// popular, with both counts; there is none exactly where no candidate qualifies.
pub proof fn law_suspicion_falls_on_the_most_popular(
    r: Option<TyposquatSignal>,
    declared_name: Seq<char>,
    declared: u64,
    candidates: Seq<(Seq<char>, u64)>,
    i: int,
)
    requires
        is_evaluation(r, declared_name, declared, candidates),
        0 <= i < candidates.len(),
        qualifies(declared_name, declared, candidates[i]),
    ensures
        r matches Some(signal) && {
            &&& signal.declared_dependent_count == declared
            &&& signal.suspected_name@ != declared_name
            &&& signal.suspected_dependent_count >= candidates[i].1
            &&& candidates.contains((signal.suspected_name@, signal.suspected_dependent_count))
            &&& (forall|j: int|
                i < j < candidates.len() && qualifies(
                    declared_name,
                    declared,
                    #[trigger] candidates[j],
                ) ==> candidates[j].1 < candidates[i].1) && signal.suspected_dependent_count
                == candidates[i].1 ==> signal.suspected_name@ == candidates[i].0
        },
{
    let signal = r->0;
    let k = choose|k: int| #[trigger]
        is_suspect(declared_name, declared, candidates, k) && signal.suspected_name@
            == candidates[k].0 && signal.suspected_dependent_count == candidates[k].1
            && signal.declared_dependent_count == declared;
    assert(candidates[k] == (signal.suspected_name@, signal.suspected_dependent_count));
    assert(qualifies(declared_name, declared, candidates[k]));
}

/// No suspicion is raised where no candidate qualifies.
pub proof fn law_no_suspicion_without_a_suspect(
    r: Option<TyposquatSignal>,
    declared_name: Seq<char>,
    declared: u64,
    candidates: Seq<(Seq<char>, u64)>,
)
    requires
        is_evaluation(r, declared_name, declared, candidates),
        forall|j: int|
            0 <= j < candidates.len() ==> !qualifies(
                declared_name,
                declared,
                #[trigger] candidates[j],
            ),
    ensures
        r is None,
{
}

/// The candidates looked into are the first of the packages that are not the declared one, as
/// many as the cap allows.
pub proof fn law_first_foreign_packages_are_looked_into(name: Seq<char>, packages: Seq<String>)
    ensures
        ({
            let foreign = packages.map_values(|p: String| p@).filter(|s: Seq<char>| s != name);
            candidate_names(name, packages) == foreign.take(
                if foreign.len() < 5 {
                    foreign.len() as int
                } else {
                    5
                },
            )
        }),
    decreases packages.len(),
{
    reveal(Seq::filter);
    let other = |s: Seq<char>| s != name;
    let all = packages.map_values(|p: String| p@);
    let foreign = all.filter(other);
    if packages.len() == 0 {
        assert(all =~= Seq::<Seq<char>>::empty());
        assert(candidate_names(name, packages) =~= foreign.take(0));
    } else {
        let rest = packages.drop_last();
        law_first_foreign_packages_are_looked_into(name, rest);
        let before = rest.map_values(|p: String| p@);
        assert(all.drop_last() =~= before);
        assert(all.last() == packages.last()@);
        let known = before.filter(other);
        let m = if foreign.len() < 5 {
            foreign.len() as int
        } else {
            5
        };
        assert(candidate_names(name, packages) =~= foreign.take(m));
    }
}

/// Every candidate whose popularity could be told is counted, in order, and no other is.
pub proof fn law_every_told_popularity_counts(resolved: Seq<ResolvedCandidate>)
    ensures
        counted(resolved) == resolved.filter(
            |c: ResolvedCandidate| c.dependent_count is Some,
        ).map_values(|c: ResolvedCandidate| (c.name@, c.dependent_count->0)),
    decreases resolved.len(),
{
    reveal(Seq::filter);
    let told = |c: ResolvedCandidate| c.dependent_count is Some;
    let count = |c: ResolvedCandidate| (c.name@, c.dependent_count->0);
    if resolved.len() == 0 {
        assert(counted(resolved) =~= resolved.filter(told).map_values(count));
    } else {
        let rest = resolved.drop_last();
        law_every_told_popularity_counts(rest);
        if told(resolved.last()) {
            assert(resolved.filter(told).map_values(count) =~= rest.filter(told).map_values(
                count,
            ).push(count(resolved.last())));
        }
    }
}

/// An evaluation is complete exactly where everything that it rests on is.
pub proof fn law_evaluation_is_as_complete_as_its_lookups(
    first: FetchCompleteness,
    resolved: Seq<ResolvedCandidate>,
)
    ensures
        combined_completeness(first, resolved) == FetchCompleteness::Complete <==> first
            == FetchCompleteness::Complete && forall|i: int|
            0 <= i < resolved.len() ==> (#[trigger] resolved[i]).completeness
                == FetchCompleteness::Complete,
    decreases resolved.len(),
{
    if resolved.len() > 0 {
        let rest = resolved.drop_last();
        law_evaluation_is_as_complete_as_its_lookups(first, rest);
        if combined_completeness(first, rest) == FetchCompleteness::Complete {
            assert forall|i: int| 0 <= i < rest.len() implies (
            #[trigger] resolved[i]).completeness == FetchCompleteness::Complete by {
                assert(rest[i].completeness == FetchCompleteness::Complete);
            }
            assert(resolved[resolved.len() - 1] == resolved.last());
        } else if first == FetchCompleteness::Complete {
            let i = choose|i: int|
                0 <= i < rest.len() && (#[trigger] rest[i]).completeness
                    != FetchCompleteness::Complete;
            assert(resolved[i].completeness != FetchCompleteness::Complete);
        }
    }
}

} // verus!
