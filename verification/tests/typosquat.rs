//! The popularity gate.

use deps_core::deps_dev::memo::FetchCompleteness;
use deps_core::deps_dev::requests::CallFailure;
use deps_core::deps_dev::typosquat::{
    evaluate_candidates, similar_packages_outcome, typosquat_signal, ResolvedCandidate,
};

#[test]
fn evaluate_candidates_49x_ratio_does_not_fire() {
    let candidates = [("popular".to_string(), 49)];
    assert!(evaluate_candidates("tiny", 1, &candidates).is_none());
}

#[test]
fn evaluate_candidates_50x_ratio_fires() {
    let candidates = [("popular".to_string(), 50)];
    let signal = evaluate_candidates("tiny", 1, &candidates).expect("must fire at exactly 50x");
    assert_eq!(signal.suspected_name, "popular");
    assert_eq!(signal.declared_dependent_count, 1);
    assert_eq!(signal.suspected_dependent_count, 50);
}

#[test]
fn evaluate_candidates_51x_ratio_fires() {
    let candidates = [("popular".to_string(), 51)];
    assert!(evaluate_candidates("tiny", 1, &candidates).is_some());
}

#[test]
fn evaluate_candidates_below_floor_never_fires_even_at_trivially_high_ratio() {
    let candidates = [("obscure".to_string(), 40)];
    assert!(evaluate_candidates("tiny", 0, &candidates).is_none());
}

#[test]
fn evaluate_candidates_at_floor_with_trivial_ratio_fires() {
    let candidates = [("popular".to_string(), 50)];
    assert!(evaluate_candidates("tiny", 0, &candidates).is_some());
}

#[test]
fn evaluate_candidates_excludes_exact_name_match() {
    let candidates = [("tiny".to_string(), 10_000)];
    assert!(evaluate_candidates("tiny", 1, &candidates).is_none());
}

#[test]
fn evaluate_candidates_empty_list_returns_none() {
    assert!(evaluate_candidates("tiny", 1, &[]).is_none());
}

#[test]
fn evaluate_candidates_picks_highest_dependent_count_among_multiple_qualifying() {
    let candidates = [("mid".to_string(), 100), ("top".to_string(), 500)];
    let signal = evaluate_candidates("tiny", 1, &candidates).expect("must fire");
    assert_eq!(signal.suspected_name, "top");
    assert_eq!(signal.suspected_dependent_count, 500);
}

#[test]
fn evaluate_candidates_last_of_equally_popular_ones_wins() {
    let candidates = [("a".to_string(), 500), ("b".to_string(), 500), ("c".to_string(), 60)];
    assert_eq!(evaluate_candidates("tiny", 1, &candidates).unwrap().suspected_name, "b");
}

#[test]
fn evaluate_candidates_ratio_gate_saturates() {
    let candidates = [("huge".to_string(), u64::MAX - 1)];
    assert!(evaluate_candidates("big", u64::MAX / 2, &candidates).is_none());
    let candidates = [("huge".to_string(), u64::MAX)];
    assert!(evaluate_candidates("big", u64::MAX / 2, &candidates).is_some());
}

fn names(list: &[&str]) -> Vec<String> {
    list.iter().map(|s| s.to_string()).collect()
}

#[test]
fn similar_packages_are_filtered_and_capped() {
    let reply = Ok(names(&["a", "me", "b", "c", "d", "e", "f"]));
    let (candidates, completeness) = similar_packages_outcome("me", reply).into_parts();
    let found: Vec<&str> = candidates.iter().map(|c| c.name.as_str()).collect();
    assert_eq!(found, vec!["a", "b", "c", "d", "e"]);
    assert_eq!(completeness, FetchCompleteness::Complete);
}

#[test]
fn missing_and_failed_searches_differ_in_completeness() {
    let (none, complete) = similar_packages_outcome("me", Err(CallFailure::NotFound)).into_parts();
    assert!(none.is_empty());
    assert_eq!(complete, FetchCompleteness::Complete);
    let (none, incomplete) =
        similar_packages_outcome("me", Err(CallFailure::Transient)).into_parts();
    assert!(none.is_empty());
    assert_eq!(incomplete, FetchCompleteness::Incomplete);
}

fn resolved(name: &str, count: Option<u64>, completeness: FetchCompleteness) -> ResolvedCandidate {
    ResolvedCandidate { name: name.to_string(), dependent_count: count, completeness }
}

#[test]
fn signal_fires_for_a_far_more_popular_candidate() {
    let complete = FetchCompleteness::Complete;
    let (signal, completeness) = typosquat_signal(
        "crossenv",
        complete,
        (Some(3), complete),
        vec![resolved("cross-env", Some(900), complete)],
    );
    let signal = signal.unwrap();
    assert_eq!(signal.suspected_name, "cross-env");
    assert_eq!(signal.suspected_dependent_count, 900);
    assert_eq!(completeness, complete);
}

#[test]
fn failed_candidate_lookup_makes_the_evaluation_incomplete() {
    let complete = FetchCompleteness::Complete;
    let (signal, completeness) = typosquat_signal(
        "crossenv",
        complete,
        (Some(3), complete),
        vec![
            resolved("cross-env", Some(10), complete),
            resolved("other", None, FetchCompleteness::Incomplete),
        ],
    );
    assert!(signal.is_none());
    assert_eq!(completeness, FetchCompleteness::Incomplete);
}

#[test]
fn no_candidates_and_unknown_popularity_raise_no_suspicion() {
    let complete = FetchCompleteness::Complete;
    let incomplete = FetchCompleteness::Incomplete;
    let (signal, completeness) = typosquat_signal("x", incomplete, (Some(1), complete), vec![]);
    assert!(signal.is_none());
    assert_eq!(completeness, incomplete);
    let (signal, completeness) = typosquat_signal(
        "x",
        complete,
        (None, complete),
        vec![resolved("popular", Some(1_000_000), complete)],
    );
    assert!(signal.is_none());
    assert_eq!(completeness, complete);
}
