//! GitHub repositories: names, tag pages, release pages and the memo of release dates.

use deps_core::cache_policy::ExpiringMap;
use deps_core::error::DepsError;
use deps_core::freshness::PublishTime;
use deps_core::github::{
    classify_release_fetch, dates_of_releases, github_rate_limit_error, is_valid_github_identity,
    normalize_tag, page_has_more, paginate_tags, parse_releases_page, parse_tags_page,
    tags_page_outcome, validate_owner_repo, warn_if_pagination_truncated, AuthToken,
    GithubRelease, GithubTag, GithubTagCommit, GithubTagsClient,
    ReleaseDatesCache, ReleaseLookup, TagPagination, GITHUB_API, MAX_RELEASE_DATES_MEMO_ENTRIES,
    MAX_TAG_PAGES, RELEASE_DATES_ERROR_TTL, RELEASE_DATES_TTL,
};

/// The clock of these tests, in milliseconds.
const NOW: u64 = 10_000_000;

fn insert_aged(map: &mut ExpiringMap<()>, name: String, secs_ago: u64, ttl: u64) {
    map.insert(vec![name], (), ttl, NOW - secs_ago * 1000, usize::MAX);
}

#[test]
fn test_is_valid_github_identity_accepts_owner_repo() {
    assert!(is_valid_github_identity("actions/checkout"));
    assert!(is_valid_github_identity("org.name/repo_name-v2"));
}

#[test]
fn test_is_valid_github_identity_rejects_malformed() {
    assert!(!is_valid_github_identity("no-slash"));
    assert!(!is_valid_github_identity(""));
    assert!(!is_valid_github_identity("owner/repo/extra"));
    assert!(!is_valid_github_identity("owner/ repo"));
    assert!(!is_valid_github_identity("../../etc/passwd"));
}

#[test]
fn test_is_valid_github_identity_rejects_dot_segment() {
    assert!(!is_valid_github_identity("owner/.."));
    assert!(!is_valid_github_identity("owner/."));
    assert!(!is_valid_github_identity("../repo"));
    assert!(!is_valid_github_identity("./repo"));
}

#[test]
fn test_validate_owner_repo_invalid_format_message() {
    let err = validate_owner_repo("no-slash").err().unwrap();
    assert!(err.to_string().contains("invalid owner/repo format"));
}

#[test]
fn test_validate_owner_repo_valid() {
    assert!(validate_owner_repo("apple/swift-nio").is_ok());
    assert!(validate_owner_repo("actions/checkout").is_ok());
    assert!(validate_owner_repo("org.name/repo_name-v2").is_ok());
}

#[test]
fn test_validate_owner_repo_invalid() {
    assert!(validate_owner_repo("no-slash").is_err());
    assert!(validate_owner_repo("../../etc/passwd").is_err());
    assert!(validate_owner_repo("owner/repo/extra").is_err());
    assert!(validate_owner_repo("owner/ repo").is_err());
    assert!(validate_owner_repo("").is_err());
}

#[test]
fn test_validate_owner_repo_rejects_dot_segment_repo() {
    assert!(validate_owner_repo("owner/..").is_err());
    assert!(validate_owner_repo("owner/.").is_err());
}

#[test]
fn test_validate_owner_repo_rejects_dot_segment_owner() {
    assert!(validate_owner_repo("../repo").is_err());
    assert!(validate_owner_repo("./repo").is_err());
}

#[test]
fn test_page_has_more_full_page_continues() {
    assert!(page_has_more(100));
}

#[test]
fn test_page_has_more_partial_page_stops() {
    assert!(!page_has_more(99));
    assert!(!page_has_more(0));
}

#[test]
fn test_pagination_warns_when_truncated_at_cap() {
    let output = warn_if_pagination_truncated("Swift", "owner/repo", MAX_TAG_PAGES, 100)
        .unwrap_or_default();
    assert!(output.contains("owner/repo"), "output was: {output}");
    assert!(output.contains("Swift"), "output was: {output}");
    assert!(output.contains("cap"), "output was: {output}");
}

#[test]
fn test_pagination_silent_when_under_cap() {
    let output = warn_if_pagination_truncated("Swift", "owner/repo", MAX_TAG_PAGES - 1, 100)
        .unwrap_or_default();
    assert!(output.is_empty(), "output was: {output}");
}

#[test]
fn test_pagination_silent_when_last_page_at_cap_is_partial() {
    let output = warn_if_pagination_truncated("Swift", "owner/repo", MAX_TAG_PAGES, 42)
        .unwrap_or_default();
    assert!(output.is_empty(), "output was: {output}");
}

#[test]
fn test_parse_tags_page_returns_raw_tags() {
    let json = r#"[{"name": "v1.0.0"}, {"name": "not-semver"}]"#;
    let tags = parse_tags_page(json.as_bytes()).ok().unwrap();
    assert_eq!(tags.len(), 2);
    assert_eq!(tags[0].name, "v1.0.0");
}

#[test]
fn test_parse_tags_page_missing_commit_defaults() {
    let json = r#"[{"name": "1.0.0"}]"#;
    let tags = parse_tags_page(json.as_bytes()).ok().unwrap();
    assert_eq!(tags.len(), 1);
    assert_eq!(tags[0].commit.sha, "");
}

#[test]
fn test_parse_tags_page_invalid_json_returns_empty() {
    let result = parse_tags_page(b"not json").ok().unwrap();
    assert!(result.is_empty());
}

#[test]
fn test_parse_tags_page_github_rate_limit_returns_error() {
    let json = r#"{"message":"API rate limit exceeded for 1.2.3.4."}"#;
    let result = parse_tags_page(json.as_bytes());
    assert!(result.is_err());
    assert!(result.err().unwrap().to_string().contains("rate limit"));
}

#[test]
fn test_github_tags_client_for_test_sets_token_header() {
    let client = GithubTagsClient::for_test("http://example", true);
    assert!(client.has_token());
    assert_eq!(client.api_base(), "http://example");
    assert_eq!(client.headers().len(), 1);
}

#[test]
fn test_github_tags_client_for_test_no_token_has_no_headers() {
    let client =
        GithubTagsClient::for_test("http://example", false);
    assert!(!client.has_token());
    assert!(client.headers().is_empty());
}

#[test]
fn test_auth_token_debug_redacts_value() {
    let token = AuthToken::new("Bearer super-secret-value");
    assert_eq!(token.debug_text(), "AuthToken(***)");
}

#[test]
fn test_auth_token_display_redacts_value() {
    let token = AuthToken::new("Bearer super-secret-value");
    assert_eq!(token.to_string(), "***");
}

#[test]
fn test_auth_token_debug_redacts_when_embedded_in_header_vec() {
    let token = AuthToken::new("Bearer super-secret-value");
    let headers = vec![(reqwest::header::AUTHORIZATION, token)];
    let debug_output = format!(
        "{:?}",
        headers.iter().map(|(n, t)| (n.as_str(), t.debug_text())).collect::<Vec<_>>()
    );
    assert!(
        !debug_output.contains("super-secret-value"),
        "{debug_output}"
    );
    assert!(debug_output.contains("AuthToken(***)"), "{debug_output}");
}

#[test]
fn test_normalize_tag_strips_lowercase_v() {
    assert_eq!(normalize_tag("v1.2.3"), "1.2.3");
}

#[test]
fn test_normalize_tag_strips_uppercase_v() {
    assert_eq!(normalize_tag("V1.2.3"), "1.2.3");
}

#[test]
fn test_normalize_tag_no_prefix_unchanged() {
    assert_eq!(normalize_tag("1.2.3"), "1.2.3");
}

#[test]
fn test_parse_releases_page_happy_path() {
    let json = br#"[
            {"tag_name": "2.0.0", "published_at": "2026-01-02T08:56:05Z", "draft": false},
            {"tag_name": "1.0.0", "published_at": "2025-06-01T00:00:00Z", "draft": false}
        ]"#;
    let dates = parse_releases_page(json).unwrap();
    assert_eq!(dates.len(), 2);
    assert!(dates.contains_key("2.0.0"));
    assert!(dates.contains_key("1.0.0"));
}

#[test]
fn test_parse_releases_page_skips_draft() {
    let json = br#"[
            {"tag_name": "2.0.0", "published_at": "2026-01-02T08:56:05Z", "draft": true},
            {"tag_name": "1.0.0", "published_at": "2025-06-01T00:00:00Z", "draft": false}
        ]"#;
    let dates = parse_releases_page(json).unwrap();
    assert_eq!(dates.len(), 1);
    assert!(!dates.contains_key("2.0.0"));
    assert!(dates.contains_key("1.0.0"));
}

#[test]
fn test_parse_releases_page_skips_null_published_at() {
    let json = br#"[
            {"tag_name": "2.0.0", "published_at": null, "draft": false}
        ]"#;
    let dates = parse_releases_page(json).unwrap();
    assert!(dates.is_empty());
}

#[test]
fn test_parse_releases_page_v_prefix_joins_tag() {
    let json =
        br#"[{"tag_name": "V1.2.3", "published_at": "2026-01-02T08:56:05Z", "draft": false}]"#;
    let dates = parse_releases_page(json).unwrap();
    assert!(dates.contains_key("1.2.3"));
    assert!(!dates.contains_key("V1.2.3"));
}

#[test]
fn test_parse_releases_page_empty_array_is_a_successful_zero_release_page() {
    let dates = parse_releases_page(b"[]");
    assert!(dates.is_some_and(|d| d.is_empty()));
}

#[test]
fn test_parse_releases_page_malformed_json_returns_none() {
    assert!(parse_releases_page(b"not json").is_none());
}

#[test]
fn test_parse_releases_page_github_error_object_returns_none() {
    let json = br#"{"message":"API rate limit exceeded for 1.2.3.4."}"#;
    assert!(parse_releases_page(json).is_none());
}

#[test]
fn test_parse_releases_page_duplicate_normalized_keys_first_wins() {
    let json = br#"[
            {"tag_name": "v1.0.0", "published_at": "2026-06-01T00:00:00Z", "draft": false},
            {"tag_name": "1.0.0", "published_at": "2025-01-01T00:00:00Z", "draft": false}
        ]"#;
    let dates = parse_releases_page(json).unwrap();
    assert_eq!(dates.len(), 1);
    assert_eq!(
        dates.get("1.0.0"),
        PublishTime::parse_rfc3339("2026-06-01T00:00:00Z")
    );
}

#[test]
fn test_classify_release_fetch_success_gets_positive_ttl() {
    let json =
        br#"[{"tag_name": "1.0.0", "published_at": "2026-01-02T08:56:05Z", "draft": false}]"#;
    let (dates, ttl) = classify_release_fetch(Some(Ok(json.to_vec())));
    assert_eq!(dates.len(), 1);
    assert_eq!(ttl, RELEASE_DATES_TTL);
}

#[test]
fn test_classify_release_fetch_empty_but_valid_page_gets_positive_ttl() {
    let (dates, ttl) = classify_release_fetch(Some(Ok(b"[]".to_vec())));
    assert!(dates.is_empty());
    assert_eq!(ttl, RELEASE_DATES_TTL);
}

#[test]
fn test_classify_release_fetch_unparseable_body_gets_error_ttl() {
    let (dates, ttl) = classify_release_fetch(Some(Ok(b"not json".to_vec())));
    assert!(dates.is_empty());
    assert_eq!(ttl, RELEASE_DATES_ERROR_TTL);
}

#[test]
fn test_classify_release_fetch_http_error_gets_error_ttl() {
    let (dates, ttl) =
        classify_release_fetch(Some(Err(DepsError::CacheError("boom".to_string()))));
    assert!(dates.is_empty());
    assert_eq!(ttl, RELEASE_DATES_ERROR_TTL);
}

#[test]
fn test_classify_release_fetch_timeout_gets_error_ttl() {
    let (dates, ttl) = classify_release_fetch(None);
    assert!(dates.is_empty());
    assert_eq!(ttl, RELEASE_DATES_ERROR_TTL);
}

#[test]
fn test_evict_release_dates_if_full_noop_under_cap() {
    let mut map = ExpiringMap::new();
    insert_aged(&mut map, "a/a".to_string(), 0, RELEASE_DATES_TTL);
    map.evict_expired_then_oldest(MAX_RELEASE_DATES_MEMO_ENTRIES, NOW);
    assert_eq!(map.len(), 1);
}

#[test]
fn test_evict_release_dates_if_full_drops_expired_entries_first() {
    let mut map = ExpiringMap::new();
    for i in 0..MAX_RELEASE_DATES_MEMO_ENTRIES {
        insert_aged(&mut map, format!("owner/repo{i}"), 1000, RELEASE_DATES_ERROR_TTL);
    }
    assert_eq!(map.len(), MAX_RELEASE_DATES_MEMO_ENTRIES);
    map.evict_expired_then_oldest(MAX_RELEASE_DATES_MEMO_ENTRIES, NOW);
    assert!(
        map.len() == 0,
        "all entries were expired and must be dropped"
    );
}

#[test]
fn test_evict_release_dates_if_full_drops_oldest_when_none_expired() {
    let mut map = ExpiringMap::new();
    for i in 0..MAX_RELEASE_DATES_MEMO_ENTRIES {
        insert_aged(&mut map, format!("owner/repo{i}"), i as u64, RELEASE_DATES_TTL);
    }
    assert_eq!(map.len(), MAX_RELEASE_DATES_MEMO_ENTRIES);
    map.evict_expired_then_oldest(MAX_RELEASE_DATES_MEMO_ENTRIES, NOW);
    assert_eq!(
        map.len(),
        MAX_RELEASE_DATES_MEMO_ENTRIES - 1,
        "exactly one entry (the oldest) must be evicted"
    );
    assert!(!map.contains_key(&vec![format!("owner/repo{}", MAX_RELEASE_DATES_MEMO_ENTRIES - 1)]));
    assert!(map.contains_key(&vec!["owner/repo0".to_string()]));
}

#[test]
fn test_error_ttl_is_shorter_than_positive_ttl() {
    assert!(RELEASE_DATES_ERROR_TTL < RELEASE_DATES_TTL);
}

// --- pagination ---

fn named_page(prefix: &str, count: usize) -> Vec<u8> {
    let entries: Vec<String> =
        (0..count).map(|i| format!(r#"{{"name":"{prefix}-{i}"}}"#)).collect();
    format!("[{}]", entries.join(",")).into_bytes()
}

fn tags_page_json(count: usize) -> Vec<u8> {
    named_page("tag", count)
}

/// Runs a pagination as a client would, fetching each batch in full. Returns the pagination's
/// result, the pages that were fetched, and the warnings.
fn run_pagination(
    fetch: impl Fn(u32) -> Result<Vec<u8>, DepsError>,
) -> (Result<usize, DepsError>, Vec<u32>, Vec<String>, Vec<String>) {
    let mut state = TagPagination::new();
    let mut fetched = Vec::new();
    let mut warnings = Vec::new();
    while let Some((first, last)) = state.next_batch() {
        let batch: Vec<_> = (first..=last).map(|page| (page, fetch(page))).collect();
        for (page, body) in batch {
            fetched.push(page);
            match state.accept_page("Swift", "owner/repo", body) {
                Ok(warning) => warnings.extend(warning),
                Err(e) => return (Err(e), fetched, warnings, Vec::new()),
            }
        }
    }
    let names: Vec<String> = state.into_tags().into_iter().map(|t| t.name).collect();
    (Ok(names.len()), fetched, warnings, names)
}

#[test]
fn test_paginate_tags_single_page_repo_fetches_exactly_once() {
    let (result, fetched, warnings, _) = run_pagination(|page| match page {
        1 => Ok(tags_page_json(42)),
        _ => panic!("page {page} must not be fetched"),
    });
    assert_eq!(fetched, vec![1]);
    assert_eq!(result.ok(), Some(42));
    assert!(warnings.is_empty());
}

#[test]
fn test_paginate_tags_stops_after_partial_page() {
    let (result, fetched, warnings, _) = run_pagination(|page| match page {
        1 => Ok(tags_page_json(100)),
        2 => Ok(tags_page_json(42)),
        3..=6 => Ok(tags_page_json(0)),
        _ => panic!("page {page} must not be fetched"),
    });
    assert_eq!(fetched.len(), 6);
    assert_eq!(result.ok(), Some(142));
    assert!(warnings.is_empty());
}

#[test]
fn test_paginate_tags_preserves_page_order_despite_inverted_completion() {
    let (result, _, _, names) = run_pagination(|page| match page {
        1..=5 => Ok(named_page(&format!("page{page}"), 100)),
        6 => Ok(named_page("page6", 1)),
        _ => panic!("page {page} must not be fetched"),
    });
    assert_eq!(result.ok(), Some(501));
    for (prefix, start, len) in [
        ("page1", 0, 100),
        ("page2", 100, 100),
        ("page3", 200, 100),
        ("page4", 300, 100),
        ("page5", 400, 100),
        ("page6", 500, 1),
    ] {
        for i in 0..len {
            assert!(names[start + i].starts_with(prefix));
        }
    }
}

#[test]
fn test_paginate_tags_mid_batch_error_propagates_as_that_pages_error() {
    let (result, _, _, _) = run_pagination(|page| match page {
        1..=3 => Ok(tags_page_json(100)),
        4 => Err(DepsError::CacheError("boom from page 4".to_string())),
        5..=6 => Ok(tags_page_json(100)),
        _ => panic!("page {page} must not be fetched"),
    });
    assert!(result.err().unwrap().to_string().contains("boom from page 4"));
}

#[test]
fn test_paginate_tags_warns_when_cap_reached_with_full_last_page() {
    let (result, fetched, warnings, _) = run_pagination(|_| Ok(tags_page_json(100)));
    assert_eq!(result.ok(), Some(100 * MAX_TAG_PAGES as usize));
    assert_eq!(fetched.len(), MAX_TAG_PAGES as usize);
    assert_eq!(warnings.len(), 1);
    assert!(warnings[0].contains("owner/repo"));
    assert!(warnings[0].contains("cap"));
}

#[test]
fn paginate_tags_reads_a_list_of_pages() {
    let pages = vec![Ok(tags_page_json(100)), Ok(tags_page_json(3)), Ok(tags_page_json(9))];
    assert_eq!(paginate_tags("Swift", "o/r", pages).ok().unwrap().len(), 103);
    let pages = vec![Ok(br#"{"message":"rate"}"#.to_vec())];
    let failure = paginate_tags("Swift", "o/r", pages).err().unwrap();
    assert_eq!(failure.to_string(), "cache error: GitHub API error: rate");
    assert!(paginate_tags("Swift", "o/r", Vec::new()).ok().unwrap().is_empty());
}

#[test]
fn tag_pages_of_another_shape_are_empty() {
    for body in [r#"{"name":"x"}"#, r#"[{"commit":{"sha":"a"}}]"#, r#"[{"name":1}]"#, "7", ""] {
        assert!(parse_tags_page(body.as_bytes()).ok().unwrap().is_empty(), "{body}");
    }
    let page = br#"[{"name":"v1","commit":{"sha":"abc","url":"u"},"zipball_url":"z"}]"#;
    let tags = parse_tags_page(page).ok().unwrap();
    assert_eq!(tags[0].commit.sha, "abc");
}

#[test]
fn fields_that_are_read_may_not_be_repeated() {
    for body in [
        r#"[{"name":"a","name":"a"}]"#,
        r#"[{"name":"a","na\u006de":"b"}]"#,
        r#"[{"name":"a","commit":{"sha":"1"},"commit":{"sha":"1"}}]"#,
        r#"[{"name":"a","commit":{"sha":"1","sha":"2"}}]"#,
    ] {
        assert!(parse_tags_page(body.as_bytes()).ok().unwrap().is_empty(), "{body}");
    }
    assert!(parse_tags_page(br#"{"message":"a","message":"b"}"#).ok().unwrap().is_empty());
    for body in [
        r#"[{"tag_name":"v1","tag_name":"v2"}]"#,
        r#"[{"tag_name":"v1","published_at":null,"published_at":null}]"#,
        r#"[{"tag_name":"v1","draft":false,"draft":false}]"#,
    ] {
        assert!(parse_releases_page(body.as_bytes()).is_none(), "{body}");
    }
    let ignored = br#"[{"id":1,"name":"a","id":2,"id":3}]"#;
    assert_eq!(parse_tags_page(ignored).ok().unwrap()[0].name, "a");
}

#[test]
fn fields_that_are_not_read_may_hold_anything() {
    let deep = format!("{}{}", "[".repeat(500), "]".repeat(500));
    for held in ["1e999", "-123456789012345678901234567890.5e+999", r#""\ud800""#, &deep, "{}"] {
        let body = format!(r#"[{{"x":{held},"name":"a","commit":{{"sha":"1","y":{held}}}}}]"#);
        let tags = parse_tags_page(body.as_bytes()).ok().unwrap();
        assert_eq!(tags.len(), 1, "{held}");
        assert_eq!((tags[0].name.as_str(), tags[0].commit.sha.as_str()), ("a", "1"));
    }
    let bytes = b"[{\"x\":\"\xff\",\"name\":\"a\"}]";
    assert_eq!(parse_tags_page(bytes).ok().unwrap().len(), 1);
    // What is read is looked at.
    for body in [r#"[{"name":"\ud800"}]"#, r#"[{"\ud800":1,"name":"a"}]"#] {
        assert!(parse_tags_page(body.as_bytes()).ok().unwrap().is_empty(), "{body}");
    }
    assert!(parse_tags_page(b"[{\"name\":\"\xff\"}]").ok().unwrap().is_empty());
}

#[test]
fn pages_are_whole_json_texts() {
    for body in [
        r#"[{"name":"a"},]"#,
        r#"[{"name":"a",}]"#,
        r#"[{"name":"a"}"#,
        r#"[{"name":"a"}] x"#,
        r#"[{"name":"a"} {"name":"b"}]"#,
        r#"[{"name" "a"}]"#,
        r#"[{name:"a"}]"#,
        r#"[,{"name":"a"}]"#,
        r#"[{"name":"a","x":01}]"#,
        r#"[{"name":"a","x":nul}]"#,
        r#"[{"name":"a","x":[1,]}]"#,
    ] {
        assert!(parse_tags_page(body.as_bytes()).ok().unwrap().is_empty(), "{body}");
    }
    let spaced = " [ { \"x\" : 1 , \"name\"\t: \"v\\u0031\\n\" ,\"commit\" :\r\n{ } } ,[ \"b\" , { } ] ] \n";
    let tags = parse_tags_page(spaced.as_bytes()).ok().unwrap();
    assert_eq!(tags.len(), 2);
    assert_eq!((tags[0].name.as_str(), tags[1].name.as_str()), ("v1\n", "b"));
    assert!(parse_tags_page(b" [ ] ").ok().unwrap().is_empty());
    assert!(parse_releases_page(b" [ ] ").unwrap().is_empty());
    assert!(parse_releases_page(b" { } ").is_none());
    assert!(parse_releases_page(b"[] []").is_none());
}

#[test]
fn records_may_be_written_as_lists() {
    let tags = parse_tags_page(br#"[["a"],["b",["1"]],["c",{"sha":"2"}]]"#).ok().unwrap();
    assert_eq!(tags.len(), 3);
    assert_eq!(tags[1].commit.sha, "1");
    assert_eq!(tags[2].commit.sha, "2");
    for body in [r#"[[]]"#, r#"[["a",{},1]]"#, r#"[["a",null]]"#] {
        assert!(parse_tags_page(body.as_bytes()).ok().unwrap().is_empty(), "{body}");
    }
    let failure = parse_tags_page(br#"["rate"]"#).err().unwrap();
    assert_eq!(failure.to_string(), "cache error: GitHub API error: rate");
    assert!(parse_releases_page(br#"[["v1","1970-01-01T00:00:07Z"]]"#).unwrap().contains_key("1"));
    assert!(parse_releases_page(br#"[["v1"]]"#).is_none());
    assert!(parse_releases_page(br#"[{"tag_name":"v1"}]"#).unwrap().is_empty());
}

#[test]
fn room_is_made_as_of_the_end_of_a_lookup() {
    let github = GithubTagsClient::new(Some("SECRET-REDACTED"));
    let mut cache = ReleaseDatesCache::new();
    // A failure that expires while the last lookup is under way, and live entries that fill up.
    cache.store(&github, "o/failed", None, NOW - 89_000, NOW - 89_000);
    let live = |i: usize| format!("o/r{i}");
    for i in 1..MAX_RELEASE_DATES_MEMO_ENTRIES {
        let began = NOW - 200_000 + i as u64;
        cache.store(&github, &live(i), Some(Ok(b"[]".to_vec())), began, began);
    }
    cache.store(&github, "o/last", Some(Ok(b"[]".to_vec())), NOW, NOW + 1_500);
    let known = |name: &str| matches!(cache.lookup(&github, name, NOW), ReleaseLookup::Memoized(_));
    assert!(!known("o/failed"));
    assert!(known("o/last"));
    assert!((1..MAX_RELEASE_DATES_MEMO_ENTRIES).all(|i| known(&live(i))));
}

#[test]
fn tags_come_before_an_error_message() {
    let tag = || GithubTag { name: "a".to_string(), commit: GithubTagCommit::default() };
    let outcome = tags_page_outcome(Some(vec![tag()]), Some("m".to_string()));
    assert_eq!(outcome.ok().unwrap(), vec![tag()]);
    let failure = tags_page_outcome(None, Some("m".to_string())).err().unwrap();
    assert!(matches!(failure, DepsError::CacheError(text) if text == "GitHub API error: m"));
    assert!(tags_page_outcome(None, None).ok().unwrap().is_empty());
}

#[test]
fn rate_limit_error_is_actionable() {
    assert!(matches!(github_rate_limit_error(), DepsError::RateLimited { .. }));
    assert!(github_rate_limit_error().to_string().contains("GITHUB_TOKEN"));
}

#[test]
fn client_addresses_its_own_origin() {
    let client = GithubTagsClient::new(Some("SECRET-REDACTED"));
    assert_eq!(client.api_base(), GITHUB_API);
    assert_eq!(client.trusted_origin(), "https://api.github.com/");
    assert_eq!(client.headers(), vec![("authorization", "Bearer SECRET-REDACTED")]);
    assert_eq!(
        client.tags_page_url("owner/repo", 7),
        "https://api.github.com/repos/owner/repo/tags?per_page=100&page=7"
    );
    assert_eq!(
        client.releases_url("owner/repo"),
        "https://api.github.com/repos/owner/repo/releases?per_page=100"
    );
    assert!(!GithubTagsClient::new(None).has_token());
}

#[test]
fn releases_without_a_readable_date_give_none() {
    let release = |tag: &str, date: Option<&str>, draft| GithubRelease {
        tag_name: tag.to_string(),
        published_at: date.map(str::to_string),
        draft,
    };
    let dates = dates_of_releases(&vec![
        release("v1", Some("yesterday"), false),
        release("v2", Some("1970-01-01T00:00:07Z"), false),
        release("v3", None, false),
        release("2", Some("1970-01-01T00:00:09Z"), false),
        release("v4", Some("1970-01-01T00:00:11Z"), true),
    ]);
    assert_eq!(dates.len(), 1);
    assert_eq!(dates.get("2").map(|t| t.as_unix_secs()), Some(7));
    assert_eq!(dates.get("v2"), None);
}

// --- memo of release dates ---

const PAGE: &[u8] =
    br#"[{"tag_name":"9.9.9","published_at":"2026-01-02T08:56:05Z","draft":false}]"#;

fn untokened_client() -> GithubTagsClient {
    GithubTagsClient::for_test(GITHUB_API, false)
}

#[test]
fn test_fetch_validate_owner_repo_rejection_issues_zero_requests() {
    let cache = ReleaseDatesCache::new();
    let github = GithubTagsClient::for_test(GITHUB_API, true);
    assert!(matches!(cache.lookup(&github, "../../etc/passwd", NOW), ReleaseLookup::Rejected));
}

#[test]
fn test_fetch_positive_ttl_hit_returns_memoized_value_without_refetch() {
    let mut cache = ReleaseDatesCache::new();
    let github = untokened_client();
    let published = PublishTime::parse_rfc3339("2026-01-02T08:56:05Z");
    let dates = cache.store(&github, "owner/repo", Some(Ok(PAGE.to_vec())), NOW - 60_000, NOW - 60_000);
    assert_eq!(dates.get("9.9.9"), published);
    match cache.lookup(&github, "owner/repo", NOW) {
        ReleaseLookup::Memoized(dates) => assert_eq!(dates.get("9.9.9"), published),
        _ => panic!("a fresh entry must be served"),
    }
    assert!(matches!(
        cache.lookup(&github, "owner/repo", NOW - 60_000 + RELEASE_DATES_TTL),
        ReleaseLookup::NoToken
    ));
}

#[test]
fn test_fetch_empty_but_successful_fetch_retained_under_positive_ttl() {
    let mut cache = ReleaseDatesCache::new();
    let github = untokened_client();
    cache.store(&github, "owner/repo", Some(Ok(b"[]".to_vec())), NOW - 100_000, NOW - 100_000);
    match cache.lookup(&github, "owner/repo", NOW) {
        ReleaseLookup::Memoized(dates) => assert!(dates.is_empty()),
        _ => panic!("an empty page is a success"),
    }
}

#[test]
fn test_fetch_unexpired_error_ttl_entry_is_memo_hit() {
    let mut cache = ReleaseDatesCache::new();
    let github = untokened_client();
    cache.store(&github, "owner/repo", None, NOW - 60_000, NOW - 60_000);
    assert!(matches!(cache.lookup(&github, "owner/repo", NOW), ReleaseLookup::Memoized(_)));
}

#[test]
fn test_fetch_expired_error_ttl_entry_falls_through_to_token_gate() {
    let mut cache = ReleaseDatesCache::new();
    let github = untokened_client();
    cache.store(&github, "owner/repo", None, NOW - 100_000, NOW - 100_000);
    assert!(matches!(cache.lookup(&github, "owner/repo", NOW), ReleaseLookup::NoToken));
    let notice = cache.skip_notice("Test").unwrap();
    assert!(notice.contains("GITHUB_TOKEN not set"));
}

#[test]
fn test_fetch_token_gate_skip_logs_once_per_cache_and_names_ecosystem() {
    let mut cache = ReleaseDatesCache::default();
    let notice = cache.skip_notice("Test").unwrap();
    assert!(notice.contains("Test release dates are unavailable"), "{notice}");
    assert!(cache.skip_notice("Test").is_none());
}

#[test]
fn test_fetch_does_not_serve_a_hit_seeded_under_a_different_api_base() {
    let mut cache = ReleaseDatesCache::new();
    cache.store(&untokened_client(), "owner/repo", Some(Ok(PAGE.to_vec())), NOW - 60_000, NOW - 60_000);
    let other = GithubTagsClient::for_test("http://127.0.0.1:1", false);
    assert!(matches!(cache.lookup(&other, "owner/repo", NOW), ReleaseLookup::NoToken));
    let tokened = GithubTagsClient::for_test("http://127.0.0.1:1", true);
    match cache.lookup(&tokened, "owner/repo", NOW) {
        ReleaseLookup::Fetch(url) => {
            assert_eq!(url, "http://127.0.0.1:1/repos/owner/repo/releases?per_page=100");
        }
        _ => panic!("a miss with a token is fetched"),
    }
}
