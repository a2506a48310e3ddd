//! Error messages, what they redact, and how failures are classified.

use deps_core::error::{http_status_message, DepsError, ErrorSource, FetchFailure};

fn source_of<E: std::fmt::Display + std::fmt::Debug>(e: E) -> ErrorSource {
    ErrorSource::new(e.to_string(), format!("{e:?}"))
}

/// The transport error of a request whose URL does not parse.
fn transport_source(url: &str) -> ErrorSource {
    source_of(reqwest::Client::new().get(url).build().unwrap_err())
}

fn json_source(text: &str) -> ErrorSource {
    source_of(serde_json::from_str::<serde_json::Value>(text).unwrap_err())
}

fn io_source(kind: std::io::ErrorKind, message: &str) -> ErrorSource {
    source_of(std::io::Error::new(kind, message.to_string()))
}

#[test]
fn test_error_display() {
    let error = DepsError::CacheError("test error".into());
    assert_eq!(error.to_string(), "cache error: test error");
}

#[test]
fn test_safe_tracing_summary_covers_every_reachable_variant() {
    assert_eq!(
        DepsError::HttpStatus {
            url: "https://example.com/pkg?token=secret".into(),
            status: 503,
        }
        .safe_tracing_summary(),
        (Some(503), "http-status")
    );
    assert_eq!(
        DepsError::RegistryError {
            package: "https://example.com/pkg?token=secret".into(),
            source: transport_source("not a url"),
        }
        .safe_tracing_summary(),
        (None, "transport")
    );
    assert_eq!(
        DepsError::CacheError("poisoned lock".into()).safe_tracing_summary(),
        (None, "cache")
    );
    assert_eq!(
        DepsError::Offline {
            url: "https://example.com/pkg?token=secret".into(),
        }
        .safe_tracing_summary(),
        (None, "offline")
    );
    assert_eq!(
        DepsError::ResponseTooLarge {
            url: "https://example.com/pkg?token=secret".into(),
            limit: 1024,
        }
        .safe_tracing_summary(),
        (None, "response-too-large")
    );
}

#[test]
fn test_safe_tracing_summary_output_never_contains_the_url() {
    let error = DepsError::HttpStatus {
        url: "https://npm.internal/pkg?token=super-secret-value".into(),
        status: 503,
    };
    let (status, cause) = error.safe_tracing_summary();
    assert_eq!(status, Some(503));
    assert!(!cause.contains("super-secret-value"));
    assert!(!cause.contains("npm.internal"));
}

#[test]
fn test_response_too_large() {
    let error = DepsError::ResponseTooLarge {
        url: "https://example.com/data".into(),
        limit: 32 * 1024 * 1024,
    };
    assert_eq!(
        error.to_string(),
        "response body for https://example.com/data exceeds 33554432 byte limit"
    );
}

#[test]
fn test_http_status_display_redacts_query_string() {
    let error = DepsError::HttpStatus {
        url: "https://npm.internal/pkg?_authToken=super-secret-value".into(),
        status: 503,
    };
    let message = error.to_string();
    assert!(
        !message.contains("super-secret-value"),
        "message: {message}"
    );
    assert_eq!(
        message,
        "HTTP 503 Service Unavailable for https://npm.internal/pkg"
    );
}

#[test]
fn test_registry_error_display_redacts_query_string() {
    let error = DepsError::RegistryError {
        package: "https://npm.internal/pkg?_authToken=super-secret-value".into(),
        source: transport_source("not a url"),
    };
    let message = error.to_string();
    assert!(
        !message.contains("super-secret-value"),
        "message: {message}"
    );
    assert!(message.starts_with("registry request failed for https://npm.internal/pkg:"));
}

#[test]
fn test_registry_error_display_does_not_mangle_scoped_package_name() {
    let error = DepsError::RegistryError {
        package: "@types/node".into(),
        source: transport_source("not a url"),
    };
    let message = error.to_string();
    assert!(
        message.starts_with("registry request failed for @types/node:"),
        "message: {message}"
    );
}

#[test]
fn test_offline_display_redacts_query_string() {
    let error = DepsError::Offline {
        url: "https://npm.internal/pkg?_authToken=super-secret-value".into(),
    };
    let message = error.to_string();
    assert!(
        !message.contains("super-secret-value"),
        "message: {message}"
    );
}

#[test]
fn test_response_too_large_display_redacts_query_string() {
    let error = DepsError::ResponseTooLarge {
        url: "https://npm.internal/pkg?_authToken=super-secret-value".into(),
        limit: 1024,
    };
    let message = error.to_string();
    assert!(
        !message.contains("super-secret-value"),
        "message: {message}"
    );
}

#[test]
fn test_debug_redacts_query_string_for_every_url_bearing_variant() {
    let credential_bearing = [
        DepsError::HttpStatus {
            url: "https://npm.internal/pkg?_authToken=super-secret-value".into(),
            status: 503,
        },
        DepsError::Offline {
            url: "https://npm.internal/pkg?_authToken=super-secret-value".into(),
        },
        DepsError::ResponseTooLarge {
            url: "https://npm.internal/pkg?_authToken=super-secret-value".into(),
            limit: 1024,
        },
        DepsError::RegistryError {
            package: "https://npm.internal/pkg?_authToken=super-secret-value".into(),
            source: transport_source("not a url"),
        },
    ];
    for error in credential_bearing {
        let debug = error.debug_text();
        assert!(
            !debug.contains("super-secret-value"),
            "Debug leaked the credential: {debug}"
        );
    }
}

#[test]
fn test_debug_still_shows_non_url_fields() {
    let error = DepsError::PackageNotFound {
        package: "left-pad".into(),
        registry: "npm",
    };
    let debug = error.debug_text();
    assert!(debug.contains("left-pad"), "debug: {debug}");
    assert!(debug.contains("npm"), "debug: {debug}");
}

#[test]
fn test_invalid_version_req() {
    let error = DepsError::InvalidVersionReq("invalid".into());
    assert_eq!(error.to_string(), "invalid version requirement: invalid");
}

#[test]
fn test_parse_error() {
    let io_err = io_source(std::io::ErrorKind::InvalidData, "bad data");
    let error = DepsError::ParseError {
        file_type: "Cargo.toml".into(),
        source: io_err,
    };
    assert!(error.to_string().contains("failed to parse Cargo.toml"));
}

#[test]
fn test_io_error_conversion() {
    let io_err = io_source(std::io::ErrorKind::NotFound, "file not found");
    let error = DepsError::Io(io_err);
    assert!(error.to_string().contains("I/O error"));
}

#[test]
fn test_unsupported_ecosystem() {
    let error = DepsError::UnsupportedEcosystem("unknown".into());
    assert_eq!(error.to_string(), "unsupported ecosystem: unknown");
}

#[test]
fn test_ambiguous_ecosystem() {
    let error = DepsError::AmbiguousEcosystem("file.txt".into());
    assert_eq!(
        error.to_string(),
        "ambiguous ecosystem detection for file: file.txt"
    );
}

#[test]
fn test_invalid_uri() {
    let error = DepsError::InvalidUri("http://example.com".into());
    assert_eq!(error.to_string(), "invalid URI: http://example.com");
}

#[test]
fn test_offline_error_display_and_predicate() {
    let error = DepsError::Offline {
        url: "https://crates.io/api/v1/crates/serde".into(),
    };
    assert!(error.to_string().contains("offline"));
    assert!(error.is_offline());
    assert!(!error.is_not_found());

    let other = DepsError::CacheError("boom".into());
    assert!(!other.is_offline());
}

#[test]
fn test_package_not_found() {
    let error = DepsError::PackageNotFound {
        package: "flask".into(),
        registry: "PyPI",
    };
    assert_eq!(error.to_string(), "flask not found on PyPI");
}

#[test]
fn test_http_status_with_known_reason() {
    let error = DepsError::HttpStatus {
        url: "https://example.com/data".into(),
        status: 404,
    };
    assert_eq!(
        error.to_string(),
        "HTTP 404 Not Found for https://example.com/data"
    );
}

#[test]
fn test_http_status_with_unknown_code() {
    let error = DepsError::HttpStatus {
        url: "https://example.com/data".into(),
        status: 599,
    };
    assert_eq!(error.to_string(), "HTTP 599 for https://example.com/data");
}

#[test]
fn test_api_response_error() {
    let json_err = json_source("{invalid}");
    let error = DepsError::ApiResponse {
        package: "flask".into(),
        registry: "PyPI",
        source: json_err,
    };
    assert!(
        error
            .to_string()
            .starts_with("failed to parse PyPI response for flask:")
    );
}

#[test]
fn test_fetch_failure_classifies_every_non_rate_limited_variant_as_transient() {
    let reqwest_err = transport_source("not a valid url");
    let json_err = json_source("{invalid}");
    let io_err = io_source(std::io::ErrorKind::NotFound, "not found");

    let non_rate_limited = [
        DepsError::ParseError {
            file_type: "Cargo.toml".into(),
            source: io_source(std::io::ErrorKind::InvalidData, "bad"),
        },
        DepsError::RegistryError {
            package: "flask".into(),
            source: reqwest_err,
        },
        DepsError::CacheError("connection reset".into()),
        DepsError::PackageNotFound {
            package: "flask".into(),
            registry: "PyPI",
        },
        DepsError::HttpStatus {
            url: "https://example.com".into(),
            status: 500,
        },
        DepsError::ApiResponse {
            package: "flask".into(),
            registry: "PyPI",
            source: json_err,
        },
        DepsError::ResponseTooLarge {
            url: "https://example.com".into(),
            limit: 1024,
        },
        DepsError::InvalidVersionReq("bad range".into()),
        DepsError::Io(io_err),
        DepsError::Json(json_source("{bad}")),
        DepsError::UnsupportedEcosystem("unknown".into()),
        DepsError::AmbiguousEcosystem("file.txt".into()),
        DepsError::InvalidUri("not a uri".into()),
        DepsError::Offline {
            url: "https://example.com".into(),
        },
    ];

    for error in non_rate_limited {
        assert_eq!(
            error.fetch_failure(),
            FetchFailure::Transient,
            "expected Transient for {}",
            error.debug_text()
        );
    }

    let rate_limited = DepsError::RateLimited {
        message: "set GITHUB_TOKEN to increase the rate limit".into(),
    };
    assert_eq!(
        rate_limited.fetch_failure(),
        FetchFailure::Actionable("set GITHUB_TOKEN to increase the rate limit".into())
    );

    assert_eq!(
        DepsError::ChainResolutionHalted.fetch_failure(),
        FetchFailure::Actionable(
            "index unreachable — resolution halted, not falling back to a less-trusted \
             index"
                .to_string()
        )
    );
}

#[test]
fn debug_text_quotes_and_escapes() {
    let error = DepsError::CacheError("a\"b\n".into());
    assert_eq!(error.debug_text(), "CacheError(\"a\\\"b\\n\")");
    let error = DepsError::HttpStatus { url: "https://h/p?t=1".into(), status: 404 };
    assert_eq!(error.debug_text(), "HttpStatus { url: \"https://h/p\", status: 404 }");
    let error = DepsError::PackageNotFound { package: "left-pad".into(), registry: "npm" };
    assert_eq!(
        error.debug_text(),
        "PackageNotFound { package: \"left-pad\", registry: \"npm\" }"
    );
    assert_eq!(DepsError::ChainResolutionHalted.debug_text(), "ChainResolutionHalted");
    let error = DepsError::Io(ErrorSource::new("gone".into(), "Gone { code: 2 }".into()));
    assert_eq!(error.debug_text(), "Io(Gone { code: 2 })");
}

#[test]
fn rate_limit_message_is_shown_verbatim() {
    let error = DepsError::RateLimited { message: "set GITHUB_TOKEN".into() };
    assert_eq!(error.to_string(), "set GITHUB_TOKEN");
    assert_eq!(error.debug_text(), "RateLimited { message: \"set GITHUB_TOKEN\" }");
    assert_eq!(error.safe_tracing_summary(), (None, "rate-limited"));
}

#[test]
fn every_variant_has_its_message() {
    let source = || ErrorSource::new("why".into(), "Why".into());
    let cases = [
        (
            DepsError::ParseError { file_type: "Cargo.toml".into(), source: source() },
            "failed to parse Cargo.toml: why",
        ),
        (
            DepsError::RegistryError { package: "https://h/p?t=1".into(), source: source() },
            "registry request failed for https://h/p: why",
        ),
        (
            DepsError::ApiResponse { package: "flask".into(), registry: "PyPI", source: source() },
            "failed to parse PyPI response for flask: why",
        ),
        (DepsError::Io(source()), "I/O error: why"),
        (DepsError::Json(source()), "JSON error: why"),
        (
            DepsError::Offline { url: "https://h/p?t=1".into() },
            "offline: request to https://h/p was blocked by network.offline",
        ),
        (
            DepsError::ChainResolutionHalted,
            "index chain resolution halted by a transport error on one hop \u{2014} not falling \
             back to a less-trusted index",
        ),
    ];
    for (error, message) in cases {
        assert_eq!(error.to_string(), message);
    }
}

#[test]
fn only_missing_packages_and_404_are_not_found() {
    let missing = DepsError::PackageNotFound { package: "x".into(), registry: "npm" };
    assert!(missing.is_not_found());
    assert!(DepsError::HttpStatus { url: "u".into(), status: 404 }.is_not_found());
    assert!(!DepsError::HttpStatus { url: "u".into(), status: 410 }.is_not_found());
    assert!(!DepsError::CacheError("x".into()).is_not_found());
}

#[test]
fn http_status_message_uses_the_given_reason() {
    assert_eq!(http_status_message(418, Some("Teapot"), "https://h/p?q"), "HTTP 418 Teapot for https://h/p");
    assert_eq!(http_status_message(0, None, "h"), "HTTP 0 for h");
}
