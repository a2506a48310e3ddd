//! The library's error type, its messages, and what of them may be shown to a user.

use crate::net_policy::{redacted, url_for_tracing};
use crate::text::{contains_text, decimal, decimal_of, occurs_at};
use vstd::prelude::*;

verus! {

/// An underlying error of another component, by its two renderings.
#[derive(Debug, Clone, PartialEq, Eq)]
pub struct ErrorSource {
    /// The text meant for people.
    pub display: String,
    /// The text meant for developers.
    pub debug: String,
}

impl ErrorSource {
    /// The error that renders as `display` and `debug`.
    pub fn new(display: String, debug: String) -> (r: Self)
        ensures
            r == (ErrorSource { display, debug }),
    {
        ErrorSource { display, debug }
    }
}

/// Everything that can go wrong, with the error behind it where there is one.
#[non_exhaustive]
pub enum DepsError {
    /// A manifest or lockfile failed to parse.
    ParseError {
        /// Ecosystem or file kind being parsed, such as `Cargo.toml`.
        file_type: String,
        /// The underlying parser error.
        source: ErrorSource,
    },
    /// A registry HTTP request failed at the transport layer.
    RegistryError {
        /// Name of the package the request was for, or the URL requested.
        package: String,
        /// The underlying transport error.
        source: ErrorSource,
    },
    /// The cache layer itself failed, independent of any registry request.
    CacheError(String),
    /// A registry request was rejected for exceeding a rate limit. Unlike in other variants,
    /// `message` is a pre-vetted, actionable hint that may be shown verbatim.
    RateLimited {
        /// Pre-vetted message, safe to show verbatim.
        message: String,
    },
    /// A package name was not found on the given registry.
    PackageNotFound {
        /// Name of the package that was looked up.
        package: String,
        /// Name of the registry that reported the package as missing.
        registry: &'static str,
    },
    /// A registry HTTP request returned a non-success status code.
    HttpStatus {
        /// URL that was requested.
        url: String,
        /// HTTP status code returned.
        status: u16,
    },
    /// A registry's response body failed to deserialize.
    ApiResponse {
        /// Name of the package whose response failed to parse.
        package: String,
        /// Name of the registry the response came from.
        registry: &'static str,
        /// The underlying deserialization error.
        source: ErrorSource,
    },
    /// A response body exceeded the configured size cap and was rejected before full download.
    ResponseTooLarge {
        /// URL the oversized response came from.
        url: String,
        /// The size cap, in bytes, that was exceeded.
        limit: usize,
    },
    /// A malformed version requirement, or a malformed Go module path.
    InvalidVersionReq(String),
    /// A filesystem operation failed.
    Io(ErrorSource),
    /// A JSON parsing operation failed outside of a registry response.
    Json(ErrorSource),
    /// The manifest file's ecosystem could not be determined.
    UnsupportedEcosystem(String),
    /// More than one ecosystem's routing rules matched the same manifest path.
    AmbiguousEcosystem(String),
    /// A URI supplied by the client or a manifest could not be parsed.
    InvalidUri(String),
    /// A request was blocked because the network is switched off.
    Offline {
        /// The request URL that was blocked.
        url: String,
    },
    /// The resolution of a multi-hop index chain was halted because a hop returned a transport
    /// error: it does not fall through to a further, less trusted hop.
    ChainResolutionHalted,
}

/// Outcome of a failed registry fetch for one dependency.
#[non_exhaustive]
#[derive(Clone, Debug, PartialEq, Eq)]
pub enum FetchFailure {
    /// The fetch failed with a pre-vetted, safe-to-display hint.
    Actionable(String),
    /// The fetch failed for a reason with no safe user-facing detail to show.
    Transient,
    /// The dependency was never actually queried.
    NotAttempted,
}

/// The canonical reason phrase of an HTTP status code, where it has one.
pub uninterp spec fn http_reason(status: u16) -> Option<Seq<char>>;

/// `reqwest::StatusCode::canonical_reason` of the code `status`: a fixed phrase for each
/// registered code, nothing for a number that is no status code or has no phrase.
#[verifier::external_body]
fn canonical_reason(status: u16) -> (r: Option<&'static str>)
    ensures
        crate::formatter::option_text(r) == http_reason(status),
{
    reqwest::StatusCode::from_u16(status).ok().and_then(|code| code.canonical_reason())
}

/// The quoted and escaped form in which developers see a text.
pub uninterp spec fn quoted(text: Seq<char>) -> Seq<char>;

/// The `Debug` rendering of a string: quoted and escaped.
#[verifier::external_body]
fn quote(text: &str) -> (r: String)
    ensures
        r@ == quoted(text@),
{
    format!("{text:?}")
}

/// `HTTP <status> [<reason> ]for <url>`, with the URL redacted.
pub open spec fn http_status_text(
    status: u16,
    reason: Option<Seq<char>>,
    url: Seq<char>,
) -> Seq<char> {
    match reason {
        Some(reason) => "HTTP "@ + decimal(status as nat) + " "@ + reason + " for "@ + redacted(
            url,
        ),
        None => "HTTP "@ + decimal(status as nat) + " for "@ + redacted(url),
    }
}

/// The message that an error shows to people.
pub open spec fn error_message(e: &DepsError) -> Seq<char> {
    match e {
        DepsError::ParseError { file_type, source } => "failed to parse "@ + file_type@ + ": "@
            + source.display@,
        DepsError::RegistryError { package, source } => "registry request failed for "@
            + redacted(package@) + ": "@ + source.display@,
        DepsError::CacheError(message) => "cache error: "@ + message@,
        DepsError::RateLimited { message } => message@,
        DepsError::PackageNotFound { package, registry } => package@ + " not found on "@
            + registry@,
        DepsError::HttpStatus { url, status } => http_status_text(
            *status,
            http_reason(*status),
            url@,
        ),
        DepsError::ApiResponse { package, registry, source } => "failed to parse "@ + registry@
            + " response for "@ + package@ + ": "@ + source.display@,
        DepsError::ResponseTooLarge { url, limit } => "response body for "@ + redacted(url@)
            + " exceeds "@ + decimal(*limit as nat) + " byte limit"@,
        DepsError::InvalidVersionReq(req) => "invalid version requirement: "@ + req@,
        DepsError::Io(source) => "I/O error: "@ + source.display@,
        DepsError::Json(source) => "JSON error: "@ + source.display@,
        DepsError::UnsupportedEcosystem(name) => "unsupported ecosystem: "@ + name@,
        DepsError::AmbiguousEcosystem(path) => "ambiguous ecosystem detection for file: "@
            + path@,
        DepsError::InvalidUri(uri) => "invalid URI: "@ + uri@,
        DepsError::Offline { url } => "offline: request to "@ + redacted(url@)
            + " was blocked by network.offline"@,
        DepsError::ChainResolutionHalted =>
            "index chain resolution halted by a transport error on one hop — not falling back to a less-trusted index"@,
    }
}

/// The rendering of an error for developers: every field, with the URLs redacted.
pub open spec fn error_debug(e: &DepsError) -> Seq<char> {
    match e {
        DepsError::ParseError { file_type, source } => "ParseError { file_type: "@ + quoted(
            file_type@,
        ) + ", source: "@ + source.debug@ + " }"@,
        DepsError::RegistryError { package, source } => "RegistryError { package: "@ + quoted(
            redacted(package@),
        ) + ", source: "@ + source.debug@ + " }"@,
        DepsError::CacheError(message) => "CacheError("@ + quoted(message@) + ")"@,
        DepsError::RateLimited { message } => "RateLimited { message: "@ + quoted(message@)
            + " }"@,
        DepsError::PackageNotFound { package, registry } => "PackageNotFound { package: "@
            + quoted(package@) + ", registry: "@ + quoted(registry@) + " }"@,
        DepsError::HttpStatus { url, status } => "HttpStatus { url: "@ + quoted(redacted(url@))
            + ", status: "@ + decimal(*status as nat) + " }"@,
        DepsError::ApiResponse { package, registry, source } => "ApiResponse { package: "@
            + quoted(package@) + ", registry: "@ + quoted(registry@) + ", source: "@
            + source.debug@ + " }"@,
        DepsError::ResponseTooLarge { url, limit } => "ResponseTooLarge { url: "@ + quoted(
            redacted(url@),
        ) + ", limit: "@ + decimal(*limit as nat) + " }"@,
        DepsError::InvalidVersionReq(req) => "InvalidVersionReq("@ + quoted(req@) + ")"@,
        DepsError::Io(source) => "Io("@ + source.debug@ + ")"@,
        DepsError::Json(source) => "Json("@ + source.debug@ + ")"@,
        DepsError::UnsupportedEcosystem(name) => "UnsupportedEcosystem("@ + quoted(name@)
            + ")"@,
        DepsError::AmbiguousEcosystem(path) => "AmbiguousEcosystem("@ + quoted(path@) + ")"@,
        DepsError::InvalidUri(uri) => "InvalidUri("@ + quoted(uri@) + ")"@,
        DepsError::Offline { url } => "Offline { url: "@ + quoted(redacted(url@)) + " }"@,
        DepsError::ChainResolutionHalted => "ChainResolutionHalted"@,
    }
}

/// The fixed hint for a halted index chain.
pub open spec fn halted_chain_hint() -> Seq<char> {
    "index unreachable — resolution halted, not falling back to a less-trusted index"@
}

fn joined(a: &str, b: &str) -> (r: String)
    ensures
        r@ == a@ + b@,
{
    let mut s = a.to_owned();
    s.append(b);
    s
}

fn joined3(a: &str, b: &str, c: &str) -> (r: String)
    ensures
        r@ == a@ + b@ + c@,
{
    let mut s = joined(a, b);
    s.append(c);
    s
}

fn joined4(a: &str, b: &str, c: &str, d: &str) -> (r: String)
    ensures
        r@ == a@ + b@ + c@ + d@,
{
    let mut s = joined3(a, b, c);
    s.append(d);
    s
}

fn joined5(a: &str, b: &str, c: &str, d: &str, e: &str) -> (r: String)
    ensures
        r@ == a@ + b@ + c@ + d@ + e@,
{
    let mut s = joined4(a, b, c, d);
    s.append(e);
    s
}

/// The text of an HTTP failure, from its status, the reason phrase of that status and the URL,
/// which is redacted.
pub fn http_status_message(status: u16, reason: Option<&str>, url: &str) -> (r: String)
    ensures
        r@ == http_status_text(status, crate::formatter::option_text(reason), url@),
{
    let code = decimal_of(status as u64);
    let shown = url_for_tracing(url);
    match reason {
        Some(reason) => {
            let mut s = joined4("HTTP ", code.as_str(), " ", reason);
            s.append(" for ");
            s.append(shown.as_str());
            s
        },
        None => joined4("HTTP ", code.as_str(), " for ", shown.as_str()),
    }
}

/// The text of a transport failure; `package` may be a URL and is redacted.
fn registry_error_message(package: &str, source: &str) -> (r: String)
    ensures
        r@ == "registry request failed for "@ + redacted(package@) + ": "@ + source@,
{
    let shown = url_for_tracing(package);
    joined4("registry request failed for ", shown.as_str(), ": ", source)
}

/// The text of an oversized response, with the URL redacted.
fn response_too_large_message(url: &str, limit: usize) -> (r: String)
    ensures
        r@ == "response body for "@ + redacted(url@) + " exceeds "@ + decimal(limit as nat)
            + " byte limit"@,
{
    let shown = url_for_tracing(url);
    let n = decimal_of(limit as u64);
    joined5("response body for ", shown.as_str(), " exceeds ", n.as_str(), " byte limit")
}

/// The text of a blocked request, with the URL redacted.
fn offline_message(url: &str) -> (r: String)
    ensures
        r@ == "offline: request to "@ + redacted(url@) + " was blocked by network.offline"@,
{
    let shown = url_for_tracing(url);
    joined3("offline: request to ", shown.as_str(), " was blocked by network.offline")
}

impl DepsError {
    /// The message that this error shows to people.
    #[must_use]
    pub fn to_string(&self) -> (r: String)
        ensures
            r@ == error_message(self),
    {
        match self {
            DepsError::ParseError { file_type, source } => joined4(
                "failed to parse ",
                file_type.as_str(),
                ": ",
                source.display.as_str(),
            ),
            DepsError::RegistryError { package, source } => registry_error_message(
                package.as_str(),
                source.display.as_str(),
            ),
            DepsError::CacheError(message) => joined("cache error: ", message.as_str()),
            DepsError::RateLimited { message } => message.clone(),
            DepsError::PackageNotFound { package, registry } => joined3(
                package.as_str(),
                " not found on ",
                registry,
            ),
            DepsError::HttpStatus { url, status } => http_status_message(
                *status,
                canonical_reason(*status),
                url.as_str(),
            ),
            DepsError::ApiResponse { package, registry, source } => {
                let mut s = joined4(
                    "failed to parse ",
                    registry,
                    " response for ",
                    package.as_str(),
                );
                s.append(": ");
                s.append(source.display.as_str());
                s
            },
            DepsError::ResponseTooLarge { url, limit } => response_too_large_message(
                url.as_str(),
                *limit,
            ),
            DepsError::InvalidVersionReq(req) => joined(
                "invalid version requirement: ",
                req.as_str(),
            ),
            DepsError::Io(source) => joined("I/O error: ", source.display.as_str()),
            DepsError::Json(source) => joined("JSON error: ", source.display.as_str()),
            DepsError::UnsupportedEcosystem(name) => joined(
                "unsupported ecosystem: ",
                name.as_str(),
            ),
            DepsError::AmbiguousEcosystem(path) => joined(
                "ambiguous ecosystem detection for file: ",
                path.as_str(),
            ),
            DepsError::InvalidUri(uri) => joined("invalid URI: ", uri.as_str()),
            DepsError::Offline { url } => offline_message(url.as_str()),
            DepsError::ChainResolutionHalted =>
                "index chain resolution halted by a transport error on one hop — not falling back to a less-trusted index".to_owned(),
        }
    }

    /// The rendering of this error for developers: every field is shown, and the URLs among
    /// them go through the same redaction as in [`Self::to_string`].
    #[must_use]
    pub fn debug_text(&self) -> (r: String)
        ensures
            r@ == error_debug(self),
    {
        match self {
            DepsError::ParseError { file_type, source } => joined5(
                "ParseError { file_type: ",
                quote(file_type.as_str()).as_str(),
                ", source: ",
                source.debug.as_str(),
                " }",
            ),
            DepsError::RegistryError { package, source } => joined5(
                "RegistryError { package: ",
                quote(url_for_tracing(package.as_str()).as_str()).as_str(),
                ", source: ",
                source.debug.as_str(),
                " }",
            ),
            DepsError::CacheError(message) => joined3(
                "CacheError(",
                quote(message.as_str()).as_str(),
                ")",
            ),
            DepsError::RateLimited { message } => joined3(
                "RateLimited { message: ",
                quote(message.as_str()).as_str(),
                " }",
            ),
            DepsError::PackageNotFound { package, registry } => joined5(
                "PackageNotFound { package: ",
                quote(package.as_str()).as_str(),
                ", registry: ",
                quote(registry).as_str(),
                " }",
            ),
            DepsError::HttpStatus { url, status } => joined5(
                "HttpStatus { url: ",
                quote(url_for_tracing(url.as_str()).as_str()).as_str(),
                ", status: ",
                decimal_of(*status as u64).as_str(),
                " }",
            ),
            DepsError::ApiResponse { package, registry, source } => {
                let mut s = joined4(
                    "ApiResponse { package: ",
                    quote(package.as_str()).as_str(),
                    ", registry: ",
                    quote(registry).as_str(),
                );
                s.append(", source: ");
                s.append(source.debug.as_str());
                s.append(" }");
                s
            },
            DepsError::ResponseTooLarge { url, limit } => joined5(
                "ResponseTooLarge { url: ",
                quote(url_for_tracing(url.as_str()).as_str()).as_str(),
                ", limit: ",
                decimal_of(*limit as u64).as_str(),
                " }",
            ),
            DepsError::InvalidVersionReq(req) => joined3(
                "InvalidVersionReq(",
                quote(req.as_str()).as_str(),
                ")",
            ),
            DepsError::Io(source) => joined3("Io(", source.debug.as_str(), ")"),
            DepsError::Json(source) => joined3("Json(", source.debug.as_str(), ")"),
            DepsError::UnsupportedEcosystem(name) => joined3(
                "UnsupportedEcosystem(",
                quote(name.as_str()).as_str(),
                ")",
            ),
            DepsError::AmbiguousEcosystem(path) => joined3(
                "AmbiguousEcosystem(",
                quote(path.as_str()).as_str(),
                ")",
            ),
            DepsError::InvalidUri(uri) => joined3("InvalidUri(", quote(uri.as_str()).as_str(), ")"),
            DepsError::Offline { url } => joined3(
                "Offline { url: ",
                quote(url_for_tracing(url.as_str()).as_str()).as_str(),
                " }",
            ),
            DepsError::ChainResolutionHalted => "ChainResolutionHalted".to_owned(),
        }
    }

    /// Whether the registry answered that the package does not exist, as opposed to not having
    /// been answerable at all.
    pub open spec fn not_found(&self) -> bool {
        match self {
            DepsError::PackageNotFound { .. } => true,
            DepsError::HttpStatus { status, .. } => *status == 404,
            _ => false,
        }
    }

    /// Returns `true` when this error means the registry was successfully asked and answered
    /// "this package doesn't exist": an explicit not-found, or a bare HTTP 404.
    #[must_use]
    pub fn is_not_found(&self) -> (r: bool)
        ensures
            r == self.not_found(),
    {
        match self {
            DepsError::PackageNotFound { .. } => true,
            DepsError::HttpStatus { status, .. } => *status == 404,
            _ => false,
        }
    }

    /// Classifies this error for a per-dependency diagnostic: a failure with a safe, actionable
    /// hint to show, or one whose raw text must never reach a diagnostic.
    ///
    /// A hint comes only from [`DepsError::RateLimited`]'s pre-vetted message and, as a fixed
    /// text, from [`DepsError::ChainResolutionHalted`].
    #[must_use]
    pub fn fetch_failure(&self) -> (r: FetchFailure)
        ensures
            match self {
                DepsError::RateLimited { message } => r matches FetchFailure::Actionable(hint)
                    && hint@ == message@,
                DepsError::ChainResolutionHalted => r matches FetchFailure::Actionable(hint)
                    && hint@ == halted_chain_hint(),
                _ => r is Transient,
            },
    {
        match self {
            DepsError::RateLimited { message } => FetchFailure::Actionable(message.clone()),
            DepsError::ChainResolutionHalted => FetchFailure::Actionable(
                "index unreachable — resolution halted, not falling back to a less-trusted index".to_owned(),
            ),
            _ => FetchFailure::Transient,
        }
    }

    /// Returns `true` when this error means a request was blocked because the network is
    /// switched off.
    #[must_use]
    pub fn is_offline(&self) -> (r: bool)
        ensures
            r == (self is Offline),
    {
        match self {
            DepsError::Offline { .. } => true,
            _ => false,
        }
    }

    /// The status code and the coarse cause by which this error is logged.
    pub open spec fn tracing_summary(&self) -> (Option<u16>, Seq<char>) {
        match self {
            DepsError::HttpStatus { status, .. } => (Some(*status), "http-status"@),
            DepsError::RegistryError { .. } => (None, "transport"@),
            DepsError::CacheError(_) => (None, "cache"@),
            DepsError::Offline { .. } => (None, "offline"@),
            DepsError::ResponseTooLarge { .. } => (None, "response-too-large"@),
            DepsError::RateLimited { .. } => (None, "rate-limited"@),
            DepsError::ApiResponse { .. } => (None, "api-response"@),
            DepsError::PackageNotFound { .. } => (None, "not-found"@),
            _ => (None, "other"@),
        }
    }

    /// A URL-free summary of this error, safe to attach to a log line: the HTTP status code
    /// where there is one, and a coarse cause for every variant.
    #[must_use]
    pub fn safe_tracing_summary(&self) -> (r: (Option<u16>, &'static str))
        ensures
            (r.0, r.1@) == self.tracing_summary(),
    {
        match self {
            DepsError::HttpStatus { status, .. } => (Some(*status), "http-status"),
            DepsError::RegistryError { .. } => (None, "transport"),
            DepsError::CacheError(_) => (None, "cache"),
            DepsError::Offline { .. } => (None, "offline"),
            DepsError::ResponseTooLarge { .. } => (None, "response-too-large"),
            DepsError::RateLimited { .. } => (None, "rate-limited"),
            DepsError::ApiResponse { .. } => (None, "api-response"),
            DepsError::PackageNotFound { .. } => (None, "not-found"),
            _ => (None, "other"),
        }
    }
}

// ---------------------------------------------------------------------------
// Laws
// ---------------------------------------------------------------------------

/// The query string of a URL, where credentials travel, reaches neither rendering of any error
/// that carries a URL.
pub proof fn law_query_reaches_no_rendering(a: DepsError, b: DepsError, query: Seq<char>)
    requires
        query.len() > 0,
        query[0] == '?' || query[0] == '#',
        match (a, b) {
            (DepsError::HttpStatus { url: u, status: s }, DepsError::HttpStatus { url: v, status: t }) => u@ == v@ + query && s == t,
            (DepsError::Offline { url: u }, DepsError::Offline { url: v }) => u@ == v@ + query,
            (DepsError::ResponseTooLarge { url: u, limit: m }, DepsError::ResponseTooLarge { url: v, limit: n }) => u@ == v@ + query && m == n,
            (DepsError::RegistryError { package: u, source: m }, DepsError::RegistryError { package: v, source: n }) => u@ == v@ + query && m == n,
            _ => false,
        },
    ensures
        error_message(&a) == error_message(&b),
        error_debug(&a) == error_debug(&b),
{
    match (a, b) {
        (DepsError::HttpStatus { url: u, status: _ }, DepsError::HttpStatus { url: v, status: _ }) => {
            crate::net_policy::law_query_never_shows(v@, query);
        },
        (DepsError::Offline { url: u }, DepsError::Offline { url: v }) => {
            crate::net_policy::law_query_never_shows(v@, query);
        },
        (DepsError::ResponseTooLarge { url: u, limit: _ }, DepsError::ResponseTooLarge { url: v, limit: _ }) => {
            crate::net_policy::law_query_never_shows(v@, query);
        },
        (DepsError::RegistryError { package: u, source: _ }, DepsError::RegistryError { package: v, source: _ }) => {
            crate::net_policy::law_query_never_shows(v@, query);
        },
        _ => {},
    }
}

/// A blocked request is never taken for a missing package.
pub proof fn law_offline_is_not_not_found(e: DepsError)
    requires
        e is Offline,
    ensures
        !e.not_found(),
{
}

proof fn lemma_holds_part(before: Seq<char>, part: Seq<char>, after: Seq<char>)
    ensures
        contains_text(before + part + after, part),
        contains_text(before + part, part),
        contains_text(part + after, part),
{
    let s = before + part + after;
    let at = before.len() as int;
    assert(s.subrange(at, at + part.len()) =~= part);
    assert(occurs_at(s, part, at));
    let t = before + part;
    assert(t.subrange(at, at + part.len()) =~= part);
    assert(occurs_at(t, part, at));
    let u = part + after;
    assert(u.subrange(0, part.len() as int) =~= part);
    assert(occurs_at(u, part, 0));
}

/// The message of an error tells what went wrong with what: it holds every part that its reader
/// needs, the status and its phrase, the cause, and a URL with its credentials redacted.
pub proof fn law_messages_tell_what_failed(e: DepsError)
    ensures
        ({
            let m = error_message(&e);
            match e {
                DepsError::ParseError { file_type, source } => contains_text(m, file_type@)
                    && contains_text(m, source.display@),
                DepsError::RegistryError { package, source } => contains_text(m, redacted(package@))
                    && contains_text(m, source.display@),
                DepsError::CacheError(message) => contains_text(m, message@),
                DepsError::RateLimited { message } => m == message@,
                DepsError::PackageNotFound { package, registry } => contains_text(m, package@)
                    && contains_text(m, registry@),
                DepsError::HttpStatus { url, status } => contains_text(m, decimal(status as nat))
                    && contains_text(m, redacted(url@)) && (http_reason(status) matches Some(reason)
                    ==> contains_text(m, reason)),
                DepsError::ApiResponse { package, registry, source } => contains_text(m, package@)
                    && contains_text(m, registry@) && contains_text(m, source.display@),
                DepsError::ResponseTooLarge { url, limit } => contains_text(
                    m,
                    decimal(limit as nat),
                ) && contains_text(m, redacted(url@)),
                DepsError::InvalidVersionReq(req) => contains_text(m, req@),
                DepsError::Io(source) => contains_text(m, source.display@),
                DepsError::Json(source) => contains_text(m, source.display@),
                DepsError::UnsupportedEcosystem(name) => contains_text(m, name@),
                DepsError::AmbiguousEcosystem(path) => contains_text(m, path@),
                DepsError::InvalidUri(uri) => contains_text(m, uri@),
                DepsError::Offline { url } => contains_text(m, redacted(url@)),
                DepsError::ChainResolutionHalted => true,
            }
        }),
{
    let m = error_message(&e);
    match e {
        DepsError::ParseError { file_type, source } => {
            lemma_holds_part("failed to parse "@, file_type@, ": "@ + source.display@);
            assert("failed to parse "@ + file_type@ + (": "@ + source.display@) =~= m);
            lemma_holds_part("failed to parse "@ + file_type@ + ": "@, source.display@, m);
        },
        DepsError::RegistryError { package, source } => {
            let head = "registry request failed for "@;
            lemma_holds_part(head, redacted(package@), ": "@ + source.display@);
            assert(head + redacted(package@) + (": "@ + source.display@) =~= m);
            lemma_holds_part(head + redacted(package@) + ": "@, source.display@, m);
        },
        DepsError::CacheError(message) => {
            lemma_holds_part("cache error: "@, message@, m);
        },
        DepsError::RateLimited { message } => {},
        DepsError::PackageNotFound { package, registry } => {
            lemma_holds_part(m, package@, " not found on "@ + registry@);
            assert(package@ + (" not found on "@ + registry@) =~= m);
            lemma_holds_part(package@ + " not found on "@, registry@, m);
        },
        DepsError::HttpStatus { url, status } => {
            let code = decimal(status as nat);
            match http_reason(status) {
                Some(reason) => {
                    let tail = " "@ + reason + " for "@ + redacted(url@);
                    lemma_holds_part("HTTP "@, code, tail);
                    assert("HTTP "@ + code + tail =~= m);
                    let head = "HTTP "@ + code + " "@;
                    lemma_holds_part(head, reason, " for "@ + redacted(url@));
                    assert(head + reason + (" for "@ + redacted(url@)) =~= m);
                    lemma_holds_part(head + reason + " for "@, redacted(url@), m);
                },
                None => {
                    lemma_holds_part("HTTP "@, code, " for "@ + redacted(url@));
                    assert("HTTP "@ + code + (" for "@ + redacted(url@)) =~= m);
                    lemma_holds_part("HTTP "@ + code + " for "@, redacted(url@), m);
                },
            }
        },
        DepsError::ApiResponse { package, registry, source } => {
            let head = "failed to parse "@;
            let tail = ": "@ + source.display@;
            lemma_holds_part(head, registry@, " response for "@ + package@ + tail);
            assert(head + registry@ + (" response for "@ + package@ + tail) =~= m);
            let mid = head + registry@ + " response for "@;
            lemma_holds_part(mid, package@, tail);
            assert(mid + package@ + tail =~= m);
            lemma_holds_part(mid + package@ + ": "@, source.display@, m);
        },
        DepsError::ResponseTooLarge { url, limit } => {
            let head = "response body for "@;
            let n = decimal(limit as nat);
            lemma_holds_part(head, redacted(url@), " exceeds "@ + n + " byte limit"@);
            assert(head + redacted(url@) + (" exceeds "@ + n + " byte limit"@) =~= m);
            lemma_holds_part(head + redacted(url@) + " exceeds "@, n, " byte limit"@);
        },
        DepsError::InvalidVersionReq(req) => {
            lemma_holds_part("invalid version requirement: "@, req@, m);
        },
        DepsError::Io(source) => {
            lemma_holds_part("I/O error: "@, source.display@, m);
        },
        DepsError::Json(source) => {
            lemma_holds_part("JSON error: "@, source.display@, m);
        },
        DepsError::UnsupportedEcosystem(name) => {
            lemma_holds_part("unsupported ecosystem: "@, name@, m);
        },
        DepsError::AmbiguousEcosystem(path) => {
            lemma_holds_part("ambiguous ecosystem detection for file: "@, path@, m);
        },
        DepsError::InvalidUri(uri) => {
            lemma_holds_part("invalid URI: "@, uri@, m);
        },
        DepsError::Offline { url } => {
            lemma_holds_part(
                "offline: request to "@,
                redacted(url@),
                " was blocked by network.offline"@,
            );
        },
        DepsError::ChainResolutionHalted => {},
    }
}

/// A package counts as missing where the registry said so, in words or with the status for it,
/// and nowhere else: no other failure is taken for an answer.
pub proof fn law_only_an_answer_means_missing(e: DepsError)
    ensures
        e.not_found() <==> e is PackageNotFound || (e matches DepsError::HttpStatus { status, .. }
            && status == 404),
{
}

/// A log line names the kind of failure and, for an HTTP failure alone, its status: two errors of
/// one kind are logged alike, whatever they hold.
pub proof fn law_log_lines_hold_nothing_but_the_kind(a: DepsError, b: DepsError)
    ensures
        a.tracing_summary().0 == (match a {
            DepsError::HttpStatus { status, .. } => Some(status),
            _ => None,
        }),
        (a is HttpStatus && b is HttpStatus) || (a is RegistryError && b is RegistryError) || (
        a is CacheError && b is CacheError) || (a is Offline && b is Offline) || (
        a is ResponseTooLarge && b is ResponseTooLarge) || (a is RateLimited && b is RateLimited)
            || (a is ApiResponse && b is ApiResponse) || (a is PackageNotFound
            && b is PackageNotFound) ==> a.tracing_summary().1 == b.tracing_summary().1,
        a is HttpStatus && !(b is HttpStatus) ==> a.tracing_summary().1 != b.tracing_summary().1,
        a is RegistryError && !(b is RegistryError) ==> a.tracing_summary().1
            != b.tracing_summary().1,
        a is CacheError && !(b is CacheError) ==> a.tracing_summary().1 != b.tracing_summary().1,
        a is Offline && !(b is Offline) ==> a.tracing_summary().1 != b.tracing_summary().1,
        a is ResponseTooLarge && !(b is ResponseTooLarge) ==> a.tracing_summary().1
            != b.tracing_summary().1,
        a is RateLimited && !(b is RateLimited) ==> a.tracing_summary().1
            != b.tracing_summary().1,
        a is ApiResponse && !(b is ApiResponse) ==> a.tracing_summary().1
            != b.tracing_summary().1,
        a is PackageNotFound && !(b is PackageNotFound) ==> a.tracing_summary().1
            != b.tracing_summary().1,
{
    reveal_strlit("http-status");
    reveal_strlit("transport");
    reveal_strlit("cache");
    reveal_strlit("offline");
    reveal_strlit("response-too-large");
    reveal_strlit("rate-limited");
    reveal_strlit("api-response");
    reveal_strlit("not-found");
    reveal_strlit("other");
    assert("offline"@[0] == 'o' && "other"@[1] == 't' && "offline"@[1] == 'f');
    assert("http-status"@[0] == 'h' && "transport"@[0] == 't' && "cache"@[0] == 'c');
    assert("response-too-large"@[1] == 'e' && "rate-limited"@[1] == 'a');
    assert("api-response"@[0] == 'a' && "not-found"@[0] == 'n');
    assert("response-too-large"@[0] == 'r' && "rate-limited"@[0] == 'r' && "other"@[0] == 'o');
}

} // verus!
