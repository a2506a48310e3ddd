//! Requests against the GitHub API: where they go and what authenticates them.

use crate::error::DepsError;
use crate::text::{decimal, decimal_of};
use vstd::prelude::*;

verus! {

/// Base URL for the GitHub REST API.
pub const GITHUB_API: &'static str = "https://api.github.com";

/// The actionable error for a request that hits GitHub's unauthenticated rate limit.
#[must_use]
pub fn github_rate_limit_error() -> (r: DepsError)
    ensures
        r matches DepsError::RateLimited { message } && message@ == rate_limit_hint(),
{
    DepsError::RateLimited {
        message:
            "GitHub API rate limit exceeded. Set GITHUB_TOKEN to increase the limit (5000 req/h). Run: export GITHUB_TOKEN=$(gh auth token)".to_owned(),
    }
}

/// The hint that a rate-limited request gives.
pub open spec fn rate_limit_hint() -> Seq<char> {
    "GitHub API rate limit exceeded. Set GITHUB_TOKEN to increase the limit (5000 req/h). Run: export GITHUB_TOKEN=$(gh auth token)"@
}

/// A bearer-header value, redacted everywhere except where it is handed to a request.
pub struct AuthToken(String);

impl AuthToken {
    /// The raw header value.
    pub closed spec fn raw(&self) -> Seq<char> {
        self.0@
    }

    /// The token with the given header value.
    pub fn new(value: &str) -> (r: Self)
        ensures
            r.raw() == value@,
    {
        AuthToken(value.to_owned())
    }

    /// The raw header value, for attaching to a request and nothing else.
    pub fn as_str(&self) -> (r: &str)
        ensures
            r@ == self.raw(),
    {
        self.0.as_str()
    }

    /// The rendering for developers, whatever the value: redacted.
    pub fn debug_text(&self) -> (r: String)
        ensures
            r@ == "AuthToken(***)"@,
    {
        "AuthToken(***)".to_owned()
    }

    /// The rendering for people, whatever the value: redacted.
    pub fn to_string(&self) -> (r: String)
        ensures
            r@ == "***"@,
    {
        "***".to_owned()
    }
}

/// Auth-header and API-base state for requests against the GitHub API.
pub struct GithubTagsClient {
    auth_token: Option<AuthToken>,
    api_base: String,
    trusted_origin: String,
}

impl GithubTagsClient {
    /// The API base URL that requests are built against.
    pub closed spec fn base(&self) -> Seq<char> {
        self.api_base@
    }

    /// The header value that authenticates requests.
    pub closed spec fn token(&self) -> Option<Seq<char>> {
        match self.auth_token {
            Some(token) => Some(token.raw()),
            None => None,
        }
    }

    #[verifier::type_invariant]
    spec fn origin_is_the_base(&self) -> bool {
        self.trusted_origin@ == self.api_base@ + "/"@
    }

    /// A client for the GitHub API that authenticates with the value of `GITHUB_TOKEN`. No value
    /// and an empty one stand for unauthenticated requests.
    #[must_use]
    pub fn new(github_token: Option<&str>) -> (r: Self)
        ensures
            r.base() == GITHUB_API@,
            match github_token {
                Some(token) => r.token() == (if token@.len() > 0 {
                    Some("Bearer "@ + token@)
                } else {
                    None
                }),
                None => r.token() is None,
            },
    {
        let auth_token = match github_token {
            None => None,
            Some(token) => {
                if token.is_empty() {
                    None
                } else {
                    let mut value = "Bearer ".to_owned();
                    value.append(token);
                    Some(AuthToken(value))
                }
            },
        };
        let mut trusted_origin = GITHUB_API.to_owned();
        trusted_origin.append("/");
        GithubTagsClient { auth_token, trusted_origin, api_base: GITHUB_API.to_owned() }
    }

    /// A client with a given API base and a fixed token, or none.
    #[must_use]
    pub fn for_test(api_base: &str, has_token: bool) -> (r: Self)
        ensures
            r.base() == api_base@,
            r.token() == (if has_token {
                Some("Bearer test-token"@)
            } else {
                None
            }),
    {
        let auth_token = if has_token {
            Some(AuthToken("Bearer test-token".to_owned()))
        } else {
            None
        };
        let mut trusted_origin = api_base.to_owned();
        trusted_origin.append("/");
        GithubTagsClient { auth_token, trusted_origin, api_base: api_base.to_owned() }
    }

    /// Whether requests are authenticated.
    #[must_use]
    pub fn has_token(&self) -> (r: bool)
        ensures
            r == self.token().is_some(),
    {
        self.auth_token.is_some()
    }

    /// The API base URL that requests are built against.
    #[must_use]
    pub fn api_base(&self) -> (r: &str)
        ensures
            r@ == self.base(),
    {
        self.api_base.as_str()
    }

    /// The origin that every redirect of an authenticated request must stay under: the API base
    /// with a trailing slash, so that no longer host name passes for it.
    #[must_use]
    pub fn trusted_origin(&self) -> (r: &str)
        ensures
            r@ == self.base() + "/"@,
    {
        proof {
            use_type_invariant(self);
        }
        self.trusted_origin.as_str()
    }

    /// The auth headers to send on each request; empty when no token is set.
    #[must_use]
    pub fn headers(&self) -> (r: Vec<(&'static str, &str)>)
        ensures
            match self.token() {
                Some(value) => r@.len() == 1 && r@[0].0@ == "authorization"@ && r@[0].1@ == value,
                None => r@.len() == 0,
            },
    {
        let mut headers: Vec<(&'static str, &str)> = Vec::new();
        match &self.auth_token {
            Some(token) => {
                headers.push(("authorization", token.as_str()));
            },
            None => {},
        }
        headers
    }

    /// The URL of one page of the tags of `name`.
    #[must_use]
    pub fn tags_page_url(&self, name: &str, page: u32) -> (r: String)
        ensures
            r@ == tags_url(self.base(), name@, page as nat),
    {
        let mut url = self.api_base.clone();
        url.append("/repos/");
        url.append(name);
        url.append("/tags?per_page=100&page=");
        url.append(decimal_of(page as u64).as_str());
        url
    }

    /// The URL of the newest releases of `name`.
    #[must_use]
    pub fn releases_url(&self, name: &str) -> (r: String)
        ensures
            r@ == releases_url(self.base(), name@),
    {
        let mut url = self.api_base.clone();
        url.append("/repos/");
        url.append(name);
        url.append("/releases?per_page=100");
        url
    }
}

/// The URL of one page of the tags of a repository.
pub open spec fn tags_url(base: Seq<char>, name: Seq<char>, page: nat) -> Seq<char> {
    base + "/repos/"@ + name + "/tags?per_page=100&page="@ + decimal(page)
}

/// The URL of the newest releases of a repository.
pub open spec fn releases_url(base: Seq<char>, name: Seq<char>) -> Seq<char> {
    base + "/repos/"@ + name + "/releases?per_page=100"@
}

// ---------------------------------------------------------------------------
// Laws
// ---------------------------------------------------------------------------

/// Every request that the client builds stays under its trusted origin.
pub proof fn law_requests_stay_under_the_trusted_origin(
    base: Seq<char>,
    name: Seq<char>,
    page: nat,
)
    ensures
        (base + "/"@).is_prefix_of(tags_url(base, name, page)),
        (base + "/"@).is_prefix_of(releases_url(base, name)),
{
    reveal_strlit("/");
    reveal_strlit("/repos/");
    let origin = base + "/"@;
    assert(tags_url(base, name, page).take(origin.len() as int) =~= origin);
    assert(releases_url(base, name).take(origin.len() as int) =~= origin);
}

/// A request names the repository it is about and, for tags, the page: the path begins with the
/// repository, the query ends with the page's number, and nothing stands between but how many
/// entries a page holds.
pub proof fn law_requests_name_repository_and_page(base: Seq<char>, name: Seq<char>, page: nat)
    ensures
        ({
            let repository = base + "/repos/"@ + name;
            let tags = tags_url(base, name, page);
            let releases = releases_url(base, name);
            &&& (repository + "/tags?"@).is_prefix_of(tags)
            &&& ("per_page=100&page="@ + decimal(page)).is_suffix_of(tags)
            &&& tags.len() == repository.len() + "/tags?"@.len() + "per_page=100&page="@.len()
                + decimal(page).len()
            &&& releases == repository + "/releases?"@ + "per_page=100"@
        }),
{
    reveal_strlit("/tags?");
    reveal_strlit("per_page=100&page=");
    reveal_strlit("/tags?per_page=100&page=");
    reveal_strlit("/releases?");
    reveal_strlit("per_page=100");
    reveal_strlit("/releases?per_page=100");
    assert("/tags?per_page=100&page="@ =~= "/tags?"@ + "per_page=100&page="@);
    assert("/releases?per_page=100"@ =~= "/releases?"@ + "per_page=100"@);
    let repository = base + "/repos/"@ + name;
    let front = repository + "/tags?"@;
    let back = "per_page=100&page="@ + decimal(page);
    let tags = tags_url(base, name, page);
    assert(tags =~= front + back);
    assert(tags.take(front.len() as int) =~= front);
    assert(tags.skip(front.len() as int) =~= back);
    assert(releases_url(base, name) =~= repository + "/releases?"@ + "per_page=100"@);
}

} // verus!
