//! GitHub as a version source: repository identities, tag pagination and release dates.

pub mod client;
pub mod identity;
pub mod pages;
pub mod release_dates;
pub mod tags;

pub use crate::github::client::{
    github_rate_limit_error, AuthToken, GithubTagsClient, GITHUB_API,
};
pub use crate::github::identity::{is_valid_github_identity, normalize_tag, validate_owner_repo};
pub use crate::github::pages::{
    dates_of_releases, parse_releases_page, parse_tags_page, tags_page_outcome, GithubRelease,
    GithubTag, GithubTagCommit, ReleaseDates,
};
pub use crate::github::release_dates::{
    classify_release_fetch, ReleaseDatesCache, ReleaseLookup, MAX_RELEASE_DATES_MEMO_ENTRIES,
    RELEASE_DATES_ERROR_TTL, RELEASE_DATES_TTL,
};
pub use crate::github::tags::{
    page_has_more, paginate_tags, warn_if_pagination_truncated, TagPagination, MAX_TAG_PAGES,
};
