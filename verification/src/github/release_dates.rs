//! Memoized, best-effort publish dates of GitHub releases.

use crate::cache_policy::{expired, EntryModel, ExpiringMap, KeyTexts};
use crate::error::DepsError;
use crate::github::client::{releases_url, GithubTagsClient};
use crate::github::identity::{github_identity, is_valid_github_identity};
use crate::github::pages::{parse_releases_page, releases_page, ReleaseDates};
use crate::text::string_texts;
use vstd::prelude::*;

verus! {

/// How long a successful lookup is trusted, in milliseconds: 15 minutes.
pub const RELEASE_DATES_TTL: u64 = 900_000;

/// How long a failed lookup is remembered, in milliseconds: 90 seconds. Much shorter than
/// [`RELEASE_DATES_TTL`], so that one transient error does not black a package's dates out, and
/// long enough that a rate-limit storm does not fire a request on every keystroke.
pub const RELEASE_DATES_ERROR_TTL: u64 = 90_000;

/// How long a releases request may take, in milliseconds. Running into this limit counts as a
/// failed lookup.
pub const RELEASE_DATES_FETCH_TIMEOUT: u64 = 2_000;

/// Maximum number of packages held in a [`ReleaseDatesCache`] at once.
pub const MAX_RELEASE_DATES_MEMO_ENTRIES: usize = 256;

/// The dates and the time to live that a lookup leaves behind.
pub open spec fn classified(outcome: Option<Option<Seq<u8>>>) -> (Map<Seq<char>, i64>, u64) {
    match outcome {
        Some(Some(data)) => match releases_page(data) {
            Some(dates) => (dates, RELEASE_DATES_TTL),
            None => (Map::empty(), RELEASE_DATES_ERROR_TTL),
        },
        _ => (Map::empty(), RELEASE_DATES_ERROR_TTL),
    }
}

/// The bytes of a lookup: nothing on the outside for a timeout, on the inside for an error.
pub open spec fn fetched_bytes(outcome: Option<Result<Vec<u8>, DepsError>>) -> Option<
    Option<Seq<u8>>,
> {
    match outcome {
        Some(Ok(data)) => Some(Some(data@)),
        Some(Err(_)) => Some(None),
        None => None,
    }
}

/// Classifies a releases lookup into the dates and the time to live to memoize.
///
/// `None` is a timeout. Every failure, a body that is no page of releases among them, gets the
/// short time to live; only a page that was read, be it empty, gets the long one.
pub fn classify_release_fetch(outcome: Option<Result<Vec<u8>, DepsError>>) -> (r: (
    ReleaseDates,
    u64,
))
    ensures
        (r.0@, r.1) == classified(fetched_bytes(outcome)),
{
    match outcome {
        Some(Ok(data)) => match parse_releases_page(data.as_slice()) {
            Some(dates) => (dates, RELEASE_DATES_TTL),
            None => (ReleaseDates::new(), RELEASE_DATES_ERROR_TTL),
        },
        Some(Err(_)) => (ReleaseDates::new(), RELEASE_DATES_ERROR_TTL),
        None => (ReleaseDates::new(), RELEASE_DATES_ERROR_TTL),
    }
}

/// What is to be done for the release dates of a package.
pub enum ReleaseLookup<'a> {
    /// The name is no repository: there are no dates, and no request is made.
    Rejected,
    /// A lookup that is still fresh is at hand.
    Memoized(&'a ReleaseDates),
    /// There is no token: there are no dates, and no request is made.
    NoToken,
    /// The dates are to be fetched from this URL.
    Fetch(String),
}

/// The memo key of a repository: the API base and the name, so that what one origin returned
/// never serves another.
pub open spec fn release_key(base: Seq<char>, name: Seq<char>) -> KeyTexts {
    seq![base, name]
}

/// The notice that dates are unavailable without a token.
pub open spec fn no_token_notice(ecosystem: Seq<char>) -> Seq<char> {
    "GITHUB_TOKEN not set — "@ + ecosystem
        + " release dates are unavailable; hover and completion will omit publish ages. Run: export GITHUB_TOKEN=$(gh auth token)"@
}

/// Memoized, best-effort publish dates of GitHub releases, by package.
///
/// Never fails: whatever goes wrong, a package has no dates. One cache may be shared between
/// clients of different origins.
pub struct ReleaseDatesCache {
    dates: ExpiringMap<ReleaseDates>,
    skip_logged: bool,
}

fn memo_key(github: &GithubTagsClient, name: &str) -> (r: Vec<String>)
    ensures
        string_texts(r@) == release_key(github.base(), name@),
{
    let mut key: Vec<String> = Vec::new();
    key.push(github.api_base().to_owned());
    key.push(name.to_owned());
    proof {
        assert(string_texts(key@) =~= release_key(github.base(), name@));
    }
    key
}

impl ReleaseDatesCache {
    /// The memoized lookups.
    pub closed spec fn memo(&self) -> Map<KeyTexts, EntryModel<ReleaseDates>> {
        self.dates@
    }

    /// Whether the notice about the missing token was given.
    pub closed spec fn notice_given(&self) -> bool {
        self.skip_logged
    }

    /// The memo is in order and within its bound.
    pub closed spec fn wf(&self) -> bool {
        self.dates.wf() && self.dates.count() <= MAX_RELEASE_DATES_MEMO_ENTRIES
    }

    /// An empty cache.
    #[must_use]
    pub fn new() -> (r: Self)
        ensures
            r.wf(),
            r.memo() == Map::<KeyTexts, EntryModel<ReleaseDates>>::empty(),
            !r.notice_given(),
    {
        let dates = ExpiringMap::new();
        ReleaseDatesCache { dates, skip_logged: false }
    }

    /// What is to be done for the dates of `name` (`owner/repo`) at `now`, in milliseconds.
    ///
    /// A malformed name is rejected first, without a request. A fresh lookup comes next, and
    /// without one a missing token ends the matter.
    pub fn lookup(&self, github: &GithubTagsClient, name: &str, now: u64) -> (r: ReleaseLookup<
        '_,
    >)
        requires
            self.wf(),
        ensures
            ({
                let key = release_key(github.base(), name@);
                let fresh = self.memo().dom().contains(key) && !expired(self.memo()[key], now);
                match r {
                    ReleaseLookup::Rejected => !github_identity(name@),
                    ReleaseLookup::Memoized(dates) => github_identity(name@) && fresh && *dates
                        == self.memo()[key].value,
                    ReleaseLookup::NoToken => github_identity(name@) && !fresh
                        && github.token() is None,
                    ReleaseLookup::Fetch(url) => github_identity(name@) && !fresh
                        && github.token() is Some && url@ == releases_url(github.base(), name@),
                }
            }),
    {
        if !is_valid_github_identity(name) {
            return ReleaseLookup::Rejected;
        }
        let key = memo_key(github, name);
        match self.dates.get_fresh(&key, now) {
            Some(dates) => ReleaseLookup::Memoized(dates),
            None => {
                if !github.has_token() {
                    ReleaseLookup::NoToken
                } else {
                    ReleaseLookup::Fetch(github.releases_url(name))
                }
            },
        }
    }

    /// The notice about the missing token, the first time it is asked for.
    pub fn skip_notice(&mut self, ecosystem: &str) -> (r: Option<String>)
        ensures
            final(self).notice_given(),
            final(self).memo() == old(self).memo(),
            old(self).wf() ==> final(self).wf(),
            match r {
                Some(text) => !old(self).notice_given() && text@ == no_token_notice(ecosystem@),
                None => old(self).notice_given(),
            },
    {
        if self.skip_logged {
            return None;
        }
        self.skip_logged = true;
        let mut text = "GITHUB_TOKEN not set — ".to_owned();
        text.append(ecosystem);
        text.append(
            " release dates are unavailable; hover and completion will omit publish ages. Run: export GITHUB_TOKEN=$(gh auth token)",
        );
        Some(text)
    }

    /// Memoizes a lookup of `name` that began at `began` and ended at `now` with `outcome`, and
    /// returns its dates. They are trusted from the begin of the lookup on; room is made as of its
    /// end.
    pub fn store(
        &mut self,
        github: &GithubTagsClient,
        name: &str,
        outcome: Option<Result<Vec<u8>, DepsError>>,
        began: u64,
        now: u64,
    ) -> (r: ReleaseDates)
        requires
            old(self).wf(),
        ensures
            final(self).wf(),
            final(self).notice_given() == old(self).notice_given(),
            r@ == classified(fetched_bytes(outcome)).0,
            ({
                let key = release_key(github.base(), name@);
                let kept = final(self).memo();
                &&& kept.dom().contains(key)
                &&& kept[key].fetched_at == began
                &&& kept[key].ttl == classified(fetched_bytes(outcome)).1
                &&& kept[key].value@ == classified(fetched_bytes(outcome)).0
                &&& exists|room: Map<KeyTexts, EntryModel<ReleaseDates>>|
                    (if old(self).memo().dom().contains(key) {
                        room == old(self).memo()
                    } else {
                        crate::cache_policy::made_room(
                            old(self).memo(),
                            room,
                            MAX_RELEASE_DATES_MEMO_ENTRIES as nat,
                            now,
                        )
                    }) && kept == #[trigger] room.insert(key, kept[key])
            }),
    {
        let (dates, ttl) = classify_release_fetch(outcome);
        let returned = dates.duplicate();
        self.dates.insert_fetched(
            memo_key(github, name),
            dates,
            ttl,
            began,
            now,
            MAX_RELEASE_DATES_MEMO_ENTRIES,
        );
        proof {
            let key = release_key(github.base(), name@);
            let entry = EntryModel { fetched_at: began, ttl, value: dates };
            assert(self.memo()[key] == entry);
        }
        returned
    }
}

impl Default for ReleaseDatesCache {
    fn default() -> (r: Self)
        ensures
            r.wf(),
            r.memo() == Map::<KeyTexts, EntryModel<ReleaseDates>>::empty(),
            !r.notice_given(),
    {
        ReleaseDatesCache::new()
    }
}

// ---------------------------------------------------------------------------
// Laws
// ---------------------------------------------------------------------------

/// A failure is forgotten sooner than a success.
pub proof fn law_failures_expire_sooner(outcome: Option<Option<Seq<u8>>>, success: Seq<u8>)
    requires
        releases_page(success) is Some,
        match outcome {
            Some(Some(data)) => releases_page(data) is None,
            _ => true,
        },
    ensures
        classified(outcome).1 < classified(Some(Some(success))).1,
        classified(outcome).0 == Map::<Seq<char>, i64>::empty(),
{
}

/// What one API origin returned is never found under another.
pub proof fn law_origins_do_not_share_entries(
    base: Seq<char>,
    other: Seq<char>,
    name: Seq<char>,
    other_name: Seq<char>,
)
    requires
        release_key(base, name) == release_key(other, other_name),
    ensures
        base == other,
        name == other_name,
{
    let a = release_key(base, name);
    let b = release_key(other, other_name);
    assert(a[0] == b[0]);
    assert(a[1] == b[1]);
}

/// A page that was read leaves its dates, for 15 minutes, be there any or none; a timeout, a
/// failed request and a body that is no page leave no dates, for 90 seconds.
pub proof fn law_what_a_lookup_leaves_behind(data: Seq<u8>)
    ensures
        releases_page(data) matches Some(dates) ==> classified(Some(Some(data))) == (
            dates,
            900_000u64,
        ),
        releases_page(data) is None ==> classified(Some(Some(data))) == (
            Map::<Seq<char>, i64>::empty(),
            90_000u64,
        ),
        classified(Some(None)) == (Map::<Seq<char>, i64>::empty(), 90_000u64),
        classified(None) == (Map::<Seq<char>, i64>::empty(), 90_000u64),
{
}

} // verus!
