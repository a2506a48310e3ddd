//! Release-freshness signal: publish-time tracking and cooldown-window checks.
//!
//! A version published very recently is a distinct signal from one that has been live for a
//! while, independent of whether it is otherwise the latest.

use crate::text::{decimal, decimal_of};
use time::format_description::well_known::Rfc3339;
use time::OffsetDateTime;
use vstd::prelude::*;

verus! {

/// The default cooldown window (3 days), in seconds.
pub const DEFAULT_COOLDOWN_SECS: u64 = 3 * 24 * 60 * 60;

/// The Unix timestamp, in whole seconds, of a text that is an RFC 3339 date and time.
pub uninterp spec fn rfc3339_seconds(s: Seq<char>) -> Option<i64>;

/// `time::OffsetDateTime::parse` with the RFC 3339 format, and the `unix_timestamp` of what it
/// finds: nothing where the text does not parse.
#[verifier::external_body]
fn parse_timestamp(s: &str) -> (r: Option<i64>)
    ensures
        r == rfc3339_seconds(s@),
{
    OffsetDateTime::parse(s, &Rfc3339).ok().map(|t| t.unix_timestamp())
}

/// `SystemTime::elapsed` of the Unix epoch, in whole seconds: nothing when the clock stands
/// before the epoch. The reading depends on the machine's clock, so nothing is said of it.
#[verifier::external_body]
fn seconds_since_epoch() -> (r: Option<u64>) {
    std::time::UNIX_EPOCH.elapsed().ok().map(|d| d.as_secs())
}

/// A count of seconds as a signed number, wrapping round beyond what a signed number holds.
pub open spec fn signed_seconds(secs: u64) -> int {
    if secs <= i64::MAX {
        secs as int
    } else {
        secs - 0x1_0000_0000_0000_0000
    }
}

/// The time that a clock reading stands for: the epoch, for a clock set before it.
pub open spec fn clock_time(reading: Option<u64>) -> int {
    match reading {
        Some(secs) => signed_seconds(secs),
        None => 0,
    }
}

/// A release publish instant, normalized to Unix epoch seconds (UTC).
#[derive(Debug, Clone, Copy, PartialEq, Eq, PartialOrd, Ord, Structural)]
pub struct PublishTime(i64);

impl PublishTime {
    /// The instant in Unix epoch seconds.
    pub closed spec fn secs(self) -> i64 {
        self.0
    }

    /// The current time. A clock before the Unix epoch counts as the epoch.
    ///
    /// The clock may show anything, so nothing is promised of the result: the clause says where it
    /// comes from, and every time meets it. [`Self::from_clock`] says what a reading stands for.
    #[must_use]
    pub fn now() -> (r: Self)
        ensures
            exists|reading: Option<u64>| r.secs() == #[trigger] clock_time(reading),
    {
        let reading = seconds_since_epoch();
        PublishTime::from_clock(reading)
    }

    /// The time that a reading of seconds since the epoch stands for; `None` is a clock set
    /// before the epoch.
    #[must_use]
    pub fn from_clock(reading: Option<u64>) -> (r: Self)
        ensures
            r.secs() == clock_time(reading),
    {
        match reading {
            None => PublishTime(0),
            Some(secs) => {
                if secs <= 0x7fff_ffff_ffff_ffff {
                    PublishTime(secs as i64)
                } else {
                    PublishTime((secs - 0x8000_0000_0000_0000) as i64 + i64::MIN)
                }
            },
        }
    }

    /// The instant `secs` seconds after the Unix epoch.
    #[must_use]
    pub fn from_unix_secs(secs: i64) -> (r: Self)
        ensures
            r.secs() == secs,
    {
        PublishTime(secs)
    }

    /// The instant `ms` milliseconds after the Unix epoch, truncated towards the epoch to whole
    /// seconds.
    #[must_use]
    pub fn from_unix_millis(ms: i64) -> (r: Self)
        ensures
            r.secs() == (if ms >= 0 {
                ms / 1000
            } else {
                -((-ms) / 1000)
            }),
    {
        if ms >= 0 {
            PublishTime(ms / 1000)
        } else if ms == i64::MIN {
            proof {
                assert(-((-(i64::MIN as int)) / 1000) == -9_223_372_036_854_775);
            }
            PublishTime(-9_223_372_036_854_775)
        } else {
            PublishTime(-((-ms) / 1000))
        }
    }

    /// Parses an RFC 3339 timestamp: a `Z` suffix or a numeric offset, with or without
    /// fractional seconds. `None` on any parse failure.
    #[must_use]
    pub fn parse_rfc3339(s: &str) -> (r: Option<Self>)
        ensures
            match r {
                Some(t) => rfc3339_seconds(s@) == Some(t.secs()),
                None => rfc3339_seconds(s@) is None,
            },
    {
        match parse_timestamp(s) {
            Some(secs) => Some(PublishTime(secs)),
            None => None,
        }
    }

    /// This instant as Unix epoch seconds.
    #[must_use]
    pub fn as_unix_secs(self) -> (r: i64)
        ensures
            r == self.secs(),
    {
        self.0
    }

    /// Age of this publish instant relative to `now`, in seconds.
    ///
    /// An instant in the future relative to `now` (clock skew) has age 0: a slightly-ahead
    /// registry clock is exactly the "just published" case. An age beyond what a signed number
    /// of seconds holds is cut to that maximum.
    #[must_use]
    pub fn age_secs_from(self, now: Self) -> (r: u64)
        ensures
            r == age_secs(self.secs() as int, now.secs() as int),
    {
        if now.0 <= self.0 {
            0
        } else {
            let diff: i128 = now.0 as i128 - self.0 as i128;
            if diff > 0x7fff_ffff_ffff_ffff {
                0x7fff_ffff_ffff_ffff
            } else {
                diff as u64
            }
        }
    }
}

/// How long `published` lies before `now`, in seconds, between nothing and the largest signed
/// number.
pub open spec fn age_secs(published: int, now: int) -> int {
    if now <= published {
        0
    } else if now - published > i64::MAX {
        i64::MAX as int
    } else {
        now - published
    }
}

/// Whether an age (in seconds) falls within a cooldown window (in seconds).
///
/// The bound is exclusive: a version published exactly `cooldown_secs` ago is not within
/// cooldown. Note the parameter order: age first, cooldown second.
#[must_use]
pub fn is_within_cooldown(age_secs: u64, cooldown_secs: u64) -> (r: bool)
    ensures
        r == (age_secs < cooldown_secs),
{
    age_secs < cooldown_secs
}

const MINUTE: u64 = 60;

const HOUR: u64 = 3600;

const DAY: u64 = 86_400;

const WEEK: u64 = 604_800;

const MONTH: u64 = 2_592_000;

const YEAR: u64 = 31_536_000;

/// `1 <unit> ago` or `<count> <unit>s ago`.
pub open spec fn unit_ago(count: nat, unit: Seq<char>) -> Seq<char> {
    if count == 1 {
        "1 "@ + unit + " ago"@
    } else {
        decimal(count) + " "@ + unit + "s ago"@
    }
}

/// An age as a coarse duration: the largest whole unit that fits.
pub open spec fn relative_age(age_secs: nat) -> Seq<char> {
    if age_secs < 60 {
        "just now"@
    } else if age_secs < 3600 {
        unit_ago(age_secs / 60, "minute"@)
    } else if age_secs < 86_400 {
        unit_ago(age_secs / 3600, "hour"@)
    } else if age_secs < 604_800 {
        unit_ago(age_secs / 86_400, "day"@)
    } else if age_secs < 2_592_000 {
        unit_ago(age_secs / 604_800, "week"@)
    } else if age_secs < 31_536_000 {
        unit_ago(age_secs / 2_592_000, "month"@)
    } else {
        unit_ago(age_secs / 31_536_000, "year"@)
    }
}

/// Pluralizes a unit label.
fn format_unit_ago(count: u64, unit: &str) -> (r: String)
    ensures
        r@ == unit_ago(count as nat, unit@),
{
    if count == 1 {
        let mut s = "1 ".to_owned();
        s.append(unit);
        s.append(" ago");
        s
    } else {
        let mut s = decimal_of(count);
        s.append(" ");
        s.append(unit);
        s.append("s ago");
        s
    }
}

/// Formats an age in seconds as a coarse, human-readable relative duration.
///
/// Buckets by the largest whole unit that fits: minutes, hours, days, weeks, months of 30 days,
/// years of 365 days.
#[must_use]
pub fn format_relative_age(age_secs: u64) -> (r: String)
    ensures
        r@ == relative_age(age_secs as nat),
{
    if age_secs < MINUTE {
        "just now".to_owned()
    } else if age_secs < HOUR {
        format_unit_ago(age_secs / MINUTE, "minute")
    } else if age_secs < DAY {
        format_unit_ago(age_secs / HOUR, "hour")
    } else if age_secs < WEEK {
        format_unit_ago(age_secs / DAY, "day")
    } else if age_secs < MONTH {
        format_unit_ago(age_secs / WEEK, "week")
    } else if age_secs < YEAR {
        format_unit_ago(age_secs / MONTH, "month")
    } else {
        format_unit_ago(age_secs / YEAR, "year")
    }
}

/// Freshness settings, as threaded into hover, diagnostics and completion.
#[derive(Debug, Clone, Copy, PartialEq, Eq, Structural)]
pub struct FreshnessSettings {
    /// Whether the freshness signal is rendered at all.
    pub enabled: bool,
    /// Cooldown window, in seconds, below which a publish age is "recent".
    pub cooldown_secs: u64,
}

impl Default for FreshnessSettings {
    fn default() -> (r: Self)
        ensures
            r == (FreshnessSettings { enabled: true, cooldown_secs: DEFAULT_COOLDOWN_SECS }),
    {
        FreshnessSettings { enabled: true, cooldown_secs: DEFAULT_COOLDOWN_SECS }
    }
}

// ---------------------------------------------------------------------------
// Laws
// ---------------------------------------------------------------------------

/// A release dated in the future counts as published just now, and so is within every cooldown
/// window that is not empty.
pub proof fn law_future_release_is_within_cooldown(published: int, now: int, cooldown: u64)
    requires
        published >= now,
        cooldown > 0,
    ensures
        age_secs(published, now) < cooldown,
{
}

/// An age never shrinks as time goes on: a release that has left its cooldown stays out of it.
pub proof fn law_age_grows_with_time(published: int, now: int, later: int)
    requires
        now <= later,
    ensures
        age_secs(published, now) <= age_secs(published, later),
{
}

/// An age is what must be added to the publish time to reach the present, as far as a signed
/// number of seconds goes.
pub proof fn law_age_bridges_publication_and_now(published: int, age: int)
    requires
        age >= 0,
    ensures
        age <= i64::MAX ==> age_secs(published, published + age) == age,
        age > i64::MAX ==> age_secs(published, published + age) == i64::MAX,
        age_secs(published, published - age) == 0,
{
}

/// A clock reading is the seconds since the epoch, and a clock before the epoch shows the epoch.
/// A reading beyond the signed numbers wraps round to the negative ones.
pub proof fn law_clock_counts_from_the_epoch(secs: u64)
    ensures
        clock_time(None) == 0,
        secs <= i64::MAX ==> clock_time(Some(secs)) == secs,
        secs > i64::MAX ==> clock_time(Some(secs)) == i64::MIN + (secs - i64::MAX - 1),
{
}

/// An age is given in the largest unit that fits, in whole units, of minutes, hours, days, weeks,
/// months of 30 days and years of 365 days; the part of a unit that is left over does not count.
pub proof fn law_age_is_given_in_its_largest_unit(n: nat, rest: nat)
    requires
        n > 0,
    ensures
        rest < 60 ==> relative_age(rest) == "just now"@,
        n < 60 && rest < 60 ==> relative_age(n * 60 + rest) == unit_ago(n, "minute"@),
        n < 24 && rest < 3600 ==> relative_age(n * 3600 + rest) == unit_ago(n, "hour"@),
        n < 7 && rest < 86_400 ==> relative_age(n * 86_400 + rest) == unit_ago(n, "day"@),
        n * 604_800 + rest < 2_592_000 && rest < 604_800 ==> relative_age(n * 604_800 + rest)
            == unit_ago(n, "week"@),
        n * 2_592_000 + rest < 31_536_000 && rest < 2_592_000 ==> relative_age(
            n * 2_592_000 + rest,
        ) == unit_ago(n, "month"@),
        rest < 31_536_000 ==> relative_age(n * 31_536_000 + rest) == unit_ago(n, "year"@),
{
}

/// One unit is named in the singular, any other number of them in the plural.
pub proof fn law_units_are_counted(count: nat, unit: Seq<char>)
    ensures
        unit_ago(1, unit) == seq!['1', ' '] + unit + seq![' ', 'a', 'g', 'o'],
        count != 1 ==> unit_ago(count, unit) == decimal(count) + seq![' '] + unit + seq![
            's',
            ' ',
            'a',
            'g',
            'o',
        ],
{
    reveal_strlit("1 ");
    reveal_strlit(" ago");
    reveal_strlit(" ");
    reveal_strlit("s ago");
    assert("1 "@ =~= seq!['1', ' ']);
    assert(" ago"@ =~= seq![' ', 'a', 'g', 'o']);
    assert(" "@ =~= seq![' ']);
    assert("s ago"@ =~= seq!['s', ' ', 'a', 'g', 'o']);
}

} // verus!
