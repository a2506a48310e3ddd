//! Memoized call outcomes, with the in-flight claims that keep a call from being made twice.

use crate::cache_policy::{expired, made_room, EntryModel, ExpiringMap, KeyTexts};
use crate::index::{copy_key, KeyIndex};
use crate::text::string_texts;
use vstd::prelude::*;

verus! {

/// Whether every call that an evaluation needed returned a definitive answer.
///
/// "Nothing found" and "could not ask" look the same in a result; this tells them apart.
#[derive(Debug, Clone, Copy, PartialEq, Eq, Structural)]
pub enum FetchCompleteness {
    /// Every call returned a definitive answer, an authoritative negative among them.
    Complete,
    /// At least one call failed, timed out, or returned unreadable data.
    Incomplete,
}

impl FetchCompleteness {
    /// The completeness of an evaluation that two readings jointly determine.
    pub open spec fn combined(self, other: Self) -> Self {
        if self == FetchCompleteness::Incomplete || other == FetchCompleteness::Incomplete {
            FetchCompleteness::Incomplete
        } else {
            FetchCompleteness::Complete
        }
    }

    /// Combines two readings: incomplete if either is.
    #[must_use]
    pub fn combine(self, other: Self) -> (r: Self)
        ensures
            r == self.combined(other),
    {
        if self == FetchCompleteness::Incomplete || other == FetchCompleteness::Incomplete {
            FetchCompleteness::Incomplete
        } else {
            FetchCompleteness::Complete
        }
    }
}

/// The outcome of one evaluation, which carries its own completeness.
///
/// Both variants have a payload: a partial result is a legitimate outcome, not merely a
/// placeholder for nothing.
#[derive(Debug)]
pub enum CallOutcome<V> {
    /// Every call this evaluation needed returned a definitive answer.
    Definitive(V),
    /// At least one call failed, timed out, or returned unreadable data.
    Degraded(V),
}

impl<V> CallOutcome<V> {
    /// The value, whatever its completeness.
    pub open spec fn value(self) -> V {
        match self {
            CallOutcome::Definitive(v) => v,
            CallOutcome::Degraded(v) => v,
        }
    }

    /// The completeness.
    pub open spec fn is_complete(self) -> FetchCompleteness {
        match self {
            CallOutcome::Definitive(_) => FetchCompleteness::Complete,
            CallOutcome::Degraded(_) => FetchCompleteness::Incomplete,
        }
    }

    /// The completeness of this outcome.
    pub fn completeness(&self) -> (r: FetchCompleteness)
        ensures
            r == self.is_complete(),
    {
        match self {
            CallOutcome::Definitive(_) => FetchCompleteness::Complete,
            CallOutcome::Degraded(_) => FetchCompleteness::Incomplete,
        }
    }

    /// Discards the completeness, keeping only the value.
    pub fn into_value(self) -> (r: V)
        ensures
            r == self.value(),
    {
        match self {
            CallOutcome::Definitive(value) => value,
            CallOutcome::Degraded(value) => value,
        }
    }

    /// The value, borrowed.
    pub fn as_value(&self) -> (r: &V)
        ensures
            *r == self.value(),
    {
        match self {
            CallOutcome::Definitive(value) => value,
            CallOutcome::Degraded(value) => value,
        }
    }

    /// Splits this outcome into its value and its completeness.
    pub fn into_parts(self) -> (r: (V, FetchCompleteness))
        ensures
            r == (self.value(), self.is_complete()),
    {
        let completeness = self.completeness();
        (self.into_value(), completeness)
    }

    /// The outcome with the given value and completeness.
    pub fn with_completeness(value: V, completeness: FetchCompleteness) -> (r: Self)
        ensures
            r.value() == value,
            r.is_complete() == completeness,
    {
        match completeness {
            FetchCompleteness::Complete => CallOutcome::Definitive(value),
            FetchCompleteness::Incomplete => CallOutcome::Degraded(value),
        }
    }
}

/// How long, in milliseconds, a definitive and a degraded outcome are trusted.
#[derive(Debug, Clone, Copy, PartialEq, Eq, Structural)]
pub struct TtlPolicy {
    definitive: u64,
    degraded: u64,
}

impl TtlPolicy {
    /// How long an outcome of the given completeness is trusted.
    pub closed spec fn ttl(self, completeness: FetchCompleteness) -> u64 {
        match completeness {
            FetchCompleteness::Complete => self.definitive,
            FetchCompleteness::Incomplete => self.degraded,
        }
    }

    /// The policy with the given times.
    pub fn new(definitive: u64, degraded: u64) -> (r: Self)
        ensures
            r.ttl(FetchCompleteness::Complete) == definitive,
            r.ttl(FetchCompleteness::Incomplete) == degraded,
    {
        TtlPolicy { definitive, degraded }
    }

    /// How long the given outcome is trusted.
    pub fn ttl_for<V>(&self, outcome: &CallOutcome<V>) -> (r: u64)
        ensures
            r == self.ttl(outcome.is_complete()),
    {
        match outcome {
            CallOutcome::Definitive(_) => self.definitive,
            CallOutcome::Degraded(_) => self.degraded,
        }
    }
}

/// How long a definitive deps.dev answer is trusted, in milliseconds: one hour. A 404 is such an
/// answer: it says that there is no record.
pub const DEPS_DEV_SUCCESS_TTL: u64 = 3_600_000;

/// How long a failed deps.dev call is remembered, in milliseconds: 90 seconds.
pub const DEPS_DEV_ERROR_TTL: u64 = 90_000;

/// How long a resolved GOSSIP result is trusted, in milliseconds: one hour.
pub const GOSSIP_SUCCESS_TTL: u64 = 3_600_000;

/// How long a failed GOSSIP call is remembered, in milliseconds: 90 seconds.
pub const GOSSIP_ERROR_TTL: u64 = 90_000;

/// Entry-count bound of every memo.
pub const MAX_MEMO_ENTRIES: usize = 512;

/// The policy of the plain deps.dev calls.
pub fn deps_dev_ttls() -> (r: TtlPolicy)
    ensures
        r.ttl(FetchCompleteness::Complete) == DEPS_DEV_SUCCESS_TTL,
        r.ttl(FetchCompleteness::Incomplete) == DEPS_DEV_ERROR_TTL,
{
    TtlPolicy::new(DEPS_DEV_SUCCESS_TTL, DEPS_DEV_ERROR_TTL)
}

/// The policy of the GOSSIP calls.
pub fn gossip_ttls() -> (r: TtlPolicy)
    ensures
        r.ttl(FetchCompleteness::Complete) == GOSSIP_SUCCESS_TTL,
        r.ttl(FetchCompleteness::Incomplete) == GOSSIP_ERROR_TTL,
{
    TtlPolicy::new(GOSSIP_SUCCESS_TTL, GOSSIP_ERROR_TTL)
}

// ---------------------------------------------------------------------------
// Memo
// ---------------------------------------------------------------------------

/// Outcomes by key, each trusted as long as the policy says for its completeness.
pub struct TtlMemo<V> {
    entries: ExpiringMap<CallOutcome<V>>,
    policy: TtlPolicy,
}

/// The entry that storing `outcome` at `now` makes.
pub open spec fn memo_entry<V>(
    policy: TtlPolicy,
    outcome: CallOutcome<V>,
    now: u64,
) -> EntryModel<CallOutcome<V>> {
    EntryModel { fetched_at: now, ttl: policy.ttl(outcome.is_complete()), value: outcome }
}

/// Whether `after` is `before` with `outcome` stored under `key`: a new key makes room first, a
/// known one is replaced.
pub open spec fn memo_stored<V>(
    before: Map<KeyTexts, EntryModel<CallOutcome<V>>>,
    after: Map<KeyTexts, EntryModel<CallOutcome<V>>>,
    key: KeyTexts,
    entry: EntryModel<CallOutcome<V>>,
) -> bool {
    exists|room: Map<KeyTexts, EntryModel<CallOutcome<V>>>|
        (if before.dom().contains(key) {
            room == before
        } else {
            made_room(before, room, MAX_MEMO_ENTRIES as nat, entry.fetched_at)
        }) && after == #[trigger] room.insert(key, entry)
}

/// The outcome under `key` that is still trusted at `now`.
pub open spec fn fresh_outcome<V>(
    m: Map<KeyTexts, EntryModel<CallOutcome<V>>>,
    key: KeyTexts,
    now: u64,
) -> Option<CallOutcome<V>> {
    if m.dom().contains(key) && !expired(m[key], now) {
        Some(m[key].value)
    } else {
        None
    }
}

impl<V> View for TtlMemo<V> {
    type V = Map<KeyTexts, EntryModel<CallOutcome<V>>>;

    closed spec fn view(&self) -> Map<KeyTexts, EntryModel<CallOutcome<V>>> {
        self.entries@
    }
}

impl<V> TtlMemo<V> {
    /// The policy that governs the memo.
    pub closed spec fn policy(&self) -> TtlPolicy {
        self.policy
    }

    /// The memo is in order and within its bound.
    pub closed spec fn wf(&self) -> bool {
        self.entries.wf() && self.entries.count() <= MAX_MEMO_ENTRIES
    }

    /// An empty memo governed by `policy`.
    pub fn new(policy: TtlPolicy) -> (r: Self)
        ensures
            r.wf(),
            r@ == Map::<KeyTexts, EntryModel<CallOutcome<V>>>::empty(),
            r.policy() == policy,
    {
        TtlMemo { entries: ExpiringMap::new(), policy }
    }

    /// The outcome under `key`, if there is one that is still trusted at `now`.
    pub fn get_fresh(&self, key: &Vec<String>, now: u64) -> (r: Option<&CallOutcome<V>>)
        requires
            self.wf(),
        ensures
            match r {
                Some(outcome) => fresh_outcome(self@, string_texts(key@), now) == Some(*outcome),
                None => fresh_outcome(self@, string_texts(key@), now) is None,
            },
    {
        self.entries.get_fresh(key, now)
    }

    /// Stores `outcome` under `key` at `now`. A new key makes room first when the memo is full.
    pub fn insert(&mut self, key: Vec<String>, outcome: CallOutcome<V>, now: u64)
        requires
            old(self).wf(),
        ensures
            final(self).wf(),
            final(self).policy() == old(self).policy(),
            memo_stored(
                old(self)@,
                final(self)@,
                string_texts(key@),
                memo_entry(old(self).policy(), outcome, now),
            ),
            final(self)@.dom().contains(string_texts(key@)),
            final(self)@[string_texts(key@)] == memo_entry(old(self).policy(), outcome, now),
    {
        let ttl: u64 = self.policy.ttl_for(&outcome);
        self.entries.insert(key, outcome, ttl, now, MAX_MEMO_ENTRIES);
    }

    /// Drops the entry under `key`, so that the next reading is made afresh.
    pub fn remove(&mut self, key: &Vec<String>)
        requires
            old(self).wf(),
        ensures
            final(self).wf(),
            final(self).policy() == old(self).policy(),
            final(self)@ == old(self)@.remove(string_texts(key@)),
    {
        self.entries.remove(key);
    }

    /// How many entries there are, expired ones included.
    pub fn len(&self) -> (r: usize)
        requires
            self.wf(),
        ensures
            self@.dom().finite(),
            r == self@.dom().len(),
            r <= MAX_MEMO_ENTRIES,
    {
        let n: usize = self.entries.len();
        proof {
            self.entries.lemma_count();
        }
        n
    }

    /// Whether there is an entry under `key`, expired or not.
    pub fn contains_key(&self, key: &Vec<String>) -> (r: bool)
        ensures
            r == self@.dom().contains(string_texts(key@)),
    {
        self.entries.contains_key(key)
    }

    /// How long the entry under `key` is trusted.
    pub fn ttl_of(&self, key: &Vec<String>) -> (r: Option<u64>)
        requires
            self.wf(),
        ensures
            r == (if self@.dom().contains(string_texts(key@)) {
                Some(self@[string_texts(key@)].ttl)
            } else {
                None
            }),
    {
        self.entries.ttl_of(key)
    }
}

// ---------------------------------------------------------------------------
// Claims
// ---------------------------------------------------------------------------

/// Keys that someone is working on. A key is claimed by one party at a time.
pub struct ClaimSet {
    index: KeyIndex,
}

impl View for ClaimSet {
    type V = Set<KeyTexts>;

    closed spec fn view(&self) -> Set<KeyTexts> {
        self.index@.dom()
    }
}

impl ClaimSet {
    /// No claims.
    pub fn new() -> (r: Self)
        ensures
            r@ == Set::<KeyTexts>::empty(),
    {
        let r = ClaimSet { index: KeyIndex::new() };
        proof {
            assert(r@ =~= Set::<KeyTexts>::empty());
        }
        r
    }

    /// Claims `key`; `false` when it is claimed already.
    pub fn claim(&mut self, key: Vec<String>) -> (r: bool)
        ensures
            r == !old(self)@.contains(string_texts(key@)),
            final(self)@ == old(self)@.insert(string_texts(key@)),
    {
        let ghost before = self@;
        let ghost parts = string_texts(key@);
        if self.index.get(&key).is_some() {
            proof {
                assert(before.insert(parts) =~= before);
            }
            return false;
        }
        self.index.insert(key, 0);
        proof {
            assert(self@ =~= before.insert(parts));
        }
        true
    }

    /// Releases `key`.
    pub fn release(&mut self, key: &Vec<String>)
        ensures
            final(self)@ == old(self)@.remove(string_texts(key@)),
    {
        let ghost before = self@;
        self.index.remove(key);
        proof {
            assert(self@ =~= before.remove(string_texts(key@)));
        }
    }

    /// Whether `key` is claimed.
    pub fn is_claimed(&self, key: &Vec<String>) -> (r: bool)
        ensures
            r == self@.contains(string_texts(key@)),
    {
        self.index.get(key).is_some()
    }
}

// ---------------------------------------------------------------------------
// Coalescing
// ---------------------------------------------------------------------------

/// How often a follower takes over after its leader was cancelled, so that a leader that keeps
/// being cancelled cannot make anyone wait forever.
pub const MAX_COALESCE_TAKEOVER_ATTEMPTS: u8 = 2;

/// How the leader that a follower waited for ended.
pub enum LeaderEnd<T> {
    /// It finished with this value.
    Ready(T),
    /// It was cancelled before it finished.
    Cancelled,
}

/// What a follower does once its leader has ended.
pub enum FollowStep<T> {
    /// The value is at hand.
    Done(T),
    /// Try again to become the leader, as the given attempt.
    Retry(u8),
    /// Every attempt is used up.
    GiveUp,
}

/// What a follower in its `attempt` does once its leader has ended.
pub open spec fn follow_step<T>(attempt: u8, end: LeaderEnd<T>) -> FollowStep<T> {
    match end {
        LeaderEnd::Ready(value) => FollowStep::Done(value),
        LeaderEnd::Cancelled => if attempt < MAX_COALESCE_TAKEOVER_ATTEMPTS {
            FollowStep::Retry((attempt + 1) as u8)
        } else {
            FollowStep::GiveUp
        },
    }
}

/// What a follower in its `attempt` does once its leader has ended: it takes the leader's value,
/// or, where the leader was cancelled, takes over as long as attempts are left.
pub fn after_leader<T>(attempt: u8, end: LeaderEnd<T>) -> (r: FollowStep<T>)
    ensures
        r == follow_step(attempt, end),
{
    match end {
        LeaderEnd::Ready(value) => FollowStep::Done(value),
        LeaderEnd::Cancelled => {
            if attempt < MAX_COALESCE_TAKEOVER_ATTEMPTS {
                FollowStep::Retry(attempt + 1)
            } else {
                FollowStep::GiveUp
            }
        },
    }
}

/// What a reading of a coalesced memo comes to.
pub enum MemoStep<'a, V> {
    /// A trusted outcome is at hand.
    Hit(&'a CallOutcome<V>),
    /// Nobody is working on the key: the caller leads and is to make the call.
    Lead,
    /// Someone else is working on the key: the caller waits for that leader.
    Follow,
}

/// What a reading of a memo comes to, by its contents.
pub enum MemoReading<V> {
    /// A trusted outcome is at hand.
    Hit(CallOutcome<V>),
    /// Nobody is working on the key.
    Lead,
    /// Someone is working on the key.
    Follow,
}

/// What a reading of `key` at `now` comes to.
pub open spec fn reading<V>(
    memo: Map<KeyTexts, EntryModel<CallOutcome<V>>>,
    claims: Set<KeyTexts>,
    key: KeyTexts,
    now: u64,
) -> MemoReading<V> {
    match fresh_outcome(memo, key, now) {
        Some(outcome) => MemoReading::Hit(outcome),
        None => if claims.contains(key) {
            MemoReading::Follow
        } else {
            MemoReading::Lead
        },
    }
}

/// The claims after a reading of `key` at `now`: whoever leads has claimed the key.
pub open spec fn claims_after_reading<V>(
    memo: Map<KeyTexts, EntryModel<CallOutcome<V>>>,
    claims: Set<KeyTexts>,
    key: KeyTexts,
    now: u64,
) -> Set<KeyTexts> {
    if reading(memo, claims, key, now) is Lead {
        claims.insert(key)
    } else {
        claims
    }
}

/// A memo whose misses are made once: concurrent callers for one key share one call.
pub struct CoalescedMemo<V> {
    memo: TtlMemo<V>,
    in_flight: ClaimSet,
}

impl<V> CoalescedMemo<V> {
    /// The memoized outcomes.
    pub closed spec fn memo(&self) -> Map<KeyTexts, EntryModel<CallOutcome<V>>> {
        self.memo@
    }

    /// The policy that governs the memo.
    pub closed spec fn policy(&self) -> TtlPolicy {
        self.memo.policy()
    }

    /// The keys that someone is working on.
    pub closed spec fn claims(&self) -> Set<KeyTexts> {
        self.in_flight@
    }

    /// The memo is in order and within its bound.
    pub closed spec fn wf(&self) -> bool {
        self.memo.wf()
    }

    /// An empty memo governed by `policy`.
    pub fn new(policy: TtlPolicy) -> (r: Self)
        ensures
            r.wf(),
            r.memo() == Map::<KeyTexts, EntryModel<CallOutcome<V>>>::empty(),
            r.claims() == Set::<KeyTexts>::empty(),
            r.policy() == policy,
    {
        CoalescedMemo { memo: TtlMemo::new(policy), in_flight: ClaimSet::new() }
    }

    /// Reads `key` at `now`: a trusted outcome if there is one; else the caller leads, and holds
    /// the claim until [`Self::complete`] or [`Self::abandon`], or follows whoever does.
    pub fn begin(&mut self, key: &Vec<String>, now: u64) -> (r: MemoStep<'_, V>)
        requires
            old(self).wf(),
        ensures
            final(self).wf(),
            final(self).memo() == old(self).memo(),
            final(self).policy() == old(self).policy(),
            ({
                let found = reading(old(self).memo(), old(self).claims(), string_texts(key@), now);
                match r {
                    MemoStep::Hit(outcome) => found == MemoReading::Hit(*outcome),
                    MemoStep::Lead => found is Lead,
                    MemoStep::Follow => found is Follow,
                }
            }),
            final(self).claims() == claims_after_reading(
                old(self).memo(),
                old(self).claims(),
                string_texts(key@),
                now,
            ),
    {
        if self.memo.get_fresh(key, now).is_none() {
            let ghost before = self.in_flight@;
            if self.in_flight.claim(copy_key(key)) {
                return MemoStep::Lead;
            }
            proof {
                assert(before.insert(string_texts(key@)) =~= before);
            }
            return MemoStep::Follow;
        }
        match self.memo.get_fresh(key, now) {
            Some(outcome) => MemoStep::Hit(outcome),
            None => MemoStep::Follow,
        }
    }

    /// Ends the leader's work on `key` with `outcome`, which is stored, and releases the claim.
    pub fn complete(&mut self, key: &Vec<String>, outcome: CallOutcome<V>, now: u64)
        requires
            old(self).wf(),
        ensures
            final(self).wf(),
            final(self).policy() == old(self).policy(),
            memo_stored(
                old(self).memo(),
                final(self).memo(),
                string_texts(key@),
                memo_entry(old(self).policy(), outcome, now),
            ),
            final(self).memo().dom().contains(string_texts(key@)),
            final(self).memo()[string_texts(key@)] == memo_entry(
                old(self).policy(),
                outcome,
                now,
            ),
            final(self).claims() == old(self).claims().remove(string_texts(key@)),
    {
        self.memo.insert(copy_key(key), outcome, now);
        self.in_flight.release(key);
    }

    /// Ends the leader's work on `key` without an outcome: the claim is released, so that a
    /// follower can take over.
    pub fn abandon(&mut self, key: &Vec<String>)
        requires
            old(self).wf(),
        ensures
            final(self).wf(),
            final(self).memo() == old(self).memo(),
            final(self).policy() == old(self).policy(),
            final(self).claims() == old(self).claims().remove(string_texts(key@)),
    {
        self.in_flight.release(key);
    }

    /// Whether someone is working on `key`.
    pub fn in_flight_contains(&self, key: &Vec<String>) -> (r: bool)
        ensures
            r == self.claims().contains(string_texts(key@)),
    {
        self.in_flight.is_claimed(key)
    }

    /// How many outcomes are memoized, expired ones included.
    pub fn len(&self) -> (r: usize)
        requires
            self.wf(),
        ensures
            self.memo().dom().finite(),
            r == self.memo().dom().len(),
            r <= MAX_MEMO_ENTRIES,
    {
        self.memo.len()
    }
}

/// The outcome of a coalesced call: what the call came to, or, where every attempt was used up
/// without one, the fallback as a degraded outcome.
pub fn coalesced_outcome<V>(result: Option<CallOutcome<V>>, fallback: V) -> (r: CallOutcome<V>)
    ensures
        r == (match result {
            Some(outcome) => outcome,
            None => CallOutcome::Degraded(fallback),
        }),
{
    match result {
        Some(outcome) => outcome,
        None => CallOutcome::Degraded(fallback),
    }
}

// ---------------------------------------------------------------------------
// Laws
// ---------------------------------------------------------------------------

/// Combining readings is commutative and associative, complete readings change nothing, and an
/// incomplete one decides.
pub proof fn law_combining_completeness(
    a: FetchCompleteness,
    b: FetchCompleteness,
    c: FetchCompleteness,
)
    ensures
        a.combined(b) == b.combined(a),
        a.combined(b).combined(c) == a.combined(b.combined(c)),
        a.combined(FetchCompleteness::Complete) == a,
        a.combined(FetchCompleteness::Incomplete) == FetchCompleteness::Incomplete,
{
}

/// What was stored is read back until its time to live has passed, and not any longer.
pub proof fn law_stored_outcome_is_fresh_for_its_ttl<V>(
    after: Map<KeyTexts, EntryModel<CallOutcome<V>>>,
    key: KeyTexts,
    policy: TtlPolicy,
    outcome: CallOutcome<V>,
    stored_at: u64,
    now: u64,
)
    requires
        after.dom().contains(key),
        after[key] == memo_entry(policy, outcome, stored_at),
        stored_at <= now,
    ensures
        fresh_outcome(after, key, now) == (if now - stored_at < policy.ttl(outcome.is_complete()) {
            Some(outcome)
        } else {
            None
        }),
{
}

/// Storing an outcome under a key that is known leaves every other key as it was.
pub proof fn law_refreshing_evicts_nothing<V>(
    before: Map<KeyTexts, EntryModel<CallOutcome<V>>>,
    after: Map<KeyTexts, EntryModel<CallOutcome<V>>>,
    key: KeyTexts,
    entry: EntryModel<CallOutcome<V>>,
    other: KeyTexts,
)
    requires
        memo_stored(before, after, key, entry),
        before.dom().contains(key),
        before.dom().contains(other),
        other != key,
    ensures
        after.dom().contains(other),
        after[other] == before[other],
{
}

/// What a follower does after the given number of leaders, all of them cancelled.
pub open spec fn attempts_after(cancelled: nat) -> FollowStep<()>
    decreases cancelled,
{
    if cancelled == 0 {
        FollowStep::Retry(0)
    } else {
        match attempts_after((cancelled - 1) as nat) {
            FollowStep::Retry(attempt) => follow_step(attempt, LeaderEnd::<()>::Cancelled),
            other => other,
        }
    }
}

/// However often leaders are cancelled, a follower takes over as often as attempts are granted and
/// then gives up.
pub proof fn law_following_ends(cancelled: nat)
    ensures
        attempts_after(cancelled) == (if cancelled <= MAX_COALESCE_TAKEOVER_ATTEMPTS {
            FollowStep::<()>::Retry(cancelled as u8)
        } else {
            FollowStep::<()>::GiveUp
        }),
    decreases cancelled,
{
    if cancelled > 0 {
        law_following_ends((cancelled - 1) as nat);
    }
}

/// Storing under a new key while there is room adds that entry and changes nothing else.
pub proof fn law_storing_with_room_only_adds<V>(
    before: Map<KeyTexts, EntryModel<CallOutcome<V>>>,
    after: Map<KeyTexts, EntryModel<CallOutcome<V>>>,
    key: KeyTexts,
    entry: EntryModel<CallOutcome<V>>,
)
    requires
        memo_stored(before, after, key, entry),
    ensures
        after.dom().contains(key) && after[key] == entry,
        before.dom().contains(key) || before.dom().len() < MAX_MEMO_ENTRIES ==> after
            == before.insert(key, entry),
{
}

/// An outcome carries its value and its completeness, and an entry made of it is trusted from when
/// it was stored for as long as the policy grants that completeness.
pub proof fn law_outcomes_carry_value_and_completeness<V>(policy: TtlPolicy, value: V, now: u64)
    ensures
        CallOutcome::Definitive(value).value() == value,
        CallOutcome::Degraded(value).value() == value,
        CallOutcome::Definitive(value).is_complete() == FetchCompleteness::Complete,
        CallOutcome::Degraded(value).is_complete() == FetchCompleteness::Incomplete,
        ({
            let entry = memo_entry(policy, CallOutcome::Definitive(value), now);
            &&& entry.value == CallOutcome::Definitive(value)
            &&& entry.fetched_at == now
            &&& entry.ttl == policy.ttl(FetchCompleteness::Complete)
        }),
        ({
            let entry = memo_entry(policy, CallOutcome::Degraded(value), now);
            &&& entry.value == CallOutcome::Degraded(value)
            &&& entry.fetched_at == now
            &&& entry.ttl == policy.ttl(FetchCompleteness::Incomplete)
        }),
{
}

/// An outcome is read back exactly while its time to live has not passed, and a key that nothing
/// is stored under gives nothing.
pub proof fn law_reading_goes_by_key_and_time<V>(
    m: Map<KeyTexts, EntryModel<CallOutcome<V>>>,
    key: KeyTexts,
    now: u64,
)
    ensures
        m.dom().contains(key) && (m[key].ttl > 0 && now < m[key].fetched_at + m[key].ttl)
            ==> fresh_outcome(m, key, now) == Some(m[key].value),
        !m.dom().contains(key) || m[key].ttl == 0 || now >= m[key].fetched_at + m[key].ttl
            ==> fresh_outcome(m, key, now) is None,
{
}

/// A key has one leader: whoever reads it first without finding anything leads, everyone after
/// that follows, and once the claim is released the next one leads. Readings of other keys are
/// not touched, and what is found takes no claim.
pub proof fn law_one_leader_per_key<V>(
    memo: Map<KeyTexts, EntryModel<CallOutcome<V>>>,
    claims: Set<KeyTexts>,
    key: KeyTexts,
    other: KeyTexts,
    now: u64,
)
    requires
        other != key,
    ensures
        ({
            let after = claims_after_reading(memo, claims, key, now);
            &&& reading(memo, claims, key, now) is Hit <==> fresh_outcome(memo, key, now) is Some
            &&& reading(memo, claims, key, now) matches MemoReading::Hit(outcome) ==> Some(outcome)
                == fresh_outcome(memo, key, now) && after == claims
            &&& fresh_outcome(memo, key, now) is None ==> {
                &&& reading(memo, claims, key, now) is Lead <==> !claims.contains(key)
                &&& reading(memo, after, key, now) is Follow
                &&& after == claims.insert(key)
                &&& reading(memo, after.remove(key), key, now) is Lead
            }
            &&& reading(memo, after, other, now) == reading(memo, claims, other, now)
        }),
{
    let after = claims_after_reading(memo, claims, key, now);
    if fresh_outcome(memo, key, now) is None {
        assert(after =~= claims.insert(key));
    }
}

/// A follower takes what its leader made, in whichever attempt.
pub proof fn law_followers_share_the_leaders_value<T>(attempt: u8, value: T)
    ensures
        follow_step(attempt, LeaderEnd::Ready(value)) == FollowStep::Done(value),
{
}

} // verus!
