//! What holds of any number of concurrent calls on one coalesced memo.
//!
//! A call reads the memo ([`CoalescedMemo::begin`]) and finds a trusted outcome, leads, or follows
//! the leader of its key. A leader ends with [`CoalescedMemo::complete`], or with
//! [`CoalescedMemo::abandon`] where it is cancelled. A follower then does what
//! [`after_leader`] says. The laws below are about every interleaving of these steps.
//!
//! [`CoalescedMemo::begin`]: crate::deps_dev::memo::CoalescedMemo::begin
//! [`CoalescedMemo::complete`]: crate::deps_dev::memo::CoalescedMemo::complete
//! [`CoalescedMemo::abandon`]: crate::deps_dev::memo::CoalescedMemo::abandon
//! [`after_leader`]: crate::deps_dev::memo::after_leader

use crate::cache_policy::{EntryModel, KeyTexts};
use crate::deps_dev::memo::{
    claims_after_reading, follow_step, memo_entry, memo_stored, reading, CallOutcome, FollowStep,
    LeaderEnd, MemoReading, TtlPolicy, MAX_COALESCE_TAKEOVER_ATTEMPTS,
};
use vstd::prelude::*;

verus! {

/// How the work of a leader stands.
pub enum FlightState<V> {
    /// It goes on.
    Running,
    /// It ended with this outcome.
    Landed(CallOutcome<V>),
    /// It was cancelled.
    Cancelled,
}

/// The work of one leader.
pub struct Flight<V> {
    /// The key that is worked on.
    pub key: KeyTexts,
    /// The call that leads.
    pub leader: int,
    /// How the work stands.
    pub state: FlightState<V>,
}

/// How a call stands.
pub enum CallState<V> {
    /// It is about to read the memo.
    Ready,
    /// It leads the given flight.
    Leading(int),
    /// It waits for the leader of the given flight.
    Following(int),
    /// It has an outcome: of the given flight, or else of the memo.
    Done(CallOutcome<V>, Option<int>),
    /// It used up its attempts.
    GaveUp,
    /// It was cancelled.
    Cancelled,
}

/// One call.
pub struct Call<V> {
    /// The key that is asked for.
    pub key: KeyTexts,
    /// Which attempt it is in.
    pub attempt: u8,
    /// The flights that it followed and that were cancelled, in order.
    pub cancelled: Seq<int>,
    /// How it stands.
    pub state: CallState<V>,
}

/// A coalesced memo with all calls and flights there ever were.
pub struct Traffic<V> {
    /// The memoized outcomes.
    pub memo: Map<KeyTexts, EntryModel<CallOutcome<V>>>,
    /// The keys that someone is working on.
    pub claims: Set<KeyTexts>,
    /// The calls.
    pub calls: Seq<Call<V>>,
    /// The flights.
    pub flights: Seq<Flight<V>>,
}

/// One step of one call.
pub enum TrafficEvent<V> {
    /// A call for a key arrives.
    Arrive(KeyTexts),
    /// A call reads the memo at a time.
    Begin(int, u64),
    /// A leader ends with an outcome at a time.
    Complete(int, CallOutcome<V>, u64),
    /// A call is cancelled.
    Cancel(int),
    /// A follower learns how its leader ended.
    Wake(int),
}

/// How the leader of a flight that is over ended.
pub open spec fn leader_end<V>(state: FlightState<V>) -> LeaderEnd<CallOutcome<V>> {
    match state {
        FlightState::Landed(outcome) => LeaderEnd::Ready(outcome),
        _ => LeaderEnd::Cancelled,
    }
}

/// The calls with call `c` in the given state.
pub open spec fn with_state<V>(calls: Seq<Call<V>>, c: int, state: CallState<V>) -> Seq<Call<V>> {
    calls.update(c, Call { state, ..calls[c] })
}

/// The flights with flight `f` over in the given state.
pub open spec fn with_end<V>(
    flights: Seq<Flight<V>>,
    f: int,
    state: FlightState<V>,
) -> Seq<Flight<V>> {
    flights.update(f, Flight { state, ..flights[f] })
}

/// Whether flight `f` is at work on `key`.
pub open spec fn at_work<V>(t: Traffic<V>, f: int, key: KeyTexts) -> bool {
    0 <= f < t.flights.len() && t.flights[f].key == key && t.flights[f].state is Running
}

/// Whether call `c`, which is ready, reads the memo at `now`.
pub open spec fn begins<V>(before: Traffic<V>, after: Traffic<V>, c: int, now: u64) -> bool {
    let key = before.calls[c].key;
    &&& before.calls[c].state is Ready
    &&& after.memo == before.memo
    &&& after.claims == claims_after_reading(before.memo, before.claims, key, now)
    &&& match reading(before.memo, before.claims, key, now) {
        MemoReading::Hit(outcome) => {
            &&& after.flights == before.flights
            &&& after.calls == with_state(before.calls, c, CallState::Done(outcome, None))
        },
        MemoReading::Lead => {
            &&& after.flights == before.flights.push(
                Flight { key, leader: c, state: FlightState::Running },
            )
            &&& after.calls == with_state(
                before.calls,
                c,
                CallState::Leading(before.flights.len() as int),
            )
        },
        MemoReading::Follow => {
            &&& after.flights == before.flights
            &&& exists|f: int| #[trigger]
                at_work(before, f, key) && after.calls == with_state(
                    before.calls,
                    c,
                    CallState::Following(f),
                )
        },
    }
}

/// Whether call `c`, which leads, ends with `outcome` at `now`.
pub open spec fn completes<V>(
    before: Traffic<V>,
    after: Traffic<V>,
    policy: TtlPolicy,
    c: int,
    outcome: CallOutcome<V>,
    now: u64,
) -> bool {
    let key = before.calls[c].key;
    before.calls[c].state matches CallState::Leading(f) && memo_stored(
        before.memo,
        after.memo,
        key,
        memo_entry(policy, outcome, now),
    ) && after.claims == before.claims.remove(key) && after.flights == with_end(
        before.flights,
        f,
        FlightState::Landed(outcome),
    ) && after.calls == with_state(before.calls, c, CallState::Done(outcome, Some(f)))
}

/// Whether call `c`, which is under way, is cancelled: a leader gives its claim up.
pub open spec fn cancels<V>(before: Traffic<V>, after: Traffic<V>, c: int) -> bool {
    &&& after.memo == before.memo
    &&& after.calls == with_state(before.calls, c, CallState::Cancelled)
    &&& match before.calls[c].state {
        CallState::Leading(f) => {
            &&& after.claims == before.claims.remove(before.calls[c].key)
            &&& after.flights == with_end(before.flights, f, FlightState::Cancelled)
        },
        CallState::Ready | CallState::Following(_) => {
            &&& after.claims == before.claims
            &&& after.flights == before.flights
        },
        _ => false,
    }
}

/// Whether call `c`, which follows a flight that is over, goes on as a follower does.
pub open spec fn wakes<V>(before: Traffic<V>, after: Traffic<V>, c: int) -> bool {
    let call = before.calls[c];
    &&& after.memo == before.memo
    &&& after.claims == before.claims
    &&& after.flights == before.flights
    &&& call.state matches CallState::Following(f) && !(before.flights[f].state is Running)
        && after.calls == before.calls.update(
        c,
        match follow_step(call.attempt, leader_end(before.flights[f].state)) {
            FollowStep::Done(outcome) => Call {
                state: CallState::Done(outcome, Some(f)),
                ..call
            },
            FollowStep::Retry(attempt) => Call {
                attempt,
                cancelled: call.cancelled.push(f),
                state: CallState::Ready,
                ..call
            },
            FollowStep::GiveUp => Call {
                cancelled: call.cancelled.push(f),
                state: CallState::GaveUp,
                ..call
            },
        },
    )
}

/// Whether `event` leads from `before` to `after`.
pub open spec fn traffic_step<V>(
    before: Traffic<V>,
    after: Traffic<V>,
    policy: TtlPolicy,
    event: TrafficEvent<V>,
) -> bool {
    match event {
        TrafficEvent::Arrive(key) => after == (Traffic {
            calls: before.calls.push(
                Call { key, attempt: 0, cancelled: Seq::empty(), state: CallState::Ready },
            ),
            ..before
        }),
        TrafficEvent::Begin(c, now) => 0 <= c < before.calls.len() && begins(
            before,
            after,
            c,
            now,
        ),
        TrafficEvent::Complete(c, outcome, now) => 0 <= c < before.calls.len() && completes(
            before,
            after,
            policy,
            c,
            outcome,
            now,
        ),
        TrafficEvent::Cancel(c) => 0 <= c < before.calls.len() && cancels(before, after, c),
        TrafficEvent::Wake(c) => 0 <= c < before.calls.len() && wakes(before, after, c),
    }
}

/// A new memo: nothing is memoized, and nobody has called.
pub open spec fn no_traffic<V>() -> Traffic<V> {
    Traffic {
        memo: Map::empty(),
        claims: Set::empty(),
        calls: Seq::empty(),
        flights: Seq::empty(),
    }
}

/// Whether the events, one after the other, lead from a new memo through the states.
pub open spec fn is_run<V>(
    states: Seq<Traffic<V>>,
    events: Seq<TrafficEvent<V>>,
    policy: TtlPolicy,
) -> bool {
    &&& states.len() == events.len() + 1
    &&& states[0] == no_traffic::<V>()
    &&& forall|i: int|
        0 <= i < events.len() ==> traffic_step(
            states[i],
            states[i + 1],
            policy,
            #[trigger] events[i],
        )
}

// ---------------------------------------------------------------------------
// What every state keeps
// ---------------------------------------------------------------------------

/// Whether flight `f` ended with `outcome` for `key`.
pub open spec fn landed_with<V>(
    t: Traffic<V>,
    f: int,
    key: KeyTexts,
    outcome: CallOutcome<V>,
) -> bool {
    &&& 0 <= f < t.flights.len()
    &&& t.flights[f].key == key
    &&& t.flights[f].state == FlightState::Landed(outcome)
}

/// Whether flight `f`, led by another call than `c`, was cancelled while at work on `key`.
pub open spec fn cancelled_under<V>(t: Traffic<V>, f: int, key: KeyTexts, c: int) -> bool {
    &&& 0 <= f < t.flights.len()
    &&& t.flights[f].key == key
    &&& t.flights[f].leader != c
    &&& t.flights[f].state is Cancelled
}

/// A flight at work has a leader that leads it and a claim on its key.
pub open spec fn flight_in_order<V>(t: Traffic<V>, f: int) -> bool {
    let flight = t.flights[f];
    flight.state is Running ==> {
        &&& 0 <= flight.leader < t.calls.len()
        &&& t.calls[flight.leader].state == CallState::<V>::Leading(f)
        &&& t.claims.contains(flight.key)
    }
}

/// A call leads its own flight or follows that of another, has its outcome from a flight for its
/// key, and counts the leaders that were cancelled under it.
pub open spec fn call_in_order<V>(t: Traffic<V>, c: int) -> bool {
    let call = t.calls[c];
    &&& call.attempt <= MAX_COALESCE_TAKEOVER_ATTEMPTS
    &&& forall|i: int|
        0 <= i < call.cancelled.len() ==> cancelled_under(
            t,
            #[trigger] call.cancelled[i],
            call.key,
            c,
        )
    &&& call.cancelled.len() == (if call.state is GaveUp {
        MAX_COALESCE_TAKEOVER_ATTEMPTS + 1
    } else {
        call.attempt as int
    })
    &&& match call.state {
        CallState::Leading(f) => at_work(t, f, call.key) && t.flights[f].leader == c,
        CallState::Following(f) => {
            &&& 0 <= f < t.flights.len()
            &&& t.flights[f].key == call.key
            &&& t.flights[f].leader != c
        },
        CallState::Done(outcome, Some(f)) => landed_with(t, f, call.key, outcome),
        CallState::Done(outcome, None) => exists|f: int| #[trigger]
            landed_with(t, f, call.key, outcome),
        _ => true,
    }
}

/// What holds of a memo at any time.
pub open spec fn in_order<V>(t: Traffic<V>) -> bool {
    &&& forall|f: int| 0 <= f < t.flights.len() ==> #[trigger] flight_in_order(t, f)
    &&& forall|c: int| 0 <= c < t.calls.len() ==> #[trigger] call_in_order(t, c)
    &&& forall|key: KeyTexts| #[trigger]
        t.claims.contains(key) ==> exists|f: int| #[trigger] at_work(t, f, key)
    &&& forall|f: int, g: int, key: KeyTexts| #[trigger]
        at_work(t, f, key) && #[trigger] at_work(t, g, key) ==> f == g
    &&& forall|key: KeyTexts| #[trigger]
        t.memo.dom().contains(key) ==> exists|f: int| #[trigger]
            landed_with(t, f, key, t.memo[key].value)
}

/// Whether flights only begin and end: what is over stays as it is.
spec fn goes_on<V>(before: Traffic<V>, after: Traffic<V>) -> bool {
    &&& before.flights.len() <= after.flights.len()
    &&& forall|f: int|
        0 <= f < before.flights.len() ==> {
            &&& (#[trigger] after.flights[f]).key == before.flights[f].key
            &&& after.flights[f].leader == before.flights[f].leader
            &&& !(before.flights[f].state is Running) ==> after.flights[f].state
                == before.flights[f].state
        }
}

proof fn lemma_landed_stays<V>(
    before: Traffic<V>,
    after: Traffic<V>,
    key: KeyTexts,
    outcome: CallOutcome<V>,
)
    requires
        goes_on(before, after),
        exists|f: int| #[trigger] landed_with(before, f, key, outcome),
    ensures
        exists|f: int| #[trigger] landed_with(after, f, key, outcome),
{
    let f = choose|f: int| #[trigger] landed_with(before, f, key, outcome);
    assert(landed_with(after, f, key, outcome));
}

/// A call that a step leaves alone stays in order, unless it leads a flight that ends.
proof fn lemma_call_stays<V>(before: Traffic<V>, after: Traffic<V>, c: int)
    requires
        0 <= c < before.calls.len(),
        c < after.calls.len(),
        goes_on(before, after),
        call_in_order(before, c),
        after.calls[c] == before.calls[c],
        before.calls[c].state matches CallState::Leading(f) ==> after.flights[f].state is Running,
    ensures
        call_in_order(after, c),
{
    let call = before.calls[c];
    assert forall|i: int| 0 <= i < call.cancelled.len() implies cancelled_under(
        after,
        #[trigger] call.cancelled[i],
        call.key,
        c,
    ) by {
        assert(cancelled_under(before, call.cancelled[i], call.key, c));
        assert(after.flights[call.cancelled[i]].key == call.key);
    }
    match call.state {
        CallState::Leading(f) => {
            assert(after.flights[f].key == call.key);
        },
        CallState::Following(f) => {
            assert(after.flights[f].key == call.key);
        },
        CallState::Done(outcome, Some(f)) => {
            assert(after.flights[f].key == call.key);
        },
        CallState::Done(outcome, None) => {
            lemma_landed_stays(before, after, call.key, outcome);
        },
        _ => {},
    }
}

/// What storing an outcome leaves: the new entry, and others as they were.
proof fn lemma_memo_stored<V>(
    before: Map<KeyTexts, EntryModel<CallOutcome<V>>>,
    after: Map<KeyTexts, EntryModel<CallOutcome<V>>>,
    key: KeyTexts,
    entry: EntryModel<CallOutcome<V>>,
    other: KeyTexts,
)
    requires
        memo_stored(before, after, key, entry),
        after.dom().contains(other),
    ensures
        other == key ==> after[other] == entry,
        other != key ==> before.dom().contains(other) && after[other] == before[other],
{
}

proof fn lemma_memo_stays<V>(before: Traffic<V>, after: Traffic<V>)
    requires
        in_order(before),
        goes_on(before, after),
        after.memo == before.memo,
    ensures
        forall|key: KeyTexts| #[trigger]
            after.memo.dom().contains(key) ==> exists|f: int| #[trigger]
                landed_with(after, f, key, after.memo[key].value),
{
    assert forall|key: KeyTexts| #[trigger] after.memo.dom().contains(key) implies exists|f: int|
     #[trigger] landed_with(after, f, key, after.memo[key].value) by {
        assert(before.memo.dom().contains(key));
        lemma_landed_stays(before, after, key, before.memo[key].value);
    }
}

/// A step that changes neither flights nor claims and no leader keeps the flights in order.
proof fn lemma_flights_stay<V>(before: Traffic<V>, after: Traffic<V>)
    requires
        in_order(before),
        after.flights == before.flights,
        after.claims == before.claims,
        before.calls.len() <= after.calls.len(),
        forall|c: int|
            0 <= c < before.calls.len() && (#[trigger] before.calls[c]).state is Leading
                ==> after.calls[c] == before.calls[c],
    ensures
        forall|f: int| 0 <= f < after.flights.len() ==> #[trigger] flight_in_order(after, f),
        forall|key: KeyTexts| #[trigger]
            after.claims.contains(key) ==> exists|f: int| #[trigger] at_work(after, f, key),
        forall|f: int, g: int, key: KeyTexts| #[trigger]
            at_work(after, f, key) && #[trigger] at_work(after, g, key) ==> f == g,
{
    assert forall|f: int| 0 <= f < after.flights.len() implies #[trigger] flight_in_order(
        after,
        f,
    ) by {
        assert(flight_in_order(before, f));
        if before.flights[f].state is Running {
            let leader = before.flights[f].leader;
            assert(before.calls[leader].state is Leading);
        }
    }
    assert forall|key: KeyTexts| #[trigger] after.claims.contains(key) implies exists|f: int|
     #[trigger] at_work(after, f, key) by {
        assert(before.claims.contains(key));
        let f = choose|f: int| #[trigger] at_work(before, f, key);
        assert(at_work(after, f, key));
    }
    assert forall|f: int, g: int, key: KeyTexts| #[trigger] at_work(after, f, key) && #[trigger]
        at_work(after, g, key) implies f == g by {
        assert(at_work(before, f, key));
        assert(at_work(before, g, key));
    }
}

/// A step of a call that neither led before nor leads afterwards, with nothing else changed.
proof fn lemma_quiet_step<V>(before: Traffic<V>, after: Traffic<V>, c: int)
    requires
        in_order(before),
        after.flights == before.flights,
        after.claims == before.claims,
        after.memo == before.memo,
        0 <= c < after.calls.len(),
        before.calls.len() <= after.calls.len() <= before.calls.len() + 1,
        c < before.calls.len() ==> after.calls.len() == before.calls.len()
            && !(before.calls[c].state is Leading),
        c >= before.calls.len() ==> c == before.calls.len(),
        forall|d: int|
            0 <= d < before.calls.len() && d != c ==> #[trigger] after.calls[d] == before.calls[d],
        call_in_order(after, c),
    ensures
        in_order(after),
{
    assert(goes_on(before, after));
    assert forall|d: int|
        0 <= d < before.calls.len() && (#[trigger] before.calls[d]).state is Leading implies
        after.calls[d] == before.calls[d] by {
    }
    lemma_flights_stay(before, after);
    lemma_memo_stays(before, after);
    assert forall|d: int| 0 <= d < after.calls.len() implies #[trigger] call_in_order(
        after,
        d,
    ) by {
        if d != c {
            assert(call_in_order(before, d));
            lemma_call_stays(before, after, d);
        }
    }
}

proof fn lemma_lead_step<V>(before: Traffic<V>, after: Traffic<V>, c: int)
    requires
        in_order(before),
        0 <= c < before.calls.len(),
        before.calls[c].state is Ready,
        !before.claims.contains(before.calls[c].key),
        after.memo == before.memo,
        after.claims == before.claims.insert(before.calls[c].key),
        after.flights == before.flights.push(
            Flight { key: before.calls[c].key, leader: c, state: FlightState::Running },
        ),
        after.calls == with_state(
            before.calls,
            c,
            CallState::Leading(before.flights.len() as int),
        ),
    ensures
        in_order(after),
{
    let key = before.calls[c].key;
    let new = before.flights.len() as int;
    assert(goes_on(before, after));
    lemma_memo_stays(before, after);
    assert forall|f: int| 0 <= f < after.flights.len() implies #[trigger] flight_in_order(
        after,
        f,
    ) by {
        if f < new {
            assert(flight_in_order(before, f));
        }
    }
    assert forall|d: int| 0 <= d < after.calls.len() implies #[trigger] call_in_order(
        after,
        d,
    ) by {
        assert(call_in_order(before, d));
        if d != c {
            lemma_call_stays(before, after, d);
        } else {
            assert(at_work(after, new, key));
            let call = after.calls[c];
            assert forall|i: int| 0 <= i < call.cancelled.len() implies cancelled_under(
                after,
                #[trigger] call.cancelled[i],
                call.key,
                c,
            ) by {
                assert(cancelled_under(before, before.calls[c].cancelled[i], key, c));
            }
        }
    }
    assert forall|k: KeyTexts| #[trigger] after.claims.contains(k) implies exists|f: int| #[trigger]
        at_work(after, f, k) by {
        if k == key {
            assert(at_work(after, new, k));
        } else {
            assert(before.claims.contains(k));
            let f = choose|f: int| #[trigger] at_work(before, f, k);
            assert(at_work(after, f, k));
        }
    }
    assert forall|f: int, g: int, k: KeyTexts| #[trigger] at_work(after, f, k) && #[trigger]
        at_work(after, g, k) implies f == g by {
        if f < new {
            assert(at_work(before, f, k));
            assert(flight_in_order(before, f));
        }
        if g < new {
            assert(at_work(before, g, k));
            assert(flight_in_order(before, g));
        }
    }
}

/// The end of the flight that call `c` leads, whichever way.
proof fn lemma_end_step<V>(
    before: Traffic<V>,
    after: Traffic<V>,
    c: int,
    f: int,
    end: FlightState<V>,
    state: CallState<V>,
)
    requires
        in_order(before),
        0 <= c < before.calls.len(),
        before.calls[c].state == CallState::<V>::Leading(f),
        !(end is Running),
        after.claims == before.claims.remove(before.calls[c].key),
        after.flights == with_end(before.flights, f, end),
        after.calls == with_state(before.calls, c, state),
        state is Cancelled || (end matches FlightState::Landed(outcome) && state
            == CallState::<V>::Done(outcome, Some(f))),
        forall|key: KeyTexts| #[trigger]
            after.memo.dom().contains(key) ==> exists|g: int| #[trigger]
                landed_with(after, g, key, after.memo[key].value),
    ensures
        in_order(after),
{
    let key = before.calls[c].key;
    assert(call_in_order(before, c));
    assert(at_work(before, f, key));
    assert(goes_on(before, after));
    assert forall|g: int| 0 <= g < after.flights.len() implies #[trigger] flight_in_order(
        after,
        g,
    ) by {
        assert(flight_in_order(before, g));
        if g != f && before.flights[g].state is Running {
            if before.flights[g].key == key {
                assert(at_work(before, g, key));
            }
            assert(before.flights[g].leader != c);
        }
    }
    assert forall|d: int| 0 <= d < after.calls.len() implies #[trigger] call_in_order(
        after,
        d,
    ) by {
        assert(call_in_order(before, d));
        if d != c {
            if let CallState::Leading(g) = before.calls[d].state {
                assert(before.flights[g].leader == d);
                assert(g != f);
            }
            lemma_call_stays(before, after, d);
        } else {
            let call = after.calls[c];
            assert forall|i: int| 0 <= i < call.cancelled.len() implies cancelled_under(
                after,
                #[trigger] call.cancelled[i],
                call.key,
                c,
            ) by {
                assert(cancelled_under(before, before.calls[c].cancelled[i], key, c));
            }
            if let FlightState::Landed(outcome) = end {
                assert(landed_with(after, f, key, outcome));
            }
        }
    }
    assert forall|k: KeyTexts| #[trigger] after.claims.contains(k) implies exists|g: int| #[trigger]
        at_work(after, g, k) by {
        assert(before.claims.contains(k));
        let g = choose|g: int| #[trigger] at_work(before, g, k);
        assert(g != f);
        assert(at_work(after, g, k));
    }
    assert forall|g: int, h: int, k: KeyTexts| #[trigger] at_work(after, g, k) && #[trigger]
        at_work(after, h, k) implies g == h by {
        assert(at_work(before, g, k));
        assert(at_work(before, h, k));
    }
}

proof fn lemma_step<V>(
    before: Traffic<V>,
    after: Traffic<V>,
    policy: TtlPolicy,
    event: TrafficEvent<V>,
)
    requires
        in_order(before),
        traffic_step(before, after, policy, event),
    ensures
        in_order(after),
{
    match event {
        TrafficEvent::Arrive(key) => {
            lemma_quiet_step(before, after, before.calls.len() as int);
        },
        TrafficEvent::Begin(c, now) => {
            let key = before.calls[c].key;
            assert(call_in_order(before, c));
            match reading(before.memo, before.claims, key, now) {
                MemoReading::Hit(outcome) => {
                    assert(before.memo.dom().contains(key));
                    assert(exists|f: int| #[trigger] landed_with(before, f, key, outcome));
                    lemma_landed_stays(before, after, key, outcome);
                    lemma_kept_cancelled(before, after, c);
                    lemma_quiet_step(before, after, c);
                },
                MemoReading::Lead => {
                    lemma_lead_step(before, after, c);
                },
                MemoReading::Follow => {
                    let f = choose|f: int| #[trigger]
                        at_work(before, f, key) && after.calls == with_state(
                            before.calls,
                            c,
                            CallState::Following(f),
                        );
                    assert(flight_in_order(before, f));
                    lemma_kept_cancelled(before, after, c);
                    lemma_quiet_step(before, after, c);
                },
            }
        },
        TrafficEvent::Complete(c, outcome, now) => {
            let key = before.calls[c].key;
            let f = before.calls[c].state->Leading_0;
            let entry = memo_entry(policy, outcome, now);
            assert(call_in_order(before, c));
            assert(goes_on(before, after));
            assert(landed_with(after, f, key, outcome));
            assert forall|k: KeyTexts| #[trigger] after.memo.dom().contains(k) implies exists|
                g: int,
            | #[trigger] landed_with(after, g, k, after.memo[k].value) by {
                lemma_memo_stored(before.memo, after.memo, key, entry, k);
                if k != key {
                    assert(before.memo.dom().contains(k));
                    lemma_landed_stays(before, after, k, before.memo[k].value);
                } else {
                    assert(landed_with(after, f, k, after.memo[k].value));
                }
            }
            lemma_end_step(
                before,
                after,
                c,
                f,
                FlightState::Landed(outcome),
                CallState::Done(outcome, Some(f)),
            );
        },
        TrafficEvent::Cancel(c) => {
            assert(call_in_order(before, c));
            match before.calls[c].state {
                CallState::Leading(f) => {
                    assert(goes_on(before, after));
                    lemma_memo_stays(before, after);
                    lemma_end_step(
                        before,
                        after,
                        c,
                        f,
                        FlightState::Cancelled,
                        CallState::Cancelled,
                    );
                },
                _ => {
                    lemma_kept_cancelled(before, after, c);
                    lemma_quiet_step(before, after, c);
                },
            }
        },
        TrafficEvent::Wake(c) => {
            let call = before.calls[c];
            let f = call.state->Following_0;
            assert(call_in_order(before, c));
            assert forall|i: int| 0 <= i < after.calls[c].cancelled.len() implies cancelled_under(
                after,
                #[trigger] after.calls[c].cancelled[i],
                call.key,
                c,
            ) by {
                if i < call.cancelled.len() {
                    assert(cancelled_under(before, call.cancelled[i], call.key, c));
                }
            }
            lemma_quiet_step(before, after, c);
        },
    }
}

proof fn lemma_kept_cancelled<V>(before: Traffic<V>, after: Traffic<V>, c: int)
    requires
        0 <= c < before.calls.len(),
        call_in_order(before, c),
        after.flights == before.flights,
        after.calls.len() == before.calls.len(),
        after.calls[c].cancelled == before.calls[c].cancelled,
        after.calls[c].key == before.calls[c].key,
    ensures
        forall|i: int|
            0 <= i < after.calls[c].cancelled.len() ==> cancelled_under(
                after,
                #[trigger] after.calls[c].cancelled[i],
                after.calls[c].key,
                c,
            ),
{
    assert forall|i: int| 0 <= i < after.calls[c].cancelled.len() implies cancelled_under(
        after,
        #[trigger] after.calls[c].cancelled[i],
        after.calls[c].key,
        c,
    ) by {
        assert(cancelled_under(before, before.calls[c].cancelled[i], before.calls[c].key, c));
    }
}

// ---------------------------------------------------------------------------
// Laws
// ---------------------------------------------------------------------------

/// Whatever the interleaving, the memo stays in order.
pub proof fn law_traffic_stays_in_order<V>(
    states: Seq<Traffic<V>>,
    events: Seq<TrafficEvent<V>>,
    policy: TtlPolicy,
    n: int,
)
    requires
        is_run(states, events, policy),
        0 <= n < states.len(),
    ensures
        in_order(states[n]),
    decreases n,
{
    if n > 0 {
        law_traffic_stays_in_order(states, events, policy, n - 1);
        assert(traffic_step(states[n - 1], states[n - 1 + 1], policy, events[n - 1]));
        lemma_step(states[n - 1], states[n], policy, events[n - 1]);
    }
}

/// A call ends with what a leader for its key brought: with the outcome of the flight that it led
/// itself or followed, or with one that a flight for its key left in the memo. It gives up only
/// after one more leader than it may take over from was cancelled under it.
pub proof fn law_calls_end_with_a_leaders_outcome<V>(
    states: Seq<Traffic<V>>,
    events: Seq<TrafficEvent<V>>,
    policy: TtlPolicy,
    n: int,
    c: int,
)
    requires
        is_run(states, events, policy),
        0 <= n < states.len(),
        0 <= c < states[n].calls.len(),
    ensures
        ({
            let t = states[n];
            let call = t.calls[c];
            match call.state {
                CallState::Done(outcome, Some(f)) => landed_with(t, f, call.key, outcome),
                CallState::Done(outcome, None) => exists|f: int| #[trigger]
                    landed_with(t, f, call.key, outcome),
                CallState::GaveUp => {
                    &&& call.cancelled.len() == MAX_COALESCE_TAKEOVER_ATTEMPTS + 1
                    &&& forall|i: int|
                        0 <= i < call.cancelled.len() ==> cancelled_under(
                            t,
                            #[trigger] call.cancelled[i],
                            call.key,
                            c,
                        )
                },
                _ => true,
            }
        }),
{
    law_traffic_stays_in_order(states, events, policy, n);
    assert(call_in_order(states[n], c));
}

/// A key is claimed exactly while a call leads on it, and one call at a time does: a leader that
/// ended, or was cancelled, has left no claim behind.
pub proof fn law_claims_end_with_their_leaders<V>(
    states: Seq<Traffic<V>>,
    events: Seq<TrafficEvent<V>>,
    policy: TtlPolicy,
    n: int,
    key: KeyTexts,
)
    requires
        is_run(states, events, policy),
        0 <= n < states.len(),
    ensures
        states[n].claims.contains(key) <==> exists|c: int| #[trigger] leads(states[n], c, key),
        forall|c: int, d: int| #[trigger]
            leads(states[n], c, key) && #[trigger] leads(states[n], d, key) ==> c == d,
{
    let t = states[n];
    law_traffic_stays_in_order(states, events, policy, n);
    if t.claims.contains(key) {
        let f = choose|f: int| #[trigger] at_work(t, f, key);
        assert(flight_in_order(t, f));
        let c = t.flights[f].leader;
        assert(call_in_order(t, c));
        assert(leads(t, c, key));
    }
    if exists|c: int| #[trigger] leads(t, c, key) {
        let c = choose|c: int| #[trigger] leads(t, c, key);
        assert(call_in_order(t, c));
        assert(flight_in_order(t, t.calls[c].state->Leading_0));
    }
    assert forall|c: int, d: int| #[trigger] leads(t, c, key) && #[trigger] leads(
        t,
        d,
        key,
    ) implies c == d by {
        assert(call_in_order(t, c));
        assert(call_in_order(t, d));
        assert(at_work(t, t.calls[c].state->Leading_0, key));
        assert(at_work(t, t.calls[d].state->Leading_0, key));
    }
}

/// Whether call `c` leads on `key`.
pub open spec fn leads<V>(t: Traffic<V>, c: int, key: KeyTexts) -> bool {
    0 <= c < t.calls.len() && t.calls[c].key == key && t.calls[c].state is Leading
}

/// A follower whose leader ended takes the leader's outcome. One whose leader was cancelled, with
/// an attempt left, reads the memo again; where there is no trusted outcome and nobody else leads,
/// it takes over.
pub proof fn law_followers_take_over<V>(
    t: Traffic<V>,
    woken: Traffic<V>,
    begun: Traffic<V>,
    policy: TtlPolicy,
    c: int,
    f: int,
    now: u64,
)
    requires
        0 <= c < t.calls.len(),
        t.calls[c].state == CallState::<V>::Following(f),
        traffic_step(t, woken, policy, TrafficEvent::Wake(c)),
    ensures
        t.flights[f].state matches FlightState::Landed(outcome) ==> woken.calls[c].state
            == CallState::<V>::Done(outcome, Some(f)),
        t.flights[f].state is Cancelled && t.calls[c].attempt < MAX_COALESCE_TAKEOVER_ATTEMPTS
            ==> woken.calls[c].state is Ready,
        t.flights[f].state is Cancelled && t.calls[c].attempt < MAX_COALESCE_TAKEOVER_ATTEMPTS
            && traffic_step(woken, begun, policy, TrafficEvent::Begin(c, now)) && reading(
            woken.memo,
            woken.claims,
            t.calls[c].key,
            now,
        ) is Lead ==> leads(begun, c, t.calls[c].key),
{
}

} // verus!
