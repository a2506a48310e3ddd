//! The state of a deps.dev client: its memos and the claims on work in progress.

use crate::cache_policy::{expired, made_room, EntryModel, ExpiringMap, KeyTexts};
use crate::deps_dev::gossip::{
    batch_outcome, option_findings, GossipResults, GOSSIP_REFRESH_BACKOFF,
};
use crate::deps_dev::memo::{
    deps_dev_ttls, fresh_outcome, gossip_ttls, memo_entry, memo_stored, CallOutcome, ClaimSet,
    CoalescedMemo, FetchCompleteness, MemoStep, TtlMemo, TtlPolicy, DEPS_DEV_ERROR_TTL,
    DEPS_DEV_SUCCESS_TTL, GOSSIP_ERROR_TTL, GOSSIP_SUCCESS_TTL, MAX_MEMO_ENTRIES,
};
use crate::deps_dev::project::{law_path_segments_are_distinct, path_segment, DepsDevSystem};
use crate::deps_dev::requests::DEPS_DEV_API;
use crate::deps_dev::types::{FindingsModel, GossipFindings, SupplyChainTrustSignal};
use crate::deps_dev::typosquat::SimilarPackageCandidate;
use crate::index::copy_key;
use crate::text::string_texts;
use vstd::prelude::*;

verus! {

/// Memoized outcomes by key.
pub type MemoModel<V> = Map<KeyTexts, EntryModel<CallOutcome<V>>>;

/// The memo key of a package: which API, which system, which name. Its parts are kept apart, so
/// that no name can be taken for another.
pub open spec fn package_key(base: Seq<char>, system: DepsDevSystem, name: Seq<char>) -> KeyTexts {
    seq![base, path_segment(system), name]
}

/// The memo key of a version.
pub open spec fn version_key(
    base: Seq<char>,
    system: DepsDevSystem,
    name: Seq<char>,
    version: Seq<char>,
) -> KeyTexts {
    seq![base, path_segment(system), name, version]
}

/// The memo key of a project.
pub open spec fn project_memo_key(base: Seq<char>, key: Seq<char>) -> KeyTexts {
    seq![base, key]
}

fn package_key_of(base: &String, system: DepsDevSystem, name: &str) -> (r: Vec<String>)
    ensures
        string_texts(r@) == package_key(base@, system, name@),
{
    let mut key: Vec<String> = Vec::new();
    key.push(base.clone());
    key.push(system.as_path_segment().to_owned());
    key.push(name.to_owned());
    proof {
        assert(string_texts(key@) =~= package_key(base@, system, name@));
    }
    key
}

fn version_key_of(base: &String, system: DepsDevSystem, name: &str, version: &str) -> (r: Vec<
    String,
>)
    ensures
        string_texts(r@) == version_key(base@, system, name@, version@),
{
    let mut key = package_key_of(base, system, name);
    let ghost before = key@;
    key.push(version.to_owned());
    proof {
        assert(string_texts(key@) =~= string_texts(before).push(version@));
        assert(string_texts(key@) =~= version_key(base@, system, name@, version@));
    }
    key
}

fn project_key_of(base: &String, project_key: &str) -> (r: Vec<String>)
    ensures
        string_texts(r@) == project_memo_key(base@, project_key@),
{
    let mut key: Vec<String> = Vec::new();
    key.push(base.clone());
    key.push(project_key.to_owned());
    proof {
        assert(string_texts(key@) =~= project_memo_key(base@, project_key@));
    }
    key
}

/// The state of a deps.dev client. `S` is the type of a Scorecard score.
///
/// Every failure degrades to "no signal", which is remembered for a short while; nothing is ever
/// reported as an error.
pub struct DepsDevClient<S> {
    base_url: String,
    trusted_origin: String,
    signals: CoalescedMemo<Option<SupplyChainTrustSignal<S>>>,
    projects: TtlMemo<Option<S>>,
    similarity: CoalescedMemo<Vec<SimilarPackageCandidate>>,
    popularity: CoalescedMemo<Option<u64>>,
    gossip: TtlMemo<Option<GossipFindings>>,
    gossip_in_flight: ClaimSet,
    gossip_versions: TtlMemo<Option<GossipFindings>>,
    gossip_version_in_flight: ClaimSet,
    gossip_last_refresh_attempt: ExpiringMap<()>,
    gossip_refresh_in_flight: ClaimSet,
}

/// Everything that a client remembers.
pub struct ClientModel<S> {
    /// The API that requests are built against.
    pub base: Seq<char>,
    /// The memoized trust signals.
    pub signals: MemoModel<Option<SupplyChainTrustSignal<S>>>,
    /// The trust signals being fetched.
    pub signal_claims: Set<KeyTexts>,
    /// The policy of the trust signals.
    pub signal_policy: TtlPolicy,
    /// The memoized scores.
    pub scores: MemoModel<Option<S>>,
    /// The policy of the scores.
    pub score_policy: TtlPolicy,
    /// The memoized similar packages.
    pub similarity: MemoModel<Vec<SimilarPackageCandidate>>,
    /// The packages whose like-named packages are being searched.
    pub similarity_claims: Set<KeyTexts>,
    /// The policy of the similar packages.
    pub similarity_policy: TtlPolicy,
    /// The memoized popularities.
    pub popularity: MemoModel<Option<u64>>,
    /// The packages whose popularity is being looked up.
    pub popularity_claims: Set<KeyTexts>,
    /// The policy of the popularities.
    pub popularity_policy: TtlPolicy,
    /// The memoized findings, by package.
    pub gossip: MemoModel<Option<GossipFindings>>,
    /// The packages being asked for in a batch.
    pub gossip_claims: Set<KeyTexts>,
    /// The policy of the findings by package.
    pub gossip_policy: TtlPolicy,
    /// The memoized findings, by version.
    pub versions: MemoModel<Option<GossipFindings>>,
    /// The versions being asked for.
    pub version_claims: Set<KeyTexts>,
    /// The policy of the findings by version.
    pub version_policy: TtlPolicy,
    /// The state of the forced refreshes.
    pub refreshes: RefreshModel,
}

/// Whether nothing is remembered and nobody is at work.
pub open spec fn nothing_remembered<S>(m: ClientModel<S>) -> bool {
    &&& m.signals == MemoModel::<Option<SupplyChainTrustSignal<S>>>::empty()
    &&& m.signal_claims == Set::<KeyTexts>::empty()
    &&& m.scores == MemoModel::<Option<S>>::empty()
    &&& m.similarity == MemoModel::<Vec<SimilarPackageCandidate>>::empty()
    &&& m.similarity_claims == Set::<KeyTexts>::empty()
    &&& m.popularity == MemoModel::<Option<u64>>::empty()
    &&& m.popularity_claims == Set::<KeyTexts>::empty()
    &&& m.gossip == MemoModel::<Option<GossipFindings>>::empty()
    &&& m.gossip_claims == Set::<KeyTexts>::empty()
    &&& m.versions == MemoModel::<Option<GossipFindings>>::empty()
    &&& m.version_claims == Set::<KeyTexts>::empty()
    &&& m.refreshes == (RefreshModel { attempts: Map::empty(), claims: Set::empty() })
}

/// What a reading of a version's findings comes to.
pub enum VersionFindingsStep<'a> {
    /// A trusted outcome is at hand.
    Hit(&'a Option<GossipFindings>),
    /// Someone else is asking: there is nothing to report for now.
    Busy,
    /// The caller holds the claim and is to ask.
    Ask,
}

/// Whether `p` is the policy of the plain calls.
pub open spec fn is_deps_dev_policy(p: TtlPolicy) -> bool {
    p.ttl(FetchCompleteness::Complete) == DEPS_DEV_SUCCESS_TTL && p.ttl(
        FetchCompleteness::Incomplete,
    ) == DEPS_DEV_ERROR_TTL
}

/// Whether `p` is the policy of the GOSSIP calls.
pub open spec fn is_gossip_policy(p: TtlPolicy) -> bool {
    p.ttl(FetchCompleteness::Complete) == GOSSIP_SUCCESS_TTL && p.ttl(
        FetchCompleteness::Incomplete,
    ) == GOSSIP_ERROR_TTL
}

// ---------------------------------------------------------------------------
// Batches: what is at hand, what is to be asked
// ---------------------------------------------------------------------------

/// The findings at hand for the given names, in order: those with a trusted outcome that has
/// findings.
pub open spec fn batch_hits(
    memo: MemoModel<Option<GossipFindings>>,
    base: Seq<char>,
    system: DepsDevSystem,
    names: Seq<String>,
    now: u64,
) -> Seq<(Seq<char>, FindingsModel)>
    decreases names.len(),
{
    if names.len() == 0 {
        Seq::empty()
    } else {
        let before = batch_hits(memo, base, system, names.drop_last(), now);
        let name = names.last()@;
        match fresh_outcome(memo, package_key(base, system, name), now) {
            Some(outcome) => match outcome.value() {
                Some(findings) => before.push((name, findings@)),
                None => before,
            },
            None => before,
        }
    }
}

/// The names to ask for, in order, and the claims once they are taken: the names without a
/// trusted outcome that nobody has claimed.
pub open spec fn batch_claims(
    memo: MemoModel<Option<GossipFindings>>,
    claims: Set<KeyTexts>,
    base: Seq<char>,
    system: DepsDevSystem,
    names: Seq<String>,
    now: u64,
) -> (Seq<Seq<char>>, Set<KeyTexts>)
    decreases names.len(),
{
    if names.len() == 0 {
        (Seq::empty(), claims)
    } else {
        let (taken, held) = batch_claims(memo, claims, base, system, names.drop_last(), now);
        let name = names.last()@;
        let key = package_key(base, system, name);
        if fresh_outcome(memo, key, now) is None && !held.contains(key) {
            (taken.push(name), held.insert(key))
        } else {
            (taken, held)
        }
    }
}

/// The names and findings of a list of pairs.
pub open spec fn finding_pairs(v: Seq<(String, GossipFindings)>) -> Seq<
    (Seq<char>, FindingsModel),
> {
    v.map_values(|p: (String, GossipFindings)| (p.0@, p.1@))
}

/// What a plan for a batch holds.
pub struct GossipPlan {
    /// The findings that are at hand.
    pub ready: Vec<(String, GossipFindings)>,
    /// The names to ask for, which the caller has claimed.
    pub claimed: Vec<String>,
}

/// The answers to the claimed names, in order: those with findings.
pub open spec fn answered(
    results: Map<Seq<char>, Option<FindingsModel>>,
    names: Seq<String>,
) -> Seq<(Seq<char>, FindingsModel)>
    decreases names.len(),
{
    if names.len() == 0 {
        Seq::empty()
    } else {
        let before = answered(results, names.drop_last());
        let name = names.last()@;
        if results.dom().contains(name) && results[name] is Some {
            before.push((name, results[name]->0))
        } else {
            before
        }
    }
}

/// Whether `outcome` is what is kept for `name`: definitive where it was answered.
pub open spec fn kept_outcome(
    results: Map<Seq<char>, Option<FindingsModel>>,
    name: Seq<char>,
    outcome: CallOutcome<Option<GossipFindings>>,
) -> bool {
    &&& outcome is Definitive == results.dom().contains(name)
    &&& option_findings(outcome.value()) == (if results.dom().contains(name) {
        results[name]
    } else {
        None
    })
}

/// Whether `after` is `before` once `outcome`, the one to keep for `name`, was stored under `key`.
pub open spec fn outcome_stored(
    before: MemoModel<Option<GossipFindings>>,
    after: MemoModel<Option<GossipFindings>>,
    policy: TtlPolicy,
    results: Map<Seq<char>, Option<FindingsModel>>,
    key: KeyTexts,
    name: Seq<char>,
    outcome: CallOutcome<Option<GossipFindings>>,
    now: u64,
) -> bool {
    kept_outcome(results, name, outcome) && memo_stored(
        before,
        after,
        key,
        memo_entry(policy, outcome, now),
    )
}

/// Whether `after` is `before` once the outcomes of the names were stored, one after the other.
pub open spec fn batch_stored(
    before: MemoModel<Option<GossipFindings>>,
    after: MemoModel<Option<GossipFindings>>,
    policy: TtlPolicy,
    results: Map<Seq<char>, Option<FindingsModel>>,
    base: Seq<char>,
    system: DepsDevSystem,
    names: Seq<String>,
    now: u64,
) -> bool
    decreases names.len(),
{
    if names.len() == 0 {
        after == before
    } else {
        exists|
            mid: MemoModel<Option<GossipFindings>>,
            outcome: CallOutcome<Option<GossipFindings>>,
        |
            batch_stored(before, mid, policy, results, base, system, names.drop_last(), now)
                && #[trigger] outcome_stored(
                mid,
                after,
                policy,
                results,
                package_key(base, system, names.last()@),
                names.last()@,
                outcome,
                now,
            )
    }
}

proof fn lemma_batch_stored_step(
    before: MemoModel<Option<GossipFindings>>,
    mid: MemoModel<Option<GossipFindings>>,
    after: MemoModel<Option<GossipFindings>>,
    policy: TtlPolicy,
    results: Map<Seq<char>, Option<FindingsModel>>,
    base: Seq<char>,
    system: DepsDevSystem,
    names: Seq<String>,
    now: u64,
    outcome: CallOutcome<Option<GossipFindings>>,
)
    requires
        names.len() > 0,
        batch_stored(before, mid, policy, results, base, system, names.drop_last(), now),
        kept_outcome(results, names.last()@, outcome),
        memo_stored(
            mid,
            after,
            package_key(base, system, names.last()@),
            memo_entry(policy, outcome, now),
        ),
    ensures
        batch_stored(before, after, policy, results, base, system, names, now),
{
    assert(outcome_stored(
        mid,
        after,
        policy,
        results,
        package_key(base, system, names.last()@),
        names.last()@,
        outcome,
        now,
    ));
}

/// The claims once the keys of the names are released.
pub open spec fn released(
    claims: Set<KeyTexts>,
    base: Seq<char>,
    system: DepsDevSystem,
    names: Seq<String>,
) -> Set<KeyTexts>
    decreases names.len(),
{
    if names.len() == 0 {
        claims
    } else {
        released(claims, base, system, names.drop_last()).remove(
            package_key(base, system, names.last()@),
        )
    }
}

/// The memo once the entries of the names are dropped.
pub open spec fn dropped<V>(
    memo: MemoModel<V>,
    base: Seq<char>,
    system: DepsDevSystem,
    names: Seq<Seq<char>>,
) -> MemoModel<V>
    decreases names.len(),
{
    if names.len() == 0 {
        memo
    } else {
        dropped(memo, base, system, names.drop_last()).remove(
            package_key(base, system, names.last()),
        )
    }
}

// ---------------------------------------------------------------------------
// Forced refreshes
// ---------------------------------------------------------------------------

/// The attempts to refresh, by package, and the claims on refreshes in progress.
pub struct RefreshModel {
    /// When each package was last refreshed.
    pub attempts: Map<KeyTexts, EntryModel<()>>,
    /// The packages being refreshed.
    pub claims: Set<KeyTexts>,
}

/// Whether a package may be refreshed at `now`: nobody is at it, and its last attempt does not
/// lie within the backoff.
pub open spec fn refreshable(st: RefreshModel, key: KeyTexts, now: u64) -> bool {
    &&& !st.claims.contains(key)
    &&& !(st.attempts.dom().contains(key) && !expired(st.attempts[key], now))
}

/// Whether considering one package leads from `before` to `after`: a refreshable one is claimed
/// and its attempt is recorded, any other changes nothing.
pub open spec fn refresh_considered(
    before: RefreshModel,
    after: RefreshModel,
    key: KeyTexts,
    now: u64,
) -> bool {
    if refreshable(before, key, now) {
        &&& after.claims == before.claims.insert(key)
        &&& exists|room: Map<KeyTexts, EntryModel<()>>|
            (if before.attempts.dom().contains(key) {
                room == before.attempts
            } else {
                made_room(before.attempts, room, MAX_MEMO_ENTRIES as nat, now)
            }) && after.attempts == #[trigger] room.insert(
                key,
                EntryModel { fetched_at: now, ttl: GOSSIP_REFRESH_BACKOFF, value: () },
            )
    } else {
        after == before
    }
}

/// Whether considering `name` leads from `before` to `after`, and from the names `earlier` that
/// were taken before to `taken`.
pub open spec fn name_considered(
    before: RefreshModel,
    after: RefreshModel,
    key: KeyTexts,
    name: Seq<char>,
    now: u64,
    earlier: Seq<Seq<char>>,
    taken: Seq<Seq<char>>,
) -> bool {
    refresh_considered(before, after, key, now) && taken == (if refreshable(before, key, now) {
        earlier.push(name)
    } else {
        earlier
    })
}

/// Whether considering the names in order leads from `before` to `after` with the names `taken`.
pub open spec fn refresh_run(
    before: RefreshModel,
    after: RefreshModel,
    base: Seq<char>,
    system: DepsDevSystem,
    names: Seq<String>,
    now: u64,
    taken: Seq<Seq<char>>,
) -> bool
    decreases names.len(),
{
    if names.len() == 0 {
        after == before && taken.len() == 0
    } else {
        let name = names.last()@;
        let key = package_key(base, system, name);
        exists|mid: RefreshModel, earlier: Seq<Seq<char>>|
            refresh_run(before, mid, base, system, names.drop_last(), now, earlier)
                && #[trigger] name_considered(mid, after, key, name, now, earlier, taken)
    }
}

proof fn lemma_refresh_run_step(
    before: RefreshModel,
    mid: RefreshModel,
    after: RefreshModel,
    base: Seq<char>,
    system: DepsDevSystem,
    names: Seq<String>,
    now: u64,
    earlier: Seq<Seq<char>>,
)
    requires
        names.len() > 0,
        refresh_run(before, mid, base, system, names.drop_last(), now, earlier),
        refresh_considered(mid, after, package_key(base, system, names.last()@), now),
    ensures
        refresh_run(
            before,
            after,
            base,
            system,
            names,
            now,
            if refreshable(mid, package_key(base, system, names.last()@), now) {
                earlier.push(names.last()@)
            } else {
                earlier
            },
        ),
{
    let name = names.last()@;
    let key = package_key(base, system, name);
    let taken = if refreshable(mid, key, now) {
        earlier.push(name)
    } else {
        earlier
    };
    assert(name_considered(mid, after, key, name, now, earlier, taken));
}

impl<S: Copy> DepsDevClient<S> {
    /// The API that requests are built against.
    pub closed spec fn base(&self) -> Seq<char> {
        self.base_url@
    }

    /// The memoized trust signals.
    pub closed spec fn signal_memo(&self) -> MemoModel<Option<SupplyChainTrustSignal<S>>> {
        self.signals.memo()
    }

    /// The trust signals being fetched.
    pub closed spec fn signal_claims(&self) -> Set<KeyTexts> {
        self.signals.claims()
    }

    /// The policy of the trust signals.
    pub closed spec fn signal_policy(&self) -> TtlPolicy {
        self.signals.policy()
    }

    /// The memoized scores, by project. Only the score is kept, never how a package is related
    /// to the project.
    pub closed spec fn score_memo(&self) -> MemoModel<Option<S>> {
        self.projects@
    }

    /// The policy of the scores.
    pub closed spec fn score_policy(&self) -> TtlPolicy {
        self.projects.policy()
    }

    /// The memoized similar packages.
    pub closed spec fn similarity_memo(&self) -> MemoModel<Vec<SimilarPackageCandidate>> {
        self.similarity.memo()
    }

    /// The packages whose like-named packages are being searched.
    pub closed spec fn similarity_claims(&self) -> Set<KeyTexts> {
        self.similarity.claims()
    }

    /// The policy of the similar packages.
    pub closed spec fn similarity_policy(&self) -> TtlPolicy {
        self.similarity.policy()
    }

    /// The memoized popularities.
    pub closed spec fn popularity_memo(&self) -> MemoModel<Option<u64>> {
        self.popularity.memo()
    }

    /// The packages whose popularity is being looked up.
    pub closed spec fn popularity_claims(&self) -> Set<KeyTexts> {
        self.popularity.claims()
    }

    /// The policy of the popularities.
    pub closed spec fn popularity_policy(&self) -> TtlPolicy {
        self.popularity.policy()
    }

    /// The memoized findings, by package.
    pub closed spec fn gossip_memo(&self) -> MemoModel<Option<GossipFindings>> {
        self.gossip@
    }

    /// The policy of the findings.
    pub closed spec fn gossip_policy(&self) -> TtlPolicy {
        self.gossip.policy()
    }

    /// The packages being asked for in a batch.
    pub closed spec fn gossip_claims(&self) -> Set<KeyTexts> {
        self.gossip_in_flight@
    }

    /// The memoized findings, by version.
    pub closed spec fn version_memo(&self) -> MemoModel<Option<GossipFindings>> {
        self.gossip_versions@
    }

    /// The versions being asked for.
    pub closed spec fn version_claims(&self) -> Set<KeyTexts> {
        self.gossip_version_in_flight@
    }

    /// The policy of the findings by version.
    pub closed spec fn version_policy(&self) -> TtlPolicy {
        self.gossip_versions.policy()
    }

    /// The state of the forced refreshes.
    pub closed spec fn refreshes(&self) -> RefreshModel {
        RefreshModel {
            attempts: self.gossip_last_refresh_attempt@,
            claims: self.gossip_refresh_in_flight@,
        }
    }

    /// Everything that the client remembers.
    pub open spec fn model(&self) -> ClientModel<S> {
        ClientModel {
            base: self.base(),
            signals: self.signal_memo(),
            signal_claims: self.signal_claims(),
            signal_policy: self.signal_policy(),
            scores: self.score_memo(),
            score_policy: self.score_policy(),
            similarity: self.similarity_memo(),
            similarity_claims: self.similarity_claims(),
            similarity_policy: self.similarity_policy(),
            popularity: self.popularity_memo(),
            popularity_claims: self.popularity_claims(),
            popularity_policy: self.popularity_policy(),
            gossip: self.gossip_memo(),
            gossip_claims: self.gossip_claims(),
            gossip_policy: self.gossip_policy(),
            versions: self.version_memo(),
            version_claims: self.version_claims(),
            version_policy: self.version_policy(),
            refreshes: self.refreshes(),
        }
    }

    /// Every memo is in order and within its bound, and governed by its policy.
    pub closed spec fn wf(&self) -> bool {
        &&& self.trusted_origin@ == self.base_url@ + "/"@
        &&& self.signals.wf()
        &&& self.projects.wf()
        &&& self.similarity.wf()
        &&& self.popularity.wf()
        &&& self.gossip.wf()
        &&& self.gossip_versions.wf()
        &&& self.gossip_last_refresh_attempt.wf()
        &&& self.gossip_last_refresh_attempt.count() <= MAX_MEMO_ENTRIES
        &&& is_deps_dev_policy(self.signals.policy())
        &&& is_deps_dev_policy(self.projects.policy())
        &&& is_deps_dev_policy(self.similarity.policy())
        &&& is_deps_dev_policy(self.popularity.policy())
        &&& is_gossip_policy(self.gossip.policy())
        &&& is_gossip_policy(self.gossip_versions.policy())
    }

    /// A client for the deps.dev API, with nothing memoized.
    #[must_use]
    pub fn new() -> (r: Self)
        ensures
            r.wf(),
            r.base() == DEPS_DEV_API@,
            nothing_remembered(r.model()),
    {
        DepsDevClient::for_test(DEPS_DEV_API)
    }

    /// A client for the API at `base_url`, with nothing memoized.
    #[must_use]
    pub fn for_test(base_url: &str) -> (r: Self)
        ensures
            r.wf(),
            r.base() == base_url@,
            nothing_remembered(r.model()),
    {
        let mut trusted_origin = base_url.to_owned();
        trusted_origin.append("/");
        DepsDevClient {
            base_url: base_url.to_owned(),
            trusted_origin,
            signals: CoalescedMemo::new(deps_dev_ttls()),
            projects: TtlMemo::new(deps_dev_ttls()),
            similarity: CoalescedMemo::new(deps_dev_ttls()),
            popularity: CoalescedMemo::new(deps_dev_ttls()),
            gossip: TtlMemo::new(gossip_ttls()),
            gossip_in_flight: ClaimSet::new(),
            gossip_versions: TtlMemo::new(gossip_ttls()),
            gossip_version_in_flight: ClaimSet::new(),
            gossip_last_refresh_attempt: ExpiringMap::new(),
            gossip_refresh_in_flight: ClaimSet::new(),
        }
    }

    /// The API that requests are built against.
    pub fn base_url(&self) -> (r: &str)
        ensures
            r@ == self.base(),
    {
        self.base_url.as_str()
    }

    /// The origin that every redirect must stay under.
    pub fn trusted_origin(&self) -> (r: &str)
        requires
            self.wf(),
        ensures
            r@ == self.base() + "/"@,
    {
        self.trusted_origin.as_str()
    }

    // -----------------------------------------------------------------------
    // Trust signals
    // -----------------------------------------------------------------------

    /// Reads the trust signal of a version: a trusted outcome if there is one, else the caller
    /// fetches it or waits for whoever does.
    pub fn trust_signal(
        &mut self,
        system: DepsDevSystem,
        name: &str,
        version: &str,
        now: u64,
    ) -> (r: MemoStep<'_, Option<SupplyChainTrustSignal<S>>>)
        requires
            old(self).wf(),
        ensures
            final(self).wf(),
            final(self).model() == (ClientModel {
                signal_claims: final(self).signal_claims(),
                ..old(self).model()
            }),
            ({
                let key = version_key(old(self).base(), system, name@, version@);
                let fresh = fresh_outcome(old(self).signal_memo(), key, now);
                match r {
                    MemoStep::Hit(outcome) => fresh == Some(*outcome)
                        && final(self).signal_claims() == old(self).signal_claims(),
                    MemoStep::Lead => fresh is None && !old(self).signal_claims().contains(key)
                        && final(self).signal_claims() == old(self).signal_claims().insert(key),
                    MemoStep::Follow => fresh is None && old(self).signal_claims().contains(key)
                        && final(self).signal_claims() == old(self).signal_claims(),
                }
            }),
    {
        let key = version_key_of(&self.base_url, system, name, version);
        self.signals.begin(&key, now)
    }

    /// Ends the fetch of a trust signal: the outcome is kept, or, where there is none, only the
    /// claim is given up.
    pub fn finish_trust_signal(
        &mut self,
        system: DepsDevSystem,
        name: &str,
        version: &str,
        outcome: Option<CallOutcome<Option<SupplyChainTrustSignal<S>>>>,
        now: u64,
    )
        requires
            old(self).wf(),
        ensures
            final(self).wf(),
            final(self).model() == (ClientModel {
                signals: final(self).signal_memo(),
                signal_claims: final(self).signal_claims(),
                ..old(self).model()
            }),
            ({
                let key = version_key(old(self).base(), system, name@, version@);
                &&& final(self).signal_claims() == old(self).signal_claims().remove(key)
                &&& match outcome {
                    Some(outcome) => memo_stored(
                        old(self).signal_memo(),
                        final(self).signal_memo(),
                        key,
                        memo_entry(old(self).signal_policy(), outcome, now),
                    ),
                    None => final(self).signal_memo() == old(self).signal_memo(),
                }
            }),
    {
        let key = version_key_of(&self.base_url, system, name, version);
        match outcome {
            Some(outcome) => {
                self.signals.complete(&key, outcome, now);
            },
            None => {
                self.signals.abandon(&key);
            },
        }
    }

    /// How many trust signals are memoized.
    pub fn signal_count(&self) -> (r: usize)
        requires
            self.wf(),
        ensures
            r == self.signal_memo().dom().len(),
            r <= MAX_MEMO_ENTRIES,
    {
        self.signals.len()
    }

    /// The score of a project that is still trusted at `now`.
    pub fn known_score(&self, project_key: &str, now: u64) -> (r: Option<CallOutcome<Option<S>>>)
        requires
            self.wf(),
        ensures
            r == fresh_outcome(
                self.score_memo(),
                project_memo_key(self.base(), project_key@),
                now,
            ),
    {
        let key = project_key_of(&self.base_url, project_key);
        match self.projects.get_fresh(&key, now) {
            None => None,
            Some(CallOutcome::Definitive(score)) => Some(CallOutcome::Definitive(*score)),
            Some(CallOutcome::Degraded(score)) => Some(CallOutcome::Degraded(*score)),
        }
    }

    /// Keeps the score of a project.
    pub fn keep_score(&mut self, project_key: &str, outcome: CallOutcome<Option<S>>, now: u64)
        requires
            old(self).wf(),
        ensures
            final(self).wf(),
            final(self).model() == (ClientModel {
                scores: final(self).score_memo(),
                ..old(self).model()
            }),
            memo_stored(
                old(self).score_memo(),
                final(self).score_memo(),
                project_memo_key(old(self).base(), project_key@),
                memo_entry(old(self).score_policy(), outcome, now),
            ),
    {
        let key = project_key_of(&self.base_url, project_key);
        self.projects.insert(key, outcome, now);
    }

    /// How many scores are memoized.
    pub fn score_count(&self) -> (r: usize)
        requires
            self.wf(),
        ensures
            r == self.score_memo().dom().len(),
            r <= MAX_MEMO_ENTRIES,
    {
        self.projects.len()
    }

    // -----------------------------------------------------------------------
    // Similar packages and popularity
    // -----------------------------------------------------------------------

    /// Reads the packages named like `name`.
    pub fn similar_packages(&mut self, system: DepsDevSystem, name: &str, now: u64) -> (r: MemoStep<
        '_,
        Vec<SimilarPackageCandidate>,
    >)
        requires
            old(self).wf(),
        ensures
            final(self).wf(),
            final(self).model() == (ClientModel {
                similarity_claims: final(self).similarity_claims(),
                ..old(self).model()
            }),
            ({
                let key = package_key(old(self).base(), system, name@);
                let fresh = fresh_outcome(old(self).similarity_memo(), key, now);
                match r {
                    MemoStep::Hit(outcome) => fresh == Some(*outcome)
                        && final(self).similarity_claims() == old(self).similarity_claims(),
                    MemoStep::Lead => fresh is None && !old(self).similarity_claims().contains(key)
                        && final(self).similarity_claims() == old(self).similarity_claims().insert(key),
                    MemoStep::Follow => fresh is None && old(self).similarity_claims().contains(key)
                        && final(self).similarity_claims() == old(self).similarity_claims(),
                }
            }),
    {
        let key = package_key_of(&self.base_url, system, name);
        self.similarity.begin(&key, now)
    }

    /// Ends the search for packages named like `name`.
    pub fn finish_similar_packages(
        &mut self,
        system: DepsDevSystem,
        name: &str,
        outcome: Option<CallOutcome<Vec<SimilarPackageCandidate>>>,
        now: u64,
    )
        requires
            old(self).wf(),
        ensures
            final(self).wf(),
            final(self).model() == (ClientModel {
                similarity: final(self).similarity_memo(),
                similarity_claims: final(self).similarity_claims(),
                ..old(self).model()
            }),
            ({
                let key = package_key(old(self).base(), system, name@);
                &&& final(self).similarity_claims() == old(self).similarity_claims().remove(key)
                &&& match outcome {
                    Some(outcome) => memo_stored(
                        old(self).similarity_memo(),
                        final(self).similarity_memo(),
                        key,
                        memo_entry(old(self).similarity_policy(), outcome, now),
                    ),
                    None => final(self).similarity_memo() == old(self).similarity_memo(),
                }
            }),
    {
        let key = package_key_of(&self.base_url, system, name);
        match outcome {
            Some(outcome) => {
                self.similarity.complete(&key, outcome, now);
            },
            None => {
                self.similarity.abandon(&key);
            },
        }
    }

    /// Reads the popularity of a package.
    pub fn popularity(&mut self, system: DepsDevSystem, name: &str, now: u64) -> (r: MemoStep<
        '_,
        Option<u64>,
    >)
        requires
            old(self).wf(),
        ensures
            final(self).wf(),
            final(self).model() == (ClientModel {
                popularity_claims: final(self).popularity_claims(),
                ..old(self).model()
            }),
            ({
                let key = package_key(old(self).base(), system, name@);
                let fresh = fresh_outcome(old(self).popularity_memo(), key, now);
                match r {
                    MemoStep::Hit(outcome) => fresh == Some(*outcome)
                        && final(self).popularity_claims() == old(self).popularity_claims(),
                    MemoStep::Lead => fresh is None && !old(self).popularity_claims().contains(key)
                        && final(self).popularity_claims() == old(self).popularity_claims().insert(key),
                    MemoStep::Follow => fresh is None && old(self).popularity_claims().contains(key)
                        && final(self).popularity_claims() == old(self).popularity_claims(),
                }
            }),
    {
        let key = package_key_of(&self.base_url, system, name);
        self.popularity.begin(&key, now)
    }

    /// Ends the lookup of a package's popularity.
    pub fn finish_popularity(
        &mut self,
        system: DepsDevSystem,
        name: &str,
        outcome: Option<CallOutcome<Option<u64>>>,
        now: u64,
    )
        requires
            old(self).wf(),
        ensures
            final(self).wf(),
            final(self).model() == (ClientModel {
                popularity: final(self).popularity_memo(),
                popularity_claims: final(self).popularity_claims(),
                ..old(self).model()
            }),
            ({
                let key = package_key(old(self).base(), system, name@);
                &&& final(self).popularity_claims() == old(self).popularity_claims().remove(key)
                &&& match outcome {
                    Some(outcome) => memo_stored(
                        old(self).popularity_memo(),
                        final(self).popularity_memo(),
                        key,
                        memo_entry(old(self).popularity_policy(), outcome, now),
                    ),
                    None => final(self).popularity_memo() == old(self).popularity_memo(),
                }
            }),
    {
        let key = package_key_of(&self.base_url, system, name);
        match outcome {
            Some(outcome) => {
                self.popularity.complete(&key, outcome, now);
            },
            None => {
                self.popularity.abandon(&key);
            },
        }
    }

    // -----------------------------------------------------------------------
    // Findings by package
    // -----------------------------------------------------------------------

    /// Plans the findings of the given packages: what is at hand, and which names are to be asked
    /// for in one batch. A name that someone else is asking for is left to that call.
    pub fn gossip_findings_batch(&mut self, system: DepsDevSystem, names: &[String], now: u64) -> (r:
        GossipPlan)
        requires
            old(self).wf(),
        ensures
            final(self).wf(),
            final(self).model() == (ClientModel {
                gossip_claims: final(self).gossip_claims(),
                ..old(self).model()
            }),
            finding_pairs(r.ready@) == batch_hits(
                old(self).gossip_memo(),
                old(self).base(),
                system,
                names@,
                now,
            ),
            (string_texts(r.claimed@), final(self).gossip_claims()) == batch_claims(
                old(self).gossip_memo(),
                old(self).gossip_claims(),
                old(self).base(),
                system,
                names@,
                now,
            ),
    {
        let ghost memo = self.gossip@;
        let ghost base = self.base_url@;
        let ghost claims = self.gossip_in_flight@;
        let mut ready: Vec<(String, GossipFindings)> = Vec::new();
        let mut claimed: Vec<String> = Vec::new();
        let mut i: usize = 0;
        proof {
            assert(names@.take(0) =~= Seq::<String>::empty());
            assert(finding_pairs(ready@) =~= Seq::<(Seq<char>, FindingsModel)>::empty());
            assert(string_texts(claimed@) =~= Seq::<Seq<char>>::empty());
        }
        while i < names.len()
            invariant
                i <= names@.len(),
                self.wf(),
                *self == (DepsDevClient { gossip_in_flight: self.gossip_in_flight, ..*old(self) }),
                old(self).gossip@ == memo,
                old(self).base_url@ == base,
                finding_pairs(ready@) == batch_hits(memo, base, system, names@.take(i as int), now),
                (string_texts(claimed@), self.gossip_in_flight@) == batch_claims(
                    memo,
                    claims,
                    base,
                    system,
                    names@.take(i as int),
                    now,
                ),
            decreases names@.len() - i,
        {
            proof {
                assert(names@.take(i + 1).drop_last() =~= names@.take(i as int));
                assert(names@.take(i + 1).last() == names@[i as int]);
            }
            let key = package_key_of(&self.base_url, system, names[i].as_str());
            match self.gossip.get_fresh(&key, now) {
                Some(outcome) => {
                    if let Some(findings) = outcome.as_value() {
                        let ghost before = ready@;
                        let copy = findings.duplicate();
                        ready.push((names[i].clone(), copy));
                        proof {
                            assert(finding_pairs(ready@) =~= finding_pairs(before).push(
                                (names@[i as int]@, copy@),
                            ));
                        }
                    }
                },
                None => {
                    let ghost held = self.gossip_in_flight@;
                    let ghost parts = string_texts(key@);
                    if self.gossip_in_flight.claim(key) {
                        let ghost before = claimed@;
                        claimed.push(names[i].clone());
                        proof {
                            assert(string_texts(claimed@) =~= string_texts(before).push(
                                names@[i as int]@,
                            ));
                        }
                    } else {
                        proof {
                            assert(held.insert(parts) =~= held);
                        }
                    }
                },
            }
            i += 1;
        }
        proof {
            assert(names@.take(i as int) =~= names@);
        }
        GossipPlan { ready, claimed }
    }

    /// Ends a batch for the names that were claimed: their claims are released, the outcome of
    /// each is kept, and the findings among them are returned.
    pub fn finish_gossip_batch(
        &mut self,
        system: DepsDevSystem,
        claimed: &Vec<String>,
        results: &GossipResults,
        now: u64,
    ) -> (r: Vec<(String, GossipFindings)>)
        requires
            old(self).wf(),
        ensures
            final(self).wf(),
            final(self).model() == (ClientModel {
                gossip: final(self).gossip_memo(),
                gossip_claims: final(self).gossip_claims(),
                ..old(self).model()
            }),
            finding_pairs(r@) == answered(results@, claimed@),
            batch_stored(
                old(self).gossip_memo(),
                final(self).gossip_memo(),
                old(self).gossip_policy(),
                results@,
                old(self).base(),
                system,
                claimed@,
                now,
            ),
            final(self).gossip_claims() == released(
                old(self).gossip_claims(),
                old(self).base(),
                system,
                claimed@,
            ),
    {
        self.release_batch(system, claimed);
        self.keep_batch(system, claimed, results, now)
    }

    /// Gives the claims of a batch up without an outcome, as when it is cancelled.
    pub fn abandon_gossip_batch(&mut self, system: DepsDevSystem, claimed: &Vec<String>)
        requires
            old(self).wf(),
        ensures
            final(self).wf(),
            final(self).model() == (ClientModel {
                gossip_claims: final(self).gossip_claims(),
                ..old(self).model()
            }),
            final(self).gossip_claims() == released(
                old(self).gossip_claims(),
                old(self).base(),
                system,
                claimed@,
            ),
    {
        self.release_batch(system, claimed);
    }

    fn release_batch(&mut self, system: DepsDevSystem, names: &Vec<String>)
        requires
            old(self).wf(),
        ensures
            final(self).wf(),
            *final(self) == (DepsDevClient {
                gossip_in_flight: final(self).gossip_in_flight,
                ..*old(self)
            }),
            final(self).gossip_claims() == released(
                old(self).gossip_claims(),
                old(self).base(),
                system,
                names@,
            ),
    {
        let mut i: usize = 0;
        proof {
            assert(names@.take(0) =~= Seq::<String>::empty());
        }
        while i < names.len()
            invariant
                i <= names@.len(),
                *self == (DepsDevClient { gossip_in_flight: self.gossip_in_flight, ..*old(self) }),
                self.gossip_in_flight@ == released(
                    old(self).gossip_in_flight@,
                    old(self).base_url@,
                    system,
                    names@.take(i as int),
                ),
            decreases names@.len() - i,
        {
            proof {
                assert(names@.take(i + 1).drop_last() =~= names@.take(i as int));
                assert(names@.take(i + 1).last() == names@[i as int]);
            }
            let key = package_key_of(&self.base_url, system, names[i].as_str());
            self.gossip_in_flight.release(&key);
            i += 1;
        }
        proof {
            assert(names@.take(i as int) =~= names@);
        }
    }

    fn keep_batch(
        &mut self,
        system: DepsDevSystem,
        names: &Vec<String>,
        results: &GossipResults,
        now: u64,
    ) -> (r: Vec<(String, GossipFindings)>)
        requires
            old(self).wf(),
        ensures
            final(self).wf(),
            *final(self) == (DepsDevClient { gossip: final(self).gossip, ..*old(self) }),
            final(self).gossip_policy() == old(self).gossip_policy(),
            finding_pairs(r@) == answered(results@, names@),
            batch_stored(
                old(self).gossip_memo(),
                final(self).gossip_memo(),
                old(self).gossip_policy(),
                results@,
                old(self).base(),
                system,
                names@,
                now,
            ),
    {
        let ghost policy = self.gossip.policy();
        let ghost base = self.base_url@;
        let ghost start = self.gossip@;
        let mut found: Vec<(String, GossipFindings)> = Vec::new();
        let mut i: usize = 0;
        proof {
            assert(names@.take(0) =~= Seq::<String>::empty());
            assert(finding_pairs(found@) =~= Seq::<(Seq<char>, FindingsModel)>::empty());
        }
        while i < names.len()
            invariant
                i <= names@.len(),
                self.wf(),
                *self == (DepsDevClient { gossip: self.gossip, ..*old(self) }),
                self.gossip.policy() == policy,
                base == self.base_url@,
                finding_pairs(found@) == answered(results@, names@.take(i as int)),
                batch_stored(
                    start,
                    self.gossip@,
                    policy,
                    results@,
                    base,
                    system,
                    names@.take(i as int),
                    now,
                ),
            decreases names@.len() - i,
        {
            proof {
                assert(names@.take(i + 1).drop_last() =~= names@.take(i as int));
                assert(names@.take(i + 1).last() == names@[i as int]);
            }
            let outcome = batch_outcome(names[i].as_str(), results);
            if let Some(findings) = outcome.as_value() {
                let ghost before = found@;
                let copy = findings.duplicate();
                found.push((names[i].clone(), copy));
                proof {
                    assert(finding_pairs(found@) =~= finding_pairs(before).push(
                        (names@[i as int]@, copy@),
                    ));
                }
            }
            let key = package_key_of(&self.base_url, system, names[i].as_str());
            let ghost mid = self.gossip@;
            let ghost kept = outcome;
            self.gossip.insert(key, outcome, now);
            proof {
                lemma_batch_stored_step(
                    start,
                    mid,
                    self.gossip@,
                    policy,
                    results@,
                    base,
                    system,
                    names@.take(i + 1),
                    now,
                    kept,
                );
            }
            i += 1;
        }
        proof {
            assert(names@.take(i as int) =~= names@);
        }
        found
    }

    /// Plans a refresh of the given packages that does not trust what is memoized: the names that
    /// may be refreshed now, each at most once per backoff. Their memoized findings are dropped,
    /// so that a stale answer cannot come back.
    pub fn force_refresh_gossip_findings(
        &mut self,
        system: DepsDevSystem,
        names: &[String],
        now: u64,
    ) -> (r: Vec<String>)
        requires
            old(self).wf(),
        ensures
            final(self).wf(),
            final(self).model() == (ClientModel {
                gossip: final(self).gossip_memo(),
                refreshes: final(self).refreshes(),
                ..old(self).model()
            }),
            refresh_run(
                old(self).refreshes(),
                final(self).refreshes(),
                old(self).base(),
                system,
                names@,
                now,
                string_texts(r@),
            ),
            final(self).gossip_memo() == dropped(
                old(self).gossip_memo(),
                old(self).base(),
                system,
                string_texts(r@),
            ),
    {
        let ghost base = self.base_url@;
        let ghost start = self.refreshes();
        let mut eligible: Vec<String> = Vec::new();
        let mut i: usize = 0;
        proof {
            assert(names@.take(0) =~= Seq::<String>::empty());
            assert(string_texts(eligible@) =~= Seq::<Seq<char>>::empty());
        }
        while i < names.len()
            invariant
                i <= names@.len(),
                self.wf(),
                base == self.base_url@,
                *self == (DepsDevClient {
                    gossip_last_refresh_attempt: self.gossip_last_refresh_attempt,
                    gossip_refresh_in_flight: self.gossip_refresh_in_flight,
                    ..*old(self)
                }),
                refresh_run(
                    start,
                    self.refreshes(),
                    base,
                    system,
                    names@.take(i as int),
                    now,
                    string_texts(eligible@),
                ),
            decreases names@.len() - i,
        {
            proof {
                assert(names@.take(i + 1).drop_last() =~= names@.take(i as int));
                assert(names@.take(i + 1).last() == names@[i as int]);
            }
            let ghost mid = self.refreshes();
            let ghost earlier = string_texts(eligible@);
            let key = package_key_of(&self.base_url, system, names[i].as_str());
            let ghost parts = string_texts(key@);
            if self.gossip_refresh_in_flight.claim(copy_key(&key)) {
                if self.gossip_last_refresh_attempt.get_fresh(&key, now).is_some() {
                    self.gossip_refresh_in_flight.release(&key);
                    proof {
                        assert(mid.claims.insert(parts).remove(parts) =~= mid.claims);
                        assert(self.refreshes() == mid);
                    }
                } else {
                    self.gossip_last_refresh_attempt.insert(
                        key,
                        (),
                        GOSSIP_REFRESH_BACKOFF,
                        now,
                        MAX_MEMO_ENTRIES,
                    );
                    let ghost before = eligible@;
                    eligible.push(names[i].clone());
                    proof {
                        assert(string_texts(eligible@) =~= string_texts(before).push(
                            names@[i as int]@,
                        ));
                        assert(refreshable(mid, parts, now));
                        assert(refresh_considered(mid, self.refreshes(), parts, now));
                    }
                }
            } else {
                proof {
                    assert(mid.claims.insert(parts) =~= mid.claims);
                    assert(self.refreshes() == mid);
                }
            }
            proof {
                lemma_refresh_run_step(
                    start,
                    mid,
                    self.refreshes(),
                    base,
                    system,
                    names@.take(i + 1),
                    now,
                    earlier,
                );
            }
            i += 1;
        }
        proof {
            assert(names@.take(i as int) =~= names@);
        }
        let ghost after = self.refreshes();
        let ghost memo = self.gossip@;
        let ghost taken = string_texts(eligible@);
        let mut k: usize = 0;
        proof {
            assert(taken.take(0) =~= Seq::<Seq<char>>::empty());
        }
        while k < eligible.len()
            invariant
                k <= eligible@.len(),
                self.wf(),
                taken == string_texts(eligible@),
                base == self.base_url@,
                *self == (DepsDevClient {
                    gossip: self.gossip,
                    gossip_last_refresh_attempt: self.gossip_last_refresh_attempt,
                    gossip_refresh_in_flight: self.gossip_refresh_in_flight,
                    ..*old(self)
                }),
                self.gossip.policy() == old(self).gossip.policy(),
                self.refreshes() == after,
                self.gossip@ == dropped(memo, base, system, taken.take(k as int)),
            decreases eligible@.len() - k,
        {
            proof {
                assert(taken.take(k + 1).drop_last() =~= taken.take(k as int));
                assert(taken.take(k + 1).last() == eligible@[k as int]@);
            }
            let key = package_key_of(&self.base_url, system, eligible[k].as_str());
            self.gossip.remove(&key);
            k += 1;
        }
        proof {
            assert(taken.take(k as int) =~= taken);
        }
        eligible
    }

    /// Ends a refresh for the names that were eligible: their refresh claims are released, the
    /// outcome of each is kept, and the findings among them are returned.
    pub fn finish_gossip_refresh(
        &mut self,
        system: DepsDevSystem,
        eligible: &Vec<String>,
        results: &GossipResults,
        now: u64,
    ) -> (r: Vec<(String, GossipFindings)>)
        requires
            old(self).wf(),
        ensures
            final(self).wf(),
            final(self).model() == (ClientModel {
                gossip: final(self).gossip_memo(),
                refreshes: final(self).refreshes(),
                ..old(self).model()
            }),
            finding_pairs(r@) == answered(results@, eligible@),
            batch_stored(
                old(self).gossip_memo(),
                final(self).gossip_memo(),
                old(self).gossip_policy(),
                results@,
                old(self).base(),
                system,
                eligible@,
                now,
            ),
            final(self).refreshes() == (RefreshModel {
                attempts: old(self).refreshes().attempts,
                claims: released(
                    old(self).refreshes().claims,
                    old(self).base(),
                    system,
                    eligible@,
                ),
            }),
    {
        self.release_refresh(system, eligible);
        self.keep_batch(system, eligible, results, now)
    }

    /// Gives the claims of a refresh up without an outcome, as when it is cancelled.
    pub fn abandon_gossip_refresh(&mut self, system: DepsDevSystem, eligible: &Vec<String>)
        requires
            old(self).wf(),
        ensures
            final(self).wf(),
            final(self).model() == (ClientModel {
                refreshes: final(self).refreshes(),
                ..old(self).model()
            }),
            final(self).refreshes() == (RefreshModel {
                attempts: old(self).refreshes().attempts,
                claims: released(
                    old(self).refreshes().claims,
                    old(self).base(),
                    system,
                    eligible@,
                ),
            }),
    {
        self.release_refresh(system, eligible);
    }

    fn release_refresh(&mut self, system: DepsDevSystem, names: &Vec<String>)
        requires
            old(self).wf(),
        ensures
            final(self).wf(),
            *final(self) == (DepsDevClient {
                gossip_refresh_in_flight: final(self).gossip_refresh_in_flight,
                ..*old(self)
            }),
            final(self).refreshes() == (RefreshModel {
                attempts: old(self).refreshes().attempts,
                claims: released(old(self).refreshes().claims, old(self).base(), system, names@),
            }),
    {
        let mut i: usize = 0;
        proof {
            assert(names@.take(0) =~= Seq::<String>::empty());
        }
        while i < names.len()
            invariant
                i <= names@.len(),
                *self == (DepsDevClient {
                    gossip_refresh_in_flight: self.gossip_refresh_in_flight,
                    ..*old(self)
                }),
                self.gossip_refresh_in_flight@ == released(
                    old(self).gossip_refresh_in_flight@,
                    old(self).base_url@,
                    system,
                    names@.take(i as int),
                ),
            decreases names@.len() - i,
        {
            proof {
                assert(names@.take(i + 1).drop_last() =~= names@.take(i as int));
                assert(names@.take(i + 1).last() == names@[i as int]);
            }
            let key = package_key_of(&self.base_url, system, names[i].as_str());
            self.gossip_refresh_in_flight.release(&key);
            i += 1;
        }
        proof {
            assert(names@.take(i as int) =~= names@);
        }
    }

    /// How many attempts to refresh are remembered.
    pub fn refresh_attempt_count(&self) -> (r: usize)
        requires
            self.wf(),
        ensures
            r == self.refreshes().attempts.dom().len(),
            r <= MAX_MEMO_ENTRIES,
    {
        proof {
            self.gossip_last_refresh_attempt.lemma_count();
        }
        self.gossip_last_refresh_attempt.len()
    }

    /// How many findings by package are memoized.
    pub fn gossip_count(&self) -> (r: usize)
        requires
            self.wf(),
        ensures
            r == self.gossip_memo().dom().len(),
            r <= MAX_MEMO_ENTRIES,
    {
        self.gossip.len()
    }

    // -----------------------------------------------------------------------
    // Findings by version
    // -----------------------------------------------------------------------

    /// Reads the findings of one version: a trusted outcome if there is one; nothing for now where
    /// someone else is asking; else the caller asks, and holds the claim until
    /// [`Self::finish_version_findings`].
    pub fn gossip_findings_for_version(
        &mut self,
        system: DepsDevSystem,
        name: &str,
        version: &str,
        now: u64,
    ) -> (r: VersionFindingsStep<'_>)
        requires
            old(self).wf(),
        ensures
            final(self).wf(),
            final(self).model() == (ClientModel {
                version_claims: final(self).version_claims(),
                ..old(self).model()
            }),
            ({
                let key = version_key(old(self).base(), system, name@, version@);
                let fresh = fresh_outcome(old(self).version_memo(), key, now);
                match r {
                    VersionFindingsStep::Hit(findings) => fresh matches Some(outcome)
                        && outcome.value() == *findings && final(self).version_claims()
                        == old(self).version_claims(),
                    VersionFindingsStep::Busy => fresh is None
                        && old(self).version_claims().contains(key)
                        && final(self).version_claims() == old(self).version_claims(),
                    VersionFindingsStep::Ask => fresh is None
                        && !old(self).version_claims().contains(key)
                        && final(self).version_claims() == old(self).version_claims().insert(key),
                }
            }),
    {
        let key = version_key_of(&self.base_url, system, name, version);
        if self.gossip_versions.get_fresh(&key, now).is_none() {
            let ghost before = self.gossip_version_in_flight@;
            let ghost parts = string_texts(key@);
            if self.gossip_version_in_flight.claim(key) {
                return VersionFindingsStep::Ask;
            }
            proof {
                assert(before.insert(parts) =~= before);
            }
            return VersionFindingsStep::Busy;
        }
        match self.gossip_versions.get_fresh(&key, now) {
            Some(outcome) => VersionFindingsStep::Hit(outcome.as_value()),
            None => VersionFindingsStep::Busy,
        }
    }

    /// Ends the reading of one version's findings: the outcome is kept, or, where there is none,
    /// only the claim is given up.
    pub fn finish_version_findings(
        &mut self,
        system: DepsDevSystem,
        name: &str,
        version: &str,
        outcome: Option<CallOutcome<Option<GossipFindings>>>,
        now: u64,
    )
        requires
            old(self).wf(),
        ensures
            final(self).wf(),
            final(self).model() == (ClientModel {
                versions: final(self).version_memo(),
                version_claims: final(self).version_claims(),
                ..old(self).model()
            }),
            ({
                let key = version_key(old(self).base(), system, name@, version@);
                &&& final(self).version_claims() == old(self).version_claims().remove(key)
                &&& match outcome {
                    Some(outcome) => memo_stored(
                        old(self).version_memo(),
                        final(self).version_memo(),
                        key,
                        memo_entry(old(self).version_policy(), outcome, now),
                    ),
                    None => final(self).version_memo() == old(self).version_memo(),
                }
            }),
    {
        let key = version_key_of(&self.base_url, system, name, version);
        self.gossip_version_in_flight.release(&key);
        match outcome {
            Some(outcome) => {
                self.gossip_versions.insert(key, outcome, now);
            },
            None => {},
        }
    }
}

// ---------------------------------------------------------------------------
// Laws
// ---------------------------------------------------------------------------

/// Memo keys never alias: two versions with the same key are the same version of the same package
/// of the same system of the same API.
pub proof fn law_version_keys_do_not_alias(
    base: Seq<char>,
    system: DepsDevSystem,
    name: Seq<char>,
    version: Seq<char>,
    base2: Seq<char>,
    system2: DepsDevSystem,
    name2: Seq<char>,
    version2: Seq<char>,
)
    requires
        version_key(base, system, name, version) == version_key(base2, system2, name2, version2),
    ensures
        base == base2,
        system == system2,
        name == name2,
        version == version2,
{
    let a = version_key(base, system, name, version);
    let b = version_key(base2, system2, name2, version2);
    assert(a[0] == b[0]);
    assert(a[1] == b[1]);
    assert(a[2] == b[2]);
    assert(a[3] == b[3]);
    crate::deps_dev::project::law_path_segments_are_distinct(system, system2);
}

/// A plain answer is trusted for as long as a success of its kind, a degraded one only for as
/// long as an error.
pub proof fn law_outcomes_are_trusted_by_their_policies<S: Copy>(client: DepsDevClient<S>)
    requires
        client.wf(),
    ensures
        is_deps_dev_policy(client.signal_policy()),
        is_deps_dev_policy(client.score_policy()),
        is_deps_dev_policy(client.similarity_policy()),
        is_deps_dev_policy(client.popularity_policy()),
        is_gossip_policy(client.gossip_policy()),
        is_gossip_policy(client.version_policy()),
{
}

/// A name that was refreshed within the backoff is not refreshed again.
pub proof fn law_refreshes_are_throttled(st: RefreshModel, key: KeyTexts, now: u64)
    requires
        st.attempts.dom().contains(key),
        st.attempts[key].ttl == GOSSIP_REFRESH_BACKOFF,
        st.attempts[key].fetched_at <= now < st.attempts[key].fetched_at + GOSSIP_REFRESH_BACKOFF,
    ensures
        !refreshable(st, key, now),
{
}

/// What was memoized for a package that is refreshed is gone before it is asked for: a stale
/// answer cannot come back.
pub proof fn law_refreshed_packages_are_forgotten(
    memo: MemoModel<Option<GossipFindings>>,
    base: Seq<char>,
    system: DepsDevSystem,
    names: Seq<Seq<char>>,
    i: int,
)
    requires
        0 <= i < names.len(),
    ensures
        !dropped(memo, base, system, names).dom().contains(package_key(base, system, names[i])),
    decreases names.len(),
{
    if i < names.len() - 1 {
        law_refreshed_packages_are_forgotten(memo, base, system, names.drop_last(), i);
    }
}

/// A refresh forgets nothing of the packages that it leaves out.
pub proof fn law_other_packages_are_kept(
    memo: MemoModel<Option<GossipFindings>>,
    base: Seq<char>,
    system: DepsDevSystem,
    names: Seq<Seq<char>>,
    key: KeyTexts,
)
    requires
        forall|i: int| 0 <= i < names.len() ==> key != package_key(base, system, #[trigger] names[i]),
    ensures
        dropped(memo, base, system, names).dom().contains(key) == memo.dom().contains(key),
        memo.dom().contains(key) ==> dropped(memo, base, system, names)[key] == memo[key],
    decreases names.len(),
{
    if names.len() > 0 {
        let rest = names.drop_last();
        assert forall|i: int| 0 <= i < rest.len() implies key != package_key(
            base,
            system,
            #[trigger] rest[i],
        ) by {
            assert(rest[i] == names[i]);
        }
        law_other_packages_are_kept(memo, base, system, rest, key);
        assert(names[names.len() - 1] == names.last());
    }
}

/// Every name that a batch asks for was unclaimed and without a trusted outcome, and is claimed
/// from then on.
pub proof fn law_batches_ask_only_for_unclaimed_misses(
    memo: MemoModel<Option<GossipFindings>>,
    claims: Set<KeyTexts>,
    base: Seq<char>,
    system: DepsDevSystem,
    names: Seq<String>,
    now: u64,
    i: int,
)
    requires
        0 <= i < batch_claims(memo, claims, base, system, names, now).0.len(),
    ensures
        ({
            let (taken, held) = batch_claims(memo, claims, base, system, names, now);
            let key = package_key(base, system, taken[i]);
            &&& fresh_outcome(memo, key, now) is None
            &&& !claims.contains(key)
            &&& held.contains(key)
        }),
    decreases names.len(),
{
    let rest = names.drop_last();
    let (taken, held) = batch_claims(memo, claims, base, system, rest, now);
    lemma_claims_grow(memo, claims, base, system, rest, now);
    if i < taken.len() {
        law_batches_ask_only_for_unclaimed_misses(memo, claims, base, system, rest, now, i);
    }
}

proof fn lemma_claims_grow(
    memo: MemoModel<Option<GossipFindings>>,
    claims: Set<KeyTexts>,
    base: Seq<char>,
    system: DepsDevSystem,
    names: Seq<String>,
    now: u64,
)
    ensures
        claims.subset_of(batch_claims(memo, claims, base, system, names, now).1),
    decreases names.len(),
{
    if names.len() > 0 {
        lemma_claims_grow(memo, claims, base, system, names.drop_last(), now);
    }
}

proof fn lemma_package_keys_are_distinct(
    base: Seq<char>,
    system: DepsDevSystem,
    a: Seq<char>,
    b: Seq<char>,
)
    requires
        package_key(base, system, a) == package_key(base, system, b),
    ensures
        a == b,
{
    assert(package_key(base, system, a)[2] == a);
    assert(package_key(base, system, b)[2] == b);
}

/// The first batch of a client claims every name, and nothing else.
proof fn lemma_first_batch_claims(
    base: Seq<char>,
    system: DepsDevSystem,
    names: Seq<String>,
    now: u64,
)
    ensures
        ({
            let (taken, held) = batch_claims(
                MemoModel::empty(),
                Set::empty(),
                base,
                system,
                names,
                now,
            );
            &&& taken.len() <= names.len()
            &&& forall|i: int| 0 <= i < names.len() ==> taken.contains((#[trigger] names[i])@)
            &&& forall|j: int|
                0 <= j < taken.len() ==> string_texts(names).contains(#[trigger] taken[j])
            &&& forall|name: Seq<char>|
                held.contains(#[trigger] package_key(base, system, name)) ==> taken.contains(name)
        }),
    decreases names.len(),
{
    if names.len() > 0 {
        let rest = names.drop_last();
        let last = names.last()@;
        let key = package_key(base, system, last);
        let memo = MemoModel::<Option<GossipFindings>>::empty();
        lemma_first_batch_claims(base, system, rest, now);
        let (before, held_before) = batch_claims(memo, Set::empty(), base, system, rest, now);
        let (taken, held) = batch_claims(memo, Set::empty(), base, system, names, now);
        assert(fresh_outcome(memo, key, now) is None);
        assert forall|x: Seq<char>| before.contains(x) implies taken.contains(x) by {
            let j = choose|j: int| 0 <= j < before.len() && before[j] == x;
            assert(taken[j] == x);
        }
        assert(taken.contains(last)) by {
            if held_before.contains(key) {
                assert(before.contains(last));
            } else {
                assert(taken[before.len() as int] == last);
            }
        }
        assert forall|i: int| 0 <= i < names.len() implies taken.contains(
            (#[trigger] names[i])@,
        ) by {
            if i < rest.len() {
                assert(before.contains(rest[i]@));
            }
        }
        assert forall|j: int| 0 <= j < taken.len() implies string_texts(names).contains(
            #[trigger] taken[j],
        ) by {
            if j < before.len() {
                assert(string_texts(rest).contains(before[j]));
                let i = choose|i: int|
                    0 <= i < string_texts(rest).len() && string_texts(rest)[i] == before[j];
                assert(string_texts(names)[i] == taken[j]);
            } else {
                assert(string_texts(names)[names.len() - 1] == taken[j]);
            }
        }
        assert forall|name: Seq<char>| held.contains(
            #[trigger] package_key(base, system, name),
        ) implies taken.contains(name) by {
            if package_key(base, system, name) == key {
                lemma_package_keys_are_distinct(base, system, name, last);
            } else {
                assert(held_before.contains(package_key(base, system, name)));
            }
        }
    }
}

/// Whether the memo holds the outcome to keep for `name`, stored at `now`.
pub open spec fn holds_outcome(
    memo: MemoModel<Option<GossipFindings>>,
    policy: TtlPolicy,
    results: Map<Seq<char>, Option<FindingsModel>>,
    key: KeyTexts,
    name: Seq<char>,
    now: u64,
) -> bool {
    &&& memo.dom().contains(key)
    &&& kept_outcome(results, name, memo[key].value)
    &&& memo[key] == memo_entry(policy, memo[key].value, now)
}

/// What a first batch stores is all there: nothing is evicted while the names fit.
proof fn lemma_first_batch_is_kept(
    after: MemoModel<Option<GossipFindings>>,
    policy: TtlPolicy,
    results: Map<Seq<char>, Option<FindingsModel>>,
    base: Seq<char>,
    system: DepsDevSystem,
    names: Seq<String>,
    now: u64,
)
    requires
        batch_stored(MemoModel::empty(), after, policy, results, base, system, names, now),
        names.len() <= MAX_MEMO_ENTRIES,
    ensures
        after.dom().finite(),
        after.dom().len() <= names.len(),
        forall|i: int|
            0 <= i < names.len() ==> holds_outcome(
                after,
                policy,
                results,
                package_key(base, system, (#[trigger] names[i])@),
                names[i]@,
                now,
            ),
    decreases names.len(),
{
    if names.len() > 0 {
        let rest = names.drop_last();
        let last = names.last()@;
        let key = package_key(base, system, last);
        let (mid, outcome) = choose|
            mid: MemoModel<Option<GossipFindings>>,
            outcome: CallOutcome<Option<GossipFindings>>,
        |
            batch_stored(MemoModel::empty(), mid, policy, results, base, system, rest, now)
                && #[trigger] outcome_stored(
                mid,
                after,
                policy,
                results,
                key,
                last,
                outcome,
                now,
            );
        lemma_first_batch_is_kept(mid, policy, results, base, system, rest, now);
        let entry = memo_entry(policy, outcome, now);
        assert(after == mid.insert(key, entry));
        assert(after.dom() =~= mid.dom().insert(key));
        assert forall|i: int| 0 <= i < names.len() implies holds_outcome(
            after,
            policy,
            results,
            package_key(base, system, (#[trigger] names[i])@),
            names[i]@,
            now,
        ) by {
            if package_key(base, system, names[i]@) == key {
                lemma_package_keys_are_distinct(base, system, names[i]@, last);
            } else {
                assert(rest[i] == names[i]);
            }
        }
    }
}

/// Whether the name of `pair` was answered with its findings.
pub open spec fn answered_with(
    results: Map<Seq<char>, Option<FindingsModel>>,
    pair: (Seq<char>, FindingsModel),
) -> bool {
    results.dom().contains(pair.0) && results[pair.0] == Some(pair.1)
}

proof fn lemma_answered(
    results: Map<Seq<char>, Option<FindingsModel>>,
    names: Seq<String>,
    pair: (Seq<char>, FindingsModel),
)
    ensures
        answered(results, names).contains(pair) <==> (string_texts(names).contains(pair.0)
            && answered_with(results, pair)),
    decreases names.len(),
{
    if names.len() > 0 {
        let rest = names.drop_last();
        lemma_answered(results, rest, pair);
        assert(string_texts(names) =~= string_texts(rest).push(names.last()@));
        lemma_push_contains(string_texts(rest), names.last()@, pair.0);
        let before = answered(results, rest);
        let name = names.last()@;
        if results.dom().contains(name) && results[name] is Some {
            lemma_push_contains(before, (name, results[name]->0), pair);
        }
    }
}

proof fn lemma_push_contains<T>(s: Seq<T>, x: T, y: T)
    ensures
        s.push(x).contains(y) <==> s.contains(y) || x == y,
{
    if s.contains(y) {
        let i = choose|i: int| 0 <= i < s.len() && s[i] == y;
        assert(s.push(x)[i] == y);
    }
    if x == y {
        assert(s.push(x)[s.len() as int] == y);
    }
}

/// With an outcome to keep for every name, all of them trusted, a batch asks for nothing and
/// finds what was answered.
proof fn lemma_batch_of_hits(
    memo: MemoModel<Option<GossipFindings>>,
    policy: TtlPolicy,
    results: Map<Seq<char>, Option<FindingsModel>>,
    claims: Set<KeyTexts>,
    base: Seq<char>,
    system: DepsDevSystem,
    names: Seq<String>,
    stored_at: u64,
    now: u64,
)
    requires
        is_gossip_policy(policy),
        stored_at <= now < stored_at + GOSSIP_ERROR_TTL,
        forall|i: int|
            0 <= i < names.len() ==> holds_outcome(
                memo,
                policy,
                results,
                package_key(base, system, (#[trigger] names[i])@),
                names[i]@,
                stored_at,
            ),
    ensures
        batch_claims(memo, claims, base, system, names, now) == (Seq::<Seq<char>>::empty(), claims),
        batch_hits(memo, base, system, names, now) == answered(results, names),
    decreases names.len(),
{
    if names.len() > 0 {
        let rest = names.drop_last();
        assert forall|i: int| 0 <= i < rest.len() implies holds_outcome(
            memo,
            policy,
            results,
            package_key(base, system, (#[trigger] rest[i])@),
            rest[i]@,
            stored_at,
        ) by {
            assert(rest[i] == names[i]);
        }
        lemma_batch_of_hits(memo, policy, results, claims, base, system, rest, stored_at, now);
        let key = package_key(base, system, names.last()@);
        assert(names[names.len() - 1] == names.last());
        assert(!expired(memo[key], now));
    }
}

/// A batch asked for again, while its outcomes are trusted, asks for nothing and returns the same
/// findings.
///
/// `names` is the first batch of a client. `claimed` are the names that it asked for, `results` the
/// answers, and `after` the memo once they were stored. The findings that it returned are those of
/// `answered`: all of them for a name of the batch, and none for a name that was answered without
/// a default version or not at all.
pub proof fn law_repeated_batches_ask_for_nothing(
    after: MemoModel<Option<GossipFindings>>,
    claims: Set<KeyTexts>,
    policy: TtlPolicy,
    results: Map<Seq<char>, Option<FindingsModel>>,
    base: Seq<char>,
    system: DepsDevSystem,
    names: Seq<String>,
    claimed: Seq<String>,
    asked_at: u64,
    stored_at: u64,
    now: u64,
)
    requires
        is_gossip_policy(policy),
        names.len() <= MAX_MEMO_ENTRIES,
        string_texts(claimed) == batch_claims(
            MemoModel::empty(),
            Set::empty(),
            base,
            system,
            names,
            asked_at,
        ).0,
        batch_stored(MemoModel::empty(), after, policy, results, base, system, claimed, stored_at),
        stored_at <= now < stored_at + GOSSIP_ERROR_TTL,
    ensures
        batch_claims(after, claims, base, system, names, now) == (Seq::<Seq<char>>::empty(), claims),
        batch_hits(after, base, system, names, now).to_set() == answered(results, claimed).to_set(),
        forall|pair: (Seq<char>, FindingsModel)| #[trigger]
            answered(results, claimed).contains(pair) <==> (string_texts(names).contains(pair.0)
                && answered_with(results, pair)),
{
    let taken = string_texts(claimed);
    lemma_first_batch_claims(base, system, names, asked_at);
    assert(claimed.len() == taken.len());
    lemma_first_batch_is_kept(after, policy, results, base, system, claimed, stored_at);
    assert forall|i: int| 0 <= i < names.len() implies holds_outcome(
        after,
        policy,
        results,
        package_key(base, system, (#[trigger] names[i])@),
        names[i]@,
        stored_at,
    ) by {
        assert(taken.contains(names[i]@));
        let j = choose|j: int| 0 <= j < taken.len() && taken[j] == names[i]@;
        assert(claimed[j]@ == names[i]@);
    }
    lemma_batch_of_hits(
        after,
        policy,
        results,
        claims,
        base,
        system,
        names,
        stored_at,
        now,
    );
    assert forall|name: Seq<char>| taken.contains(name) == string_texts(names).contains(name) by {
        if taken.contains(name) {
            let j = choose|j: int| 0 <= j < taken.len() && taken[j] == name;
            assert(string_texts(names).contains(taken[j]));
        }
        if string_texts(names).contains(name) {
            let i = choose|i: int|
                0 <= i < string_texts(names).len() && string_texts(names)[i] == name;
            assert(taken.contains(names[i]@));
        }
    }
    assert forall|pair: (Seq<char>, FindingsModel)| #[trigger]
        answered(results, claimed).contains(pair) <==> (string_texts(names).contains(pair.0)
            && answered_with(results, pair)) by {
        lemma_answered(results, claimed, pair);
    }
    let first = answered(results, claimed).to_set();
    let second = answered(results, names).to_set();
    assert forall|pair: (Seq<char>, FindingsModel)| first.contains(pair) == second.contains(
        pair,
    ) by {
        lemma_answered(results, names, pair);
        assert(answered(results, claimed).contains(pair) == answered(results, names).contains(pair));
    }
    assert(second =~= first);
}

/// Whether the attempts hold one on `key` at `now`.
pub open spec fn attempted_at(st: RefreshModel, key: KeyTexts, now: u64) -> bool {
    st.attempts.dom().contains(key) && st.attempts[key] == (EntryModel {
        fetched_at: now,
        ttl: GOSSIP_REFRESH_BACKOFF,
        value: (),
    })
}

proof fn lemma_first_refresh_is_recorded(
    after: RefreshModel,
    base: Seq<char>,
    system: DepsDevSystem,
    names: Seq<String>,
    now: u64,
    taken: Seq<Seq<char>>,
)
    requires
        refresh_run(
            RefreshModel { attempts: Map::empty(), claims: Set::empty() },
            after,
            base,
            system,
            names,
            now,
            taken,
        ),
        names.len() <= MAX_MEMO_ENTRIES,
    ensures
        after.attempts.dom().finite(),
        after.attempts.dom().len() <= names.len(),
        forall|key: KeyTexts| #[trigger] after.claims.contains(key) ==> attempted_at(after, key, now),
        forall|key: KeyTexts| #[trigger]
            after.attempts.dom().contains(key) ==> attempted_at(after, key, now),
        forall|i: int|
            0 <= i < names.len() ==> attempted_at(
                after,
                package_key(base, system, (#[trigger] names[i])@),
                now,
            ),
    decreases names.len(),
{
    if names.len() > 0 {
        let start = RefreshModel { attempts: Map::empty(), claims: Set::empty() };
        let rest = names.drop_last();
        let name = names.last()@;
        let key = package_key(base, system, name);
        let (mid, earlier) = choose|mid: RefreshModel, earlier: Seq<Seq<char>>|
            refresh_run(start, mid, base, system, rest, now, earlier)
                && #[trigger] name_considered(mid, after, key, name, now, earlier, taken);
        lemma_first_refresh_is_recorded(mid, base, system, rest, now, earlier);
        if refreshable(mid, key, now) {
            assert(after.attempts.dom() =~= mid.attempts.dom().insert(key));
        }
        assert(attempted_at(after, key, now));
        assert forall|i: int| 0 <= i < names.len() implies attempted_at(
            after,
            package_key(base, system, (#[trigger] names[i])@),
            now,
        ) by {
            if i < rest.len() {
                assert(attempted_at(mid, package_key(base, system, rest[i]@), now));
            }
        }
    }
}

proof fn lemma_recorded_names_are_passed_over(
    before: RefreshModel,
    after: RefreshModel,
    base: Seq<char>,
    system: DepsDevSystem,
    names: Seq<String>,
    recorded_at: u64,
    now: u64,
    taken: Seq<Seq<char>>,
)
    requires
        refresh_run(before, after, base, system, names, now, taken),
        recorded_at <= now < recorded_at + GOSSIP_REFRESH_BACKOFF,
        forall|i: int|
            0 <= i < names.len() ==> attempted_at(
                before,
                package_key(base, system, (#[trigger] names[i])@),
                recorded_at,
            ),
    ensures
        taken.len() == 0,
        after == before,
    decreases names.len(),
{
    if names.len() > 0 {
        let rest = names.drop_last();
        let name = names.last()@;
        let key = package_key(base, system, name);
        let (mid, earlier) = choose|mid: RefreshModel, earlier: Seq<Seq<char>>|
            refresh_run(before, mid, base, system, rest, now, earlier)
                && #[trigger] name_considered(mid, after, key, name, now, earlier, taken);
        assert forall|i: int| 0 <= i < rest.len() implies attempted_at(
            before,
            package_key(base, system, (#[trigger] rest[i])@),
            recorded_at,
        ) by {
            assert(rest[i] == names[i]);
        }
        lemma_recorded_names_are_passed_over(
            before,
            mid,
            base,
            system,
            rest,
            recorded_at,
            now,
            earlier,
        );
        assert(names[names.len() - 1] == names.last());
    }
}

/// A refresh asked for again within the backoff refreshes nothing, whether or not the first one is
/// still in progress.
///
/// `names` is the first refresh of a client, at `first`; `later` are the claims at the second one.
pub proof fn law_repeated_refreshes_do_nothing(
    once: RefreshModel,
    later: Set<KeyTexts>,
    twice: RefreshModel,
    base: Seq<char>,
    system: DepsDevSystem,
    names: Seq<String>,
    first: u64,
    now: u64,
    taken: Seq<Seq<char>>,
    taken_again: Seq<Seq<char>>,
)
    requires
        names.len() <= MAX_MEMO_ENTRIES,
        refresh_run(
            RefreshModel { attempts: Map::empty(), claims: Set::empty() },
            once,
            base,
            system,
            names,
            first,
            taken,
        ),
        refresh_run(
            RefreshModel { attempts: once.attempts, claims: later },
            twice,
            base,
            system,
            names,
            now,
            taken_again,
        ),
        first <= now < first + GOSSIP_REFRESH_BACKOFF,
    ensures
        taken_again.len() == 0,
        twice == (RefreshModel { attempts: once.attempts, claims: later }),
{
    lemma_first_refresh_is_recorded(once, base, system, names, first, taken);
    let before = RefreshModel { attempts: once.attempts, claims: later };
    assert forall|i: int| 0 <= i < names.len() implies attempted_at(
        before,
        package_key(base, system, (#[trigger] names[i])@),
        first,
    ) by {
        assert(attempted_at(once, package_key(base, system, names[i]@), first));
    }
    lemma_recorded_names_are_passed_over(
        before,
        twice,
        base,
        system,
        names,
        first,
        now,
        taken_again,
    );
}

/// Keys of different packages, and of different projects, are different.
pub proof fn law_package_and_project_keys_do_not_alias(
    base: Seq<char>,
    system: DepsDevSystem,
    name: Seq<char>,
    base2: Seq<char>,
    system2: DepsDevSystem,
    name2: Seq<char>,
)
    ensures
        package_key(base, system, name) == package_key(base2, system2, name2) <==> base == base2
            && system == system2 && name == name2,
        project_memo_key(base, name) == project_memo_key(base2, name2) <==> base == base2 && name
            == name2,
{
    let a = package_key(base, system, name);
    let b = package_key(base2, system2, name2);
    if a == b {
        assert(a[0] == b[0]);
        assert(a[1] == b[1]);
        assert(a[2] == b[2]);
        law_path_segments_are_distinct(system, system2);
    }
    let c = project_memo_key(base, name);
    let d = project_memo_key(base2, name2);
    if c == d {
        assert(c[0] == d[0]);
        assert(c[1] == d[1]);
    }
}

/// What is at hand for the names of a batch is, in order, what was found for each name that has
/// an outcome still trusted.
pub proof fn law_everything_at_hand_is_given(
    memo: MemoModel<Option<GossipFindings>>,
    base: Seq<char>,
    system: DepsDevSystem,
    names: Seq<String>,
    now: u64,
)
    ensures
        batch_hits(memo, base, system, names, now) == names.filter(
            |n: String|
                fresh_outcome(memo, package_key(base, system, n@), now) matches Some(outcome)
                    && outcome.value() is Some,
        ).map_values(
            |n: String|
                (
                    n@,
                    (fresh_outcome(
                        memo,
                        package_key(base, system, n@),
                        now,
                    )->0.value()->0)@,
                ),
        ),
    decreases names.len(),
{
    reveal(Seq::filter);
    let hit = |n: String|
        fresh_outcome(memo, package_key(base, system, n@), now) matches Some(outcome)
            && outcome.value() is Some;
    let pair = |n: String|
        (n@, (fresh_outcome(memo, package_key(base, system, n@), now)->0.value()->0)@);
    if names.len() == 0 {
        assert(batch_hits(memo, base, system, names, now) =~= names.filter(hit).map_values(pair));
    } else {
        let rest = names.drop_last();
        law_everything_at_hand_is_given(memo, base, system, rest, now);
        if hit(names.last()) {
            assert(names.filter(hit).map_values(pair) =~= rest.filter(hit).map_values(pair).push(
                pair(names.last()),
            ));
        }
    }
}

/// Every name of a batch without a trusted outcome that nobody had claimed is asked for, and
/// once; the claims grow by the names asked for and by nothing else.
pub proof fn law_every_unclaimed_miss_is_asked_for(
    memo: MemoModel<Option<GossipFindings>>,
    claims: Set<KeyTexts>,
    base: Seq<char>,
    system: DepsDevSystem,
    names: Seq<String>,
    now: u64,
)
    ensures
        ({
            let (taken, held) = batch_claims(memo, claims, base, system, names, now);
            &&& taken.no_duplicates()
            &&& forall|n: int|
                0 <= n < names.len() && fresh_outcome(
                    memo,
                    package_key(base, system, (#[trigger] names[n])@),
                    now,
                ) is None && !claims.contains(package_key(base, system, names[n]@))
                    ==> taken.contains(names[n]@)
            &&& forall|key: KeyTexts| #[trigger]
                held.contains(key) <==> claims.contains(key) || exists|k: int|
                    0 <= k < taken.len() && package_key(base, system, #[trigger] taken[k]) == key
            &&& forall|k: int|
                0 <= k < taken.len() ==> string_texts(names).contains(#[trigger] taken[k])
        }),
    decreases names.len(),
{
    if names.len() > 0 {
        let rest = names.drop_last();
        law_every_unclaimed_miss_is_asked_for(memo, claims, base, system, rest, now);
        let (before, mid) = batch_claims(memo, claims, base, system, rest, now);
        let (taken, held) = batch_claims(memo, claims, base, system, names, now);
        let name = names.last()@;
        let key = package_key(base, system, name);
        assert(string_texts(names) =~= string_texts(rest).push(name));
        assert forall|k: int| 0 <= k < taken.len() implies string_texts(names).contains(
            #[trigger] taken[k],
        ) by {
            if k < before.len() {
                assert(taken[k] == before[k]);
                lemma_push_contains(string_texts(rest), name, before[k]);
            } else {
                lemma_push_contains(string_texts(rest), name, name);
            }
        }
        if fresh_outcome(memo, key, now) is None && !mid.contains(key) {
            assert forall|a: int, b: int| 0 <= a < b < taken.len() implies taken[a]
                != taken[b] by {
                if b < before.len() {
                    assert(before[a] != before[b]);
                } else if before[a] == name {
                    assert(mid.contains(key));
                }
            }
            assert forall|other: KeyTexts| #[trigger] held.contains(other) == (claims.contains(
                other,
            ) || exists|k: int|
                0 <= k < taken.len() && package_key(base, system, #[trigger] taken[k])
                    == other) by {
                if other == key {
                    assert(taken[before.len() as int] == name);
                } else {
                    assert(held.contains(other) == mid.contains(other));
                    if exists|k: int|
                        0 <= k < before.len() && package_key(base, system, #[trigger] before[k])
                            == other {
                        let k = choose|k: int|
                            0 <= k < before.len() && package_key(
                                base,
                                system,
                                #[trigger] before[k],
                            ) == other;
                        assert(taken[k] == before[k]);
                    }
                    if exists|k: int|
                        0 <= k < taken.len() && package_key(base, system, #[trigger] taken[k])
                            == other {
                        let k = choose|k: int|
                            0 <= k < taken.len() && package_key(base, system, #[trigger] taken[k])
                                == other;
                        assert(k < before.len());
                        assert(before[k] == taken[k]);
                    }
                }
            }
        }
        assert forall|n: int|
            0 <= n < names.len() && fresh_outcome(
                memo,
                package_key(base, system, (#[trigger] names[n])@),
                now,
            ) is None && !claims.contains(
                package_key(base, system, names[n]@),
            ) implies taken.contains(names[n]@) by {
            if n < rest.len() {
                assert(rest[n] == names[n]);
                assert(before.contains(names[n]@));
                let k = choose|k: int| 0 <= k < before.len() && before[k] == names[n]@;
                assert(taken[k] == names[n]@);
            } else if mid.contains(key) {
                let k = choose|k: int|
                    0 <= k < before.len() && package_key(base, system, #[trigger] before[k])
                        == key;
                law_package_and_project_keys_do_not_alias(
                    base,
                    system,
                    before[k],
                    base,
                    system,
                    name,
                );
                assert(taken[k] == name);
            } else {
                assert(taken[before.len() as int] == name);
            }
        }
    }
}

/// The answers of a batch are, for the names that were asked for, what was found for each of
/// them; a name that was not answered is kept as such, to be asked again soon.
pub proof fn law_answers_reach_the_names_asked_for(
    results: Map<Seq<char>, Option<FindingsModel>>,
    names: Seq<String>,
    name: Seq<char>,
    findings: FindingsModel,
    outcome: CallOutcome<Option<GossipFindings>>,
)
    ensures
        answered(results, names).contains((name, findings)) <==> string_texts(names).contains(name)
            && results.dom().contains(name) && results[name] == Some(findings),
        kept_outcome(results, name, outcome) ==> {
            &&& outcome is Definitive <==> results.dom().contains(name)
            &&& results.dom().contains(name) ==> option_findings(outcome.value()) == results[name]
            &&& !results.dom().contains(name) ==> outcome.value() is None
        },
{
    lemma_answered(results, names, (name, findings));
}

/// Once a batch is over, exactly the claims of its names are given up.
pub proof fn law_claims_of_a_batch_are_given_up(
    claims: Set<KeyTexts>,
    base: Seq<char>,
    system: DepsDevSystem,
    names: Seq<String>,
    key: KeyTexts,
)
    ensures
        released(claims, base, system, names).contains(key) <==> claims.contains(key) && forall|
            i: int,
        |
            0 <= i < names.len() ==> package_key(base, system, (#[trigger] names[i])@) != key,
    decreases names.len(),
{
    if names.len() > 0 {
        let rest = names.drop_last();
        law_claims_of_a_batch_are_given_up(claims, base, system, rest, key);
        if released(claims, base, system, names).contains(key) {
            assert forall|i: int| 0 <= i < names.len() implies package_key(
                base,
                system,
                (#[trigger] names[i])@,
            ) != key by {
                if i < rest.len() {
                    assert(rest[i] == names[i]);
                }
            }
        }
        if claims.contains(key) && forall|i: int|
            0 <= i < names.len() ==> package_key(base, system, (#[trigger] names[i])@) != key {
            assert forall|i: int| 0 <= i < rest.len() implies package_key(
                base,
                system,
                (#[trigger] rest[i])@,
            ) != key by {
                assert(rest[i] == names[i]);
            }
            assert(names[names.len() - 1] == names.last());
        }
    }
}

/// A package may be refreshed exactly where nobody is at it and its last attempt, if there was
/// one, has run out.
pub proof fn law_when_a_refresh_is_due(st: RefreshModel, key: KeyTexts, now: u64)
    ensures
        refreshable(st, key, now) <==> !st.claims.contains(key) && (!st.attempts.dom().contains(key)
            || st.attempts[key].ttl == 0 || now >= st.attempts[key].fetched_at
            + st.attempts[key].ttl),
{
}

/// A refresh that is due is claimed and its attempt recorded, to be good for 15 minutes; one that
/// is not changes nothing. Claims on other packages stay, and attempts on them stay or are
/// forgotten for room.
pub proof fn law_considering_a_refresh(
    before: RefreshModel,
    after: RefreshModel,
    key: KeyTexts,
    now: u64,
    other: KeyTexts,
)
    requires
        refresh_considered(before, after, key, now),
        other != key,
    ensures
        refreshable(before, key, now) ==> {
            &&& after.claims == before.claims.insert(key)
            &&& after.attempts.dom().contains(key)
            &&& after.attempts[key].fetched_at == now
            &&& after.attempts[key].ttl == 900_000
        },
        !refreshable(before, key, now) ==> after == before,
        after.claims.contains(other) == before.claims.contains(other),
        after.attempts.dom().contains(other) ==> before.attempts.dom().contains(other)
            && after.attempts[other] == before.attempts[other],
        before.attempts.dom().contains(key) && before.attempts.dom().contains(other)
            ==> after.attempts.dom().contains(other),
{
    if refreshable(before, key, now) {
        let room = choose|room: Map<KeyTexts, EntryModel<()>>|
            (if before.attempts.dom().contains(key) {
                room == before.attempts
            } else {
                made_room(before.attempts, room, MAX_MEMO_ENTRIES as nat, now)
            }) && after.attempts == #[trigger] room.insert(
                key,
                EntryModel { fetched_at: now, ttl: GOSSIP_REFRESH_BACKOFF, value: () },
            );
        assert(after.attempts == room.insert(
            key,
            EntryModel { fetched_at: now, ttl: GOSSIP_REFRESH_BACKOFF, value: () },
        ));
    }
}

/// Every package of a run whose refresh is due is taken, and only names of the run are.
pub proof fn law_every_due_refresh_is_made(
    before: RefreshModel,
    after: RefreshModel,
    base: Seq<char>,
    system: DepsDevSystem,
    names: Seq<String>,
    now: u64,
    taken: Seq<Seq<char>>,
    name: Seq<char>,
)
    requires
        refresh_run(before, after, base, system, names, now, taken),
    ensures
        taken.contains(name) ==> string_texts(names).contains(name),
        refreshable(before, package_key(base, system, name), now) ==> (taken.contains(name)
            <==> string_texts(names).contains(name)),
        refreshable(before, package_key(base, system, name), now) && !taken.contains(name)
            ==> refreshable(after, package_key(base, system, name), now),
        before.claims.subset_of(after.claims),
        taken.contains(name) ==> after.claims.contains(package_key(base, system, name)),
    decreases names.len(),
{
    let key = package_key(base, system, name);
    if names.len() > 0 {
        let rest = names.drop_last();
        let last = names.last()@;
        let last_key = package_key(base, system, last);
        let (mid, earlier) = choose|mid: RefreshModel, earlier: Seq<Seq<char>>|
            refresh_run(before, mid, base, system, rest, now, earlier)
                && #[trigger] name_considered(mid, after, last_key, last, now, earlier, taken);
        law_every_due_refresh_is_made(before, mid, base, system, rest, now, earlier, name);
        assert(string_texts(names) =~= string_texts(rest).push(last));
        lemma_push_contains(string_texts(rest), last, name);
        lemma_push_contains(earlier, last, name);
        law_package_and_project_keys_do_not_alias(base, system, name, base, system, last);
        if last != name {
            law_considering_a_refresh(mid, after, last_key, now, key);
        }
    } else {
        assert(string_texts(names).len() == 0);
    }
}

/// Storing a batch keeps the outcome of its last name, whatever had to make room, and what it
/// leaves of other packages is as it was.
pub proof fn law_outcomes_of_a_batch_are_stored(
    before: MemoModel<Option<GossipFindings>>,
    after: MemoModel<Option<GossipFindings>>,
    policy: TtlPolicy,
    results: Map<Seq<char>, Option<FindingsModel>>,
    base: Seq<char>,
    system: DepsDevSystem,
    names: Seq<String>,
    now: u64,
    other: KeyTexts,
)
    requires
        batch_stored(before, after, policy, results, base, system, names, now),
        forall|i: int|
            0 <= i < names.len() ==> package_key(base, system, (#[trigger] names[i])@) != other,
    ensures
        names.len() == 0 ==> after == before,
        names.len() > 0 ==> {
            let key = package_key(base, system, names.last()@);
            &&& after.dom().contains(key)
            &&& kept_outcome(results, names.last()@, after[key].value)
            &&& after[key].fetched_at == now
            &&& after[key].ttl == policy.ttl(after[key].value.is_complete())
        },
        after.dom().contains(other) ==> before.dom().contains(other) && after[other]
            == before[other],
    decreases names.len(),
{
    if names.len() > 0 {
        let rest = names.drop_last();
        let key = package_key(base, system, names.last()@);
        let (mid, outcome) = choose|
            mid: MemoModel<Option<GossipFindings>>,
            outcome: CallOutcome<Option<GossipFindings>>,
        |
            batch_stored(before, mid, policy, results, base, system, rest, now)
                && #[trigger] outcome_stored(
                mid,
                after,
                policy,
                results,
                key,
                names.last()@,
                outcome,
                now,
            );
        assert forall|i: int| 0 <= i < rest.len() implies package_key(
            base,
            system,
            (#[trigger] rest[i])@,
        ) != other by {
            assert(rest[i] == names[i]);
        }
        assert(names[names.len() - 1] == names.last());
        law_outcomes_of_a_batch_are_stored(
            before,
            mid,
            policy,
            results,
            base,
            system,
            rest,
            now,
            other,
        );
    }
}

/// The answers come in the order of the names, at most one for each.
pub proof fn law_answers_keep_the_order_of_the_names(
    results: Map<Seq<char>, Option<FindingsModel>>,
    first: Seq<String>,
    second: Seq<String>,
    name: String,
)
    ensures
        answered(results, first + second) == answered(results, first) + answered(results, second),
        answered(results, seq![name]).len() <= 1,
    decreases second.len(),
{
    let one = seq![name];
    assert(one.drop_last() =~= Seq::<String>::empty());
    assert(answered(results, one.drop_last()).len() == 0);
    if second.len() == 0 {
        assert(first + second =~= first);
        assert(answered(results, first) + answered(results, second) =~= answered(results, first));
    } else {
        let rest = second.drop_last();
        assert((first + second).drop_last() =~= first + rest);
        assert((first + second).last() == second.last());
        law_answers_keep_the_order_of_the_names(results, first, rest, name);
        assert(answered(results, first + second) =~= answered(results, first) + answered(
            results,
            second,
        ));
    }
}

/// A complete answer is trusted longer than an incomplete one.
pub proof fn law_complete_answers_are_trusted_longer(policy: TtlPolicy)
    requires
        is_gossip_policy(policy),
    ensures
        policy.ttl(FetchCompleteness::Complete) == GOSSIP_SUCCESS_TTL,
        policy.ttl(FetchCompleteness::Incomplete) == GOSSIP_ERROR_TTL,
        policy.ttl(FetchCompleteness::Incomplete) < policy.ttl(FetchCompleteness::Complete),
{
}

} // verus!
