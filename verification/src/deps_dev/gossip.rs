//! GOSSIP findings: the paginated batch call, and the call for one version.

use crate::deps_dev::memo::CallOutcome;
use crate::deps_dev::project::DepsDevSystem;
use crate::deps_dev::requests::{findings_url, findings_url_of, CallFailure};
use crate::deps_dev::trust::addressable;
use crate::deps_dev::types::{
    findings_of, gossip_findings_from_entry, FindingsModel, GossipFindings,
    GossipVersionFindingsWire,
};
use crate::formatter::{option_string, option_text};
use crate::github::identity::is_dot_segment;
use crate::text::{chars_of, same_text};
use vstd::prelude::*;

verus! {

/// Upper bound on how many pages of one batch are followed, so that a server that never ends its
/// pages cannot keep the prefetch going.
pub const GOSSIP_BATCH_MAX_PAGES: usize = 20;

/// Minimum interval between two forced refreshes of one package, in milliseconds: 15 minutes.
pub const GOSSIP_REFRESH_BACKOFF: u64 = 900_000;

/// The contents of optional findings.
pub open spec fn option_findings(o: Option<GossipFindings>) -> Option<FindingsModel> {
    match o {
        Some(f) => Some(f@),
        None => None,
    }
}

/// The answer for one package of a batch.
pub struct GossipBatchEntry {
    /// The package, as it was asked for.
    pub name: String,
    /// The findings of its default version, where it has one.
    pub default_version: Option<GossipVersionFindingsWire>,
}

/// One page of a batch.
pub struct GossipBatchPage {
    /// The answers.
    pub responses: Vec<GossipBatchEntry>,
    /// Where the next page begins; empty on the last page.
    pub next_page_token: String,
}

/// The findings of one answer: nothing for a package without a resolvable default version.
pub open spec fn entry_findings(entry: GossipBatchEntry) -> Option<FindingsModel> {
    match entry.default_version {
        Some(version) => Some(findings_of(version)),
        None => None,
    }
}

/// The findings of a batch by package: a later answer for a package replaces an earlier one.
pub struct GossipResults {
    entries: Vec<(String, Option<GossipFindings>)>,
}

/// What a list of records says when later records replace earlier ones of the same name.
pub open spec fn recorded_findings(entries: Seq<(String, Option<GossipFindings>)>) -> Map<
    Seq<char>,
    Option<FindingsModel>,
>
    decreases entries.len(),
{
    if entries.len() == 0 {
        Map::empty()
    } else {
        recorded_findings(entries.drop_last()).insert(
            entries.last().0@,
            option_findings(entries.last().1),
        )
    }
}

impl View for GossipResults {
    type V = Map<Seq<char>, Option<FindingsModel>>;

    closed spec fn view(&self) -> Map<Seq<char>, Option<FindingsModel>> {
        recorded_findings(self.entries@)
    }
}

impl GossipResults {
    /// No results.
    pub fn new() -> (r: Self)
        ensures
            r@ == Map::<Seq<char>, Option<FindingsModel>>::empty(),
    {
        GossipResults { entries: Vec::new() }
    }

    /// Records the findings of a package, in place of what was recorded for it before.
    pub fn insert(&mut self, name: String, findings: Option<GossipFindings>)
        ensures
            final(self)@ == old(self)@.insert(name@, option_findings(findings)),
    {
        let ghost before = self.entries@;
        self.entries.push((name, findings));
        proof {
            assert(self.entries@.drop_last() =~= before);
        }
    }

    /// The findings recorded for a package: `Some(None)` where it was answered without any.
    pub fn get(&self, name: &str) -> (r: Option<&Option<GossipFindings>>)
        ensures
            match r {
                Some(findings) => self@.dom().contains(name@) && self@[name@] == option_findings(
                    *findings,
                ),
                None => !self@.dom().contains(name@),
            },
    {
        let mut i: usize = self.entries.len();
        proof {
            assert(self.entries@.take(i as int) =~= self.entries@);
        }
        while i > 0
            invariant
                i <= self.entries@.len(),
                recorded_findings(self.entries@.take(i as int)).dom().contains(name@)
                    == self@.dom().contains(name@),
                self@.dom().contains(name@) ==> recorded_findings(
                    self.entries@.take(i as int),
                )[name@] == self@[name@],
            decreases i,
        {
            proof {
                assert(self.entries@.take(i as int).drop_last() =~= self.entries@.take(i - 1));
                assert(self.entries@.take(i as int).last() == self.entries@[i - 1]);
            }
            i -= 1;
            if same_text(self.entries[i].0.as_str(), name) {
                return Some(&self.entries[i].1);
            }
        }
        None
    }
}

// ---------------------------------------------------------------------------
// Batch
// ---------------------------------------------------------------------------

/// Where a batch stands.
pub struct BatchModel {
    /// The findings so far.
    pub results: Map<Seq<char>, Option<FindingsModel>>,
    /// Where the next page begins; nothing for the first page.
    pub page_token: Option<Seq<char>>,
    /// How many pages were taken.
    pub pages: nat,
    /// Whether no further page is wanted.
    pub finished: bool,
}

/// A batch before its first page.
pub open spec fn batch_start() -> BatchModel {
    BatchModel { results: Map::empty(), page_token: None, pages: 0, finished: false }
}

/// The findings once the answers of a page are recorded.
pub open spec fn with_answers(
    results: Map<Seq<char>, Option<FindingsModel>>,
    responses: Seq<GossipBatchEntry>,
) -> Map<Seq<char>, Option<FindingsModel>>
    decreases responses.len(),
{
    if responses.len() == 0 {
        results
    } else {
        with_answers(results, responses.drop_last()).insert(
            responses.last().name@,
            entry_findings(responses.last()),
        )
    }
}

/// A batch after one more page: it ends with the page that has no successor, and at the bound. A
/// page that failed ends it too, and leaves nothing of the batch.
pub open spec fn after_batch_page(b: BatchModel, page: Option<GossipBatchPage>) -> BatchModel {
    match page {
        None => BatchModel {
            results: Map::empty(),
            page_token: b.page_token,
            pages: b.pages + 1,
            finished: true,
        },
        Some(page) => BatchModel {
            results: with_answers(b.results, page.responses@),
            page_token: if page.next_page_token@.len() == 0 {
                b.page_token
            } else {
                Some(page.next_page_token@)
            },
            pages: b.pages + 1,
            finished: page.next_page_token@.len() == 0 || b.pages + 1 >= GOSSIP_BATCH_MAX_PAGES,
        },
    }
}

/// Drives one batch call. Until it is finished, the page at [`Self::page_token`] is to be
/// requested and handed to [`Self::accept_page`].
pub struct GossipBatch {
    results: GossipResults,
    page_token: Option<String>,
    pages: usize,
    finished: bool,
}

impl View for GossipBatch {
    type V = BatchModel;

    closed spec fn view(&self) -> BatchModel {
        BatchModel {
            results: self.results@,
            page_token: option_string(self.page_token),
            pages: self.pages as nat,
            finished: self.finished,
        }
    }
}

impl GossipBatch {
    /// The batch is within its page bound.
    pub closed spec fn wf(&self) -> bool {
        &&& self.pages <= GOSSIP_BATCH_MAX_PAGES
        &&& !self.finished ==> self.pages < GOSSIP_BATCH_MAX_PAGES
    }

    /// A batch before its first page.
    pub fn new() -> (r: Self)
        ensures
            r.wf(),
            r@ == batch_start(),
    {
        GossipBatch { results: GossipResults::new(), page_token: None, pages: 0, finished: false }
    }

    /// Whether no further page is wanted.
    pub fn is_finished(&self) -> (r: bool)
        ensures
            r == self@.finished,
    {
        self.finished
    }

    /// Where the page to request begins; `None` for the first page.
    pub fn page_token(&self) -> (r: Option<&str>)
        ensures
            option_text(r) == self@.page_token,
    {
        match &self.page_token {
            Some(token) => Some(token.as_str()),
            None => None,
        }
    }

    /// Takes a page; `None` is one that could not be fetched or read. After the end, pages are
    /// discarded.
    pub fn accept_page(&mut self, page: Option<GossipBatchPage>)
        requires
            old(self).wf(),
        ensures
            final(self).wf(),
            final(self)@ == (if old(self)@.finished {
                old(self)@
            } else {
                after_batch_page(old(self)@, page)
            }),
    {
        if self.finished {
            return;
        }
        self.pages = self.pages + 1;
        match page {
            None => {
                self.results = GossipResults::new();
                self.finished = true;
            },
            Some(page) => {
                let ghost before = self.results@;
                let ghost all = page.responses@;
                let mut i: usize = 0;
                proof {
                    assert(all.take(0) =~= Seq::<GossipBatchEntry>::empty());
                }
                let ghost pages = self.pages;
                let ghost token = self.page_token;
                while i < page.responses.len()
                    invariant
                        i <= page.responses@.len(),
                        all == page.responses@,
                        self.pages == pages,
                        self.page_token == token,
                        !self.finished,
                        self.results@ == with_answers(before, all.take(i as int)),
                    decreases page.responses@.len() - i,
                {
                    proof {
                        assert(all.take(i + 1).drop_last() =~= all.take(i as int));
                        assert(all.take(i + 1).last() == all[i as int]);
                    }
                    let entry = &page.responses[i];
                    let findings = match &entry.default_version {
                        Some(version) => Some(gossip_findings_from_entry(version)),
                        None => None,
                    };
                    self.results.insert(entry.name.clone(), findings);
                    i += 1;
                }
                proof {
                    assert(all.take(i as int) =~= all);
                }
                if page.next_page_token.as_str().is_empty() {
                    self.finished = true;
                } else {
                    if self.pages >= GOSSIP_BATCH_MAX_PAGES {
                        self.finished = true;
                    }
                    self.page_token = Some(page.next_page_token);
                }
            },
        }
    }

    /// The findings of the batch.
    pub fn into_results(self) -> (r: GossipResults)
        ensures
            r@ == self@.results,
    {
        self.results
    }
}

/// The outcome to keep for a package that was asked for in a batch: an answer, be it "nothing to
/// report", is definitive; a package that was not answered is to be asked again soon.
pub fn batch_outcome(name: &str, results: &GossipResults) -> (r: CallOutcome<
    Option<GossipFindings>,
>)
    ensures
        r is Definitive == results@.dom().contains(name@),
        option_findings(r.value()) == (if results@.dom().contains(name@) {
            results@[name@]
        } else {
            None
        }),
{
    match results.get(name) {
        Some(Some(findings)) => CallOutcome::Definitive(Some(findings.duplicate())),
        Some(None) => CallOutcome::Definitive(None),
        None => CallOutcome::Degraded(None),
    }
}

// ---------------------------------------------------------------------------
// One version
// ---------------------------------------------------------------------------

/// The URL of one version's findings; `None` for a name or version that is `.` or `..`, for which
/// there are none, for good.
pub fn start_version_findings(base: &str, system: DepsDevSystem, name: &str, version: &str) -> (r:
    Option<String>)
    ensures
        match r {
            Some(url) => addressable(name@, version@) && url@ == findings_url_of(
                base@,
                system,
                name@,
                version@,
            ),
            None => !addressable(name@, version@),
        },
{
    let n = chars_of(name);
    let v = chars_of(version);
    if is_dot_segment(n.as_slice()) || is_dot_segment(v.as_slice()) {
        return None;
    }
    Some(findings_url(base, system, name, version))
}

/// What the answer of a version's findings call amounts to. Only the findings of the version that
/// was asked for count: without them there is nothing to report, whatever is known of another
/// version.
pub fn version_findings_outcome(
    reply: Result<Option<GossipVersionFindingsWire>, CallFailure>,
) -> (r: CallOutcome<Option<GossipFindings>>)
    ensures
        match reply {
            Ok(Some(requested)) => r is Definitive && option_findings(r.value()) == Some(
                findings_of(requested),
            ),
            Ok(None) => r == CallOutcome::<Option<GossipFindings>>::Definitive(None),
            Err(CallFailure::NotFound) => r == CallOutcome::<Option<GossipFindings>>::Definitive(
                None,
            ),
            Err(CallFailure::Transient) => r == CallOutcome::<Option<GossipFindings>>::Degraded(
                None,
            ),
        },
{
    match reply {
        Ok(Some(requested)) => CallOutcome::Definitive(
            Some(gossip_findings_from_entry(&requested)),
        ),
        Ok(None) => CallOutcome::Definitive(None),
        Err(CallFailure::NotFound) => CallOutcome::Definitive(None),
        Err(CallFailure::Transient) => CallOutcome::Degraded(None),
    }
}

// ---------------------------------------------------------------------------
// Laws
// ---------------------------------------------------------------------------

/// A page that fails, whichever it is, leaves nothing of the batch: no package is taken for
/// answered.
pub proof fn law_failed_page_rejects_the_whole_batch(b: BatchModel)
    ensures
        after_batch_page(b, None).finished,
        after_batch_page(b, None).results == Map::<Seq<char>, Option<FindingsModel>>::empty(),
{
}

/// A batch takes at most as many pages as the bound allows.
pub proof fn law_batches_are_bounded(b: BatchModel, page: Option<GossipBatchPage>)
    requires
        b.pages + 1 >= GOSSIP_BATCH_MAX_PAGES,
    ensures
        after_batch_page(b, page).finished,
{
}

/// An answer for a package is never lost to answers for other packages.
pub proof fn law_answers_for_others_change_nothing(
    results: Map<Seq<char>, Option<FindingsModel>>,
    responses: Seq<GossipBatchEntry>,
    name: Seq<char>,
)
    requires
        forall|i: int| 0 <= i < responses.len() ==> (#[trigger] responses[i]).name@ != name,
    ensures
        with_answers(results, responses).dom().contains(name) == results.dom().contains(name),
        results.dom().contains(name) ==> with_answers(results, responses)[name] == results[name],
    decreases responses.len(),
{
    if responses.len() > 0 {
        let rest = responses.drop_last();
        assert forall|i: int| 0 <= i < rest.len() implies (#[trigger] rest[i]).name@ != name by {
            assert(responses[i].name@ != name);
        }
        law_answers_for_others_change_nothing(results, rest, name);
        assert(responses[responses.len() - 1].name@ != name);
    }
}

/// The last answer for a package counts: the findings of its default version, or the word that it
/// has none.
pub proof fn law_last_answer_for_a_package_counts(
    results: Map<Seq<char>, Option<FindingsModel>>,
    responses: Seq<GossipBatchEntry>,
    i: int,
)
    requires
        0 <= i < responses.len(),
        forall|j: int|
            i < j < responses.len() ==> (#[trigger] responses[j]).name@ != responses[i].name@,
    ensures
        ({
            let after = with_answers(results, responses);
            &&& after.dom().contains(responses[i].name@)
            &&& after[responses[i].name@] == (match responses[i].default_version {
                Some(version) => Some(findings_of(version)),
                None => None,
            })
        }),
    decreases responses.len(),
{
    if i < responses.len() - 1 {
        let rest = responses.drop_last();
        assert forall|j: int| i < j < rest.len() implies (#[trigger] rest[j]).name@
            != rest[i].name@ by {
            assert(responses[j].name@ != responses[i].name@);
        }
        law_last_answer_for_a_package_counts(results, rest, i);
        assert(responses[responses.len() - 1].name@ != responses[i].name@);
    }
}

/// A batch begins at the first page with nothing known, goes on at the token of the page it took
/// as long as there is one and the bound is not reached, and keeps what it knows.
pub proof fn law_batch_goes_on_at_the_next_page(b: BatchModel, page: GossipBatchPage)
    ensures
        batch_start().page_token is None && !batch_start().finished && batch_start().pages == 0,
        batch_start().results == Map::<Seq<char>, Option<FindingsModel>>::empty(),
        ({
            let after = after_batch_page(b, Some(page));
            &&& after.results == with_answers(b.results, page.responses@)
            &&& after.pages == b.pages + 1
            &&& page.next_page_token@.len() == 0 ==> after.finished
            &&& page.next_page_token@.len() > 0 ==> after.page_token == Some(
                page.next_page_token@,
            ) && (after.finished <==> b.pages + 1 >= GOSSIP_BATCH_MAX_PAGES)
        }),
{
}

} // verus!
