//! Pagination of a repository's tags.

use crate::error::DepsError;
use crate::github::pages::{parse_tags_page, tag_models, tags_outcome, GithubTag, TagModel};
use vstd::prelude::*;

verus! {

/// Maximum number of tag pages fetched per repository.
///
/// A safety ceiling against a repository with an unbounded number of tags, not what ends an
/// ordinary pagination: a page with fewer than 100 entries does. It must stay high, since tags
/// come in lexicographic order and the newest versions may stand on late pages.
pub const MAX_TAG_PAGES: u32 = 30;

/// Number of tag pages fetched concurrently per batch.
pub const CONCURRENCY: u32 = 5;

/// Whether a page came back full (100 entries), so that a further page may exist.
#[must_use]
pub fn page_has_more(page_len: usize) -> (r: bool)
    ensures
        r == full_page(page_len as nat),
{
    page_len >= 100
}

/// Whether a page of the given length is full.
pub open spec fn full_page(len: nat) -> bool {
    len >= 100
}

/// The warning about a list of tags that was cut at the page cap.
pub open spec fn truncation_warning(ecosystem: Seq<char>, name: Seq<char>) -> Seq<char> {
    ecosystem + " tags pagination for '"@ + name
        + "' stopped at the 30-page cap while GitHub reported more pages available; the fetched version list may be truncated"@
}

/// The warning to log when the pagination of `name` stops at [`MAX_TAG_PAGES`] while GitHub
/// still had more pages: without it the cut would look like a repository without a matching
/// version.
pub fn warn_if_pagination_truncated(
    ecosystem: &str,
    name: &str,
    page: u32,
    page_len: usize,
) -> (r: Option<String>)
    ensures
        match r {
            Some(text) => page == MAX_TAG_PAGES && full_page(page_len as nat) && text@
                == truncation_warning(ecosystem@, name@),
            None => !(page == MAX_TAG_PAGES && full_page(page_len as nat)),
        },
{
    if page == MAX_TAG_PAGES && page_has_more(page_len) {
        let mut text = ecosystem.to_owned();
        text.append(" tags pagination for '");
        text.append(name);
        text.append(
            "' stopped at the 30-page cap while GitHub reported more pages available; the fetched version list may be truncated",
        );
        Some(text)
    } else {
        None
    }
}

// ---------------------------------------------------------------------------
// Model
// ---------------------------------------------------------------------------

/// Why a page yields no tags.
pub enum PageError {
    /// The page could not be fetched.
    Fetch(DepsError),
    /// The page is an error object.
    Api(Seq<char>),
}

/// What the fetch of a page yields.
pub open spec fn page_outcome(fetched: Result<Vec<u8>, DepsError>) -> Result<
    Seq<TagModel>,
    PageError,
> {
    match fetched {
        Err(e) => Err(PageError::Fetch(e)),
        Ok(data) => match tags_outcome(data@) {
            Ok(tags) => Ok(tags),
            Err(text) => Err(PageError::Api(text)),
        },
    }
}

/// Whether `e` reports the given failure of a page.
pub open spec fn reports(e: DepsError, failure: PageError) -> bool {
    match failure {
        PageError::Fetch(cause) => e == cause,
        PageError::Api(text) => e matches DepsError::CacheError(t) && t@ == text,
    }
}

/// Where a pagination stands.
pub struct PaginationModel {
    /// The tags collected so far, in page order.
    pub tags: Seq<TagModel>,
    /// The page that comes next.
    pub next_page: int,
    /// Whether no further page is wanted.
    pub finished: bool,
}

/// A pagination before its first page.
pub open spec fn pagination_start() -> PaginationModel {
    PaginationModel { tags: Seq::empty(), next_page: 1, finished: false }
}

/// A pagination after one more page: it ends with the first page that is not full, and at the
/// cap.
pub open spec fn after_page(p: PaginationModel, tags: Seq<TagModel>) -> PaginationModel {
    PaginationModel {
        tags: p.tags + tags,
        next_page: p.next_page + 1,
        finished: !full_page(tags.len()) || p.next_page >= MAX_TAG_PAGES,
    }
}

/// The pages to request together: the first page alone, the others in batches.
pub open spec fn batch_of(p: PaginationModel) -> Option<(int, int)> {
    if p.finished {
        None
    } else if p.next_page == 1 {
        Some((1, 1))
    } else if p.next_page + CONCURRENCY - 1 <= MAX_TAG_PAGES {
        Some((p.next_page, p.next_page + CONCURRENCY - 1))
    } else {
        Some((p.next_page, MAX_TAG_PAGES as int))
    }
}

/// The tags of a repository whose pages are `pages`, in order: those of every page up to and
/// including the first that is not full, or up to the cap; the failure of the first of these
/// pages that failed.
pub open spec fn paginated(
    pages: Seq<Result<Vec<u8>, DepsError>>,
    p: PaginationModel,
) -> Result<PaginationModel, PageError>
    decreases pages.len(),
{
    if p.finished || pages.len() == 0 {
        Ok(p)
    } else {
        match page_outcome(pages[0]) {
            Err(failure) => Err(failure),
            Ok(tags) => paginated(pages.drop_first(), after_page(p, tags)),
        }
    }
}

/// Drives the pagination of one repository's tags.
///
/// Ask [`Self::next_batch`] for the pages to fetch, hand each of them to [`Self::accept_page`]
/// in page order, and stop once it is finished: pages of a batch behind the last one wanted are
/// discarded. Page 1 is a batch of its own, so that a repository with one page costs one
/// request and a failing first page is not fanned out.
pub struct TagPagination {
    tags: Vec<GithubTag>,
    next_page: u32,
    finished: bool,
}

impl View for TagPagination {
    type V = PaginationModel;

    closed spec fn view(&self) -> PaginationModel {
        PaginationModel {
            tags: tag_models(self.tags@),
            next_page: self.next_page as int,
            finished: self.finished,
        }
    }
}

impl TagPagination {
    /// The pagination is within the page cap.
    pub closed spec fn wf(&self) -> bool {
        &&& 1 <= self.next_page <= MAX_TAG_PAGES + 1
        &&& !self.finished ==> self.next_page <= MAX_TAG_PAGES
    }

    /// A pagination before its first page.
    pub fn new() -> (r: Self)
        ensures
            r.wf(),
            r@ == pagination_start(),
    {
        let r = TagPagination { tags: Vec::new(), next_page: 1, finished: false };
        proof {
            assert(r@.tags =~= Seq::<TagModel>::empty());
        }
        r
    }

    /// The pages to fetch next, first and last; `None` once no further page is wanted.
    pub fn next_batch(&self) -> (r: Option<(u32, u32)>)
        requires
            self.wf(),
        ensures
            match r {
                Some((first, last)) => batch_of(self@) == Some((first as int, last as int)),
                None => batch_of(self@) is None,
            },
    {
        if self.finished {
            None
        } else if self.next_page == 1 {
            Some((1, 1))
        } else if self.next_page + CONCURRENCY - 1 <= MAX_TAG_PAGES {
            Some((self.next_page, self.next_page + CONCURRENCY - 1))
        } else {
            Some((self.next_page, MAX_TAG_PAGES))
        }
    }

    /// Takes the next page as it was fetched. Returns the warning to log, if the page is the
    /// last one under the cap and still full. A page that comes after the end is discarded.
    ///
    /// # Errors
    ///
    /// The error of the fetch, or that of [`parse_tags_page`] when the body is an error object.
    pub fn accept_page(
        &mut self,
        ecosystem: &str,
        name: &str,
        fetched: Result<Vec<u8>, DepsError>,
    ) -> (r: Result<Option<String>, DepsError>)
        requires
            old(self).wf(),
        ensures
            final(self).wf(),
            if old(self)@.finished {
                r matches Ok(None) && final(self)@ == old(self)@
            } else {
                match page_outcome(fetched) {
                    Err(failure) => (r matches Err(e) && reports(e, failure)) && final(self)@
                        == old(self)@,
                    Ok(tags) => {
                        &&& r is Ok
                        &&& final(self)@ == after_page(old(self)@, tags)
                        &&& match r->Ok_0 {
                            Some(text) => old(self)@.next_page == MAX_TAG_PAGES && full_page(
                                tags.len(),
                            ) && text@ == truncation_warning(ecosystem@, name@),
                            None => !(old(self)@.next_page == MAX_TAG_PAGES && full_page(
                                tags.len(),
                            )),
                        }
                    },
                }
            },
    {
        if self.finished {
            return Ok(None);
        }
        let body = match fetched {
            Ok(body) => body,
            Err(e) => {
                return Err(e);
            },
        };
        let mut page_tags = match parse_tags_page(body.as_slice()) {
            Ok(tags) => tags,
            Err(e) => {
                return Err(e);
            },
        };
        let page_len: usize = page_tags.len();
        let page: u32 = self.next_page;
        let ghost before = self.tags@;
        let ghost added = page_tags@;
        self.tags.append(&mut page_tags);
        proof {
            assert(tag_models(self.tags@) =~= tag_models(before) + tag_models(added));
        }
        let more = page_has_more(page_len);
        let warning = warn_if_pagination_truncated(ecosystem, name, page, page_len);
        if !more || page >= MAX_TAG_PAGES {
            self.finished = true;
        }
        self.next_page = page + 1;
        Ok(warning)
    }

    /// The tags collected, in page order.
    pub fn into_tags(self) -> (r: Vec<GithubTag>)
        ensures
            tag_models(r@) == self@.tags,
    {
        self.tags
    }
}

/// The tags of a repository whose pages, as they were fetched, are `pages` in page order.
///
/// # Errors
///
/// The error of the first page wanted that could not be fetched or is an error object.
pub fn paginate_tags(
    ecosystem: &str,
    name: &str,
    pages: Vec<Result<Vec<u8>, DepsError>>,
) -> (r: Result<Vec<GithubTag>, DepsError>)
    ensures
        match paginated(pages@, pagination_start()) {
            Ok(p) => r matches Ok(tags) && tag_models(tags@) == p.tags,
            Err(failure) => r matches Err(e) && reports(e, failure),
        },
{
    let ghost all = pages@;
    let mut state = TagPagination::new();
    proof {
        assert(all.skip(0) =~= all);
    }
    for page in it: pages
        invariant
            it.seq() == all,
            state.wf(),
            paginated(all.skip(it.index()), state@) == paginated(all, pagination_start()),
    {
        proof {
            let rest = all.skip(it.index());
            assert(rest[0] == page);
            assert(rest.drop_first() =~= all.skip(it.index() + 1));
        }
        match state.accept_page(ecosystem, name, page) {
            Err(e) => {
                return Err(e);
            },
            Ok(_) => {},
        }
    }
    Ok(state.into_tags())
}

// ---------------------------------------------------------------------------
// Laws
// ---------------------------------------------------------------------------

/// A batch never reaches beyond the page cap and never holds more pages than are fetched
/// concurrently; it begins with the page that comes next.
pub proof fn law_batches_respect_the_cap(p: PaginationModel)
    requires
        1 <= p.next_page <= MAX_TAG_PAGES,
        !p.finished,
    ensures
        batch_of(p) matches Some((first, last)) && first == p.next_page && first <= last
            <= MAX_TAG_PAGES && last - first < CONCURRENCY,
{
}

/// A pagination whose first page is not full asks for no further page.
pub proof fn law_single_page_repository_costs_one_request(tags: Seq<TagModel>)
    requires
        tags.len() < 100,
    ensures
        batch_of(pagination_start()) == Some((1int, 1int)),
        batch_of(after_page(pagination_start(), tags)) is None,
{
}

/// Tags come out in page order: what was collected stays in front of what a later page adds.
pub proof fn law_pages_keep_their_order(
    pages: Seq<Result<Vec<u8>, DepsError>>,
    p: PaginationModel,
)
    requires
        paginated(pages, p) is Ok,
    ensures
        p.tags.is_prefix_of(paginated(pages, p)->Ok_0.tags),
    decreases pages.len(),
{
    if !p.finished && pages.len() > 0 {
        let tags = page_outcome(pages[0])->Ok_0;
        let q = after_page(p, tags);
        law_pages_keep_their_order(pages.drop_first(), q);
        let end = paginated(pages, p)->Ok_0.tags;
        assert(end.take(p.tags.len() as int) =~= p.tags) by {
            assert(end.take(q.tags.len() as int) == q.tags);
            assert forall|i: int| 0 <= i < p.tags.len() implies end[i] == p.tags[i] by {
                assert(end.take(q.tags.len() as int)[i] == q.tags[i]);
            }
        }
    } else {
        assert(p.tags.take(p.tags.len() as int) =~= p.tags);
    }
}

/// At most as many pages as the cap allows are ever taken.
pub proof fn law_pagination_stops_at_the_cap(p: PaginationModel, tags: Seq<TagModel>)
    requires
        p.next_page >= MAX_TAG_PAGES,
    ensures
        after_page(p, tags).finished,
{
}

/// A page with fewer than a hundred tags is the last one, and so is the thirtieth; every other is
/// followed by the next.
pub proof fn law_which_page_is_the_last(p: PaginationModel, tags: Seq<TagModel>)
    ensures
        after_page(p, tags).finished <==> tags.len() < 100 || p.next_page >= 30,
        after_page(p, tags).next_page == p.next_page + 1,
        after_page(p, tags).tags == p.tags + tags,
        pagination_start().next_page == 1 && !pagination_start().finished
            && pagination_start().tags.len() == 0,
{
}

/// Behind the first page, as many pages are asked for at once as are fetched concurrently, or as
/// are left under the cap.
pub proof fn law_batches_are_as_large_as_allowed(p: PaginationModel)
    requires
        !p.finished,
    ensures
        p.next_page == 1 ==> batch_of(p) == Some((1int, 1int)),
        1 < p.next_page <= 26 ==> batch_of(p) == Some((p.next_page, p.next_page + 4)),
        26 < p.next_page <= 30 ==> batch_of(p) == Some((p.next_page, 30int)),
{
}

/// The tags of the pages, one after the other.
pub open spec fn tags_of_pages(pages: Seq<Result<Vec<u8>, DepsError>>) -> Seq<TagModel>
    decreases pages.len(),
{
    if pages.len() == 0 {
        Seq::empty()
    } else {
        (match page_outcome(pages[0]) {
            Ok(tags) => tags,
            Err(_) => Seq::empty(),
        }) + tags_of_pages(pages.drop_first())
    }
}

/// A pagination that succeeds has the tags of every page up to the last one wanted, in order and
/// with nothing left out: all of these pages were read, and all of them but the last were full.
pub proof fn law_pagination_collects_every_page(
    pages: Seq<Result<Vec<u8>, DepsError>>,
    p: PaginationModel,
)
    requires
        paginated(pages, p) is Ok,
        !p.finished,
    ensures
        ({
            let end = paginated(pages, p)->Ok_0;
            let n = end.next_page - p.next_page;
            &&& 0 <= n <= pages.len()
            &&& end.tags == p.tags + tags_of_pages(pages.take(n))
            &&& forall|i: int| 0 <= i < n ==> page_outcome(#[trigger] pages[i]) is Ok
            &&& forall|i: int|
                0 <= i < n - 1 ==> page_outcome(#[trigger] pages[i])->Ok_0.len() >= 100
            &&& end.finished <==> n > 0 && (page_outcome(pages[n - 1])->Ok_0.len() < 100
                || end.next_page > 30)
            &&& !end.finished ==> n == pages.len()
        }),
    decreases pages.len(),
{
    let end = paginated(pages, p)->Ok_0;
    let n = end.next_page - p.next_page;
    if pages.len() == 0 {
        assert(pages.take(0) =~= pages);
        assert(p.tags + tags_of_pages(pages.take(0)) =~= p.tags);
    } else {
        let tags = page_outcome(pages[0])->Ok_0;
        let q = after_page(p, tags);
        let rest = pages.drop_first();
        if q.finished {
            assert(paginated(rest, q) == Ok::<PaginationModel, PageError>(q));
            assert(end == q);
            let none = Seq::<Result<Vec<u8>, DepsError>>::empty();
            assert(tags_of_pages(none) =~= Seq::<TagModel>::empty());
            assert(pages.take(1).drop_first() =~= Seq::<Result<Vec<u8>, DepsError>>::empty());
            assert(pages.take(1)[0] == pages[0]);
            assert(tags_of_pages(pages.take(1)) =~= tags);
        } else {
            law_pagination_collects_every_page(rest, q);
            let m = n - 1;
            assert(pages.take(n).drop_first() =~= rest.take(m));
            assert(pages.take(n)[0] == pages[0]);
            assert(p.tags + tags_of_pages(pages.take(n)) =~= q.tags + tags_of_pages(rest.take(m)));
            assert forall|i: int| 0 <= i < n implies page_outcome(#[trigger] pages[i]) is Ok by {
                if i > 0 {
                    assert(rest[i - 1] == pages[i]);
                    assert(page_outcome(rest[i - 1]) is Ok);
                }
            }
            assert forall|i: int| 0 <= i < n - 1 implies page_outcome(
                #[trigger] pages[i],
            )->Ok_0.len() >= 100 by {
                if i > 0 {
                    assert(rest[i - 1] == pages[i]);
                    assert(page_outcome(rest[i - 1])->Ok_0.len() >= 100);
                }
            }
            if m > 0 {
                assert(rest[m - 1] == pages[n - 1]);
            }
        }
    }
}

/// A pagination fails with the failure of the first page wanted that failed, and only there.
pub proof fn law_first_failing_page_decides(
    pages: Seq<Result<Vec<u8>, DepsError>>,
    p: PaginationModel,
    i: int,
)
    requires
        !p.finished,
        1 <= p.next_page,
        0 <= i < pages.len(),
        p.next_page + i <= 30,
        page_outcome(pages[i]) is Err,
        forall|j: int|
            0 <= j < i ==> (page_outcome(#[trigger] pages[j]) matches Ok(tags) && tags.len()
                >= 100),
    ensures
        paginated(pages, p) matches Err(failure) && page_outcome(pages[i]) == Err::<
            Seq<TagModel>,
            PageError,
        >(failure),
    decreases pages.len(),
{
    if i > 0 {
        let rest = pages.drop_first();
        assert(page_outcome(pages[0]) is Ok && page_outcome(pages[0])->Ok_0.len() >= 100);
        let q = after_page(p, page_outcome(pages[0])->Ok_0);
        assert forall|j: int| 0 <= j < i - 1 implies (page_outcome(#[trigger] rest[j]) matches Ok(
            tags,
        ) && tags.len() >= 100) by {
            assert(page_outcome(pages[j + 1]) is Ok);
        }
        law_first_failing_page_decides(rest, q, i - 1);
    }
}

/// A page that could not be fetched fails with the cause, one that is an error object with its
/// message; any other gives the tags that it holds.
pub proof fn law_outcome_of_a_page(cause: DepsError, data: Vec<u8>, e: DepsError)
    ensures
        page_outcome(Err(cause)) == Err::<Seq<TagModel>, PageError>(PageError::Fetch(cause)),
        tags_outcome(data@) matches Ok(tags) ==> page_outcome(Ok(data)) == Ok::<
            Seq<TagModel>,
            PageError,
        >(tags),
        tags_outcome(data@) matches Err(text) ==> page_outcome(Ok(data)) == Err::<
            Seq<TagModel>,
            PageError,
        >(PageError::Api(text)),
        reports(e, PageError::Fetch(cause)) ==> e == cause,
{
}

} // verus!
