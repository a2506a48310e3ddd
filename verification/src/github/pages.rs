//! Decoding of the pages of the GitHub API.

use crate::edit::classify::without_v;
use crate::error::DepsError;
use crate::formatter::option_string;
use crate::freshness::{rfc3339_seconds, PublishTime};
use crate::github::identity::normalize_tag;
use crate::json::{
    json_flag, json_optional_string, json_string, members_field, read_flag, read_optional_string,
    read_shape,
    read_string, record_like, shape_field, shape_of, value_texts, FieldModel, JsonField, JsonShape,
    ShapeModel,
};
use crate::text::same_text;
use vstd::prelude::*;

verus! {

/// The tagged commit of a [`GithubTag`].
#[derive(Debug, Clone, PartialEq, Eq)]
pub struct GithubTagCommit {
    /// The commit's hash; empty where the page leaves it out.
    pub sha: String,
}

impl Default for GithubTagCommit {
    fn default() -> (r: Self)
        ensures
            r.sha@ == Seq::<char>::empty(),
    {
        GithubTagCommit { sha: String::new() }
    }
}

/// One tag of a repository.
#[derive(Debug, Clone, PartialEq, Eq)]
pub struct GithubTag {
    /// The tag's name.
    pub name: String,
    /// The tagged commit.
    pub commit: GithubTagCommit,
}

impl Default for GithubTag {
    fn default() -> (r: Self)
        ensures
            r@ == (TagModel { name: Seq::empty(), sha: Seq::empty() }),
    {
        GithubTag { name: String::new(), commit: GithubTagCommit::default() }
    }
}

/// The contents of a [`GithubTag`].
pub struct TagModel {
    /// The tag's name.
    pub name: Seq<char>,
    /// The hash of the tagged commit.
    pub sha: Seq<char>,
}

impl View for GithubTag {
    type V = TagModel;

    open spec fn view(&self) -> TagModel {
        TagModel { name: self.name@, sha: self.commit.sha@ }
    }
}

/// The contents of a list of tags.
pub open spec fn tag_models(tags: Seq<GithubTag>) -> Seq<TagModel> {
    tags.map_values(|t: GithubTag| t@)
}

// ---------------------------------------------------------------------------
// Tags
// ---------------------------------------------------------------------------

/// The hash in a commit: empty where it is left out.
pub open spec fn commit_sha(commit: Seq<u8>) -> Option<Seq<char>> {
    let shape = shape_of(commit);
    if !record_like(shape, 1) {
        None
    } else {
        match shape_field(shape, "sha"@, 0) {
            FieldModel::Absent => Some(Seq::empty()),
            FieldModel::Once(sha) => json_string(sha),
            FieldModel::Repeated => None,
        }
    }
}

/// The text of a field that is required.
pub open spec fn required_text(field: FieldModel) -> Option<Seq<char>> {
    match field {
        FieldModel::Once(value) => json_string(value),
        _ => None,
    }
}

/// The tag that an entry of a page denotes. The name is required, the commit is not. Neither may
/// be repeated.
pub open spec fn tag_of(entry: Seq<u8>) -> Option<TagModel> {
    let shape = shape_of(entry);
    if !record_like(shape, 2) {
        None
    } else {
        match required_text(shape_field(shape, "name"@, 0)) {
            None => None,
            Some(name) => match shape_field(shape, "commit"@, 1) {
                FieldModel::Absent => Some(TagModel { name, sha: Seq::empty() }),
                FieldModel::Once(commit) => match commit_sha(commit) {
                    Some(sha) => Some(TagModel { name, sha }),
                    None => None,
                },
                FieldModel::Repeated => None,
            },
        }
    }
}

/// The tags of a page, nothing if one of its entries is no tag.
pub open spec fn tags_of(entries: Seq<Seq<u8>>) -> Option<Seq<TagModel>>
    decreases entries.len(),
{
    if entries.len() == 0 {
        Some(Seq::empty())
    } else {
        match (tags_of(entries.drop_last()), tag_of(entries.last())) {
            (Some(before), Some(tag)) => Some(before.push(tag)),
            _ => None,
        }
    }
}

/// The tags of a body, nothing if it is no page of tags.
pub open spec fn tags_page(body: Seq<u8>) -> Option<Seq<TagModel>> {
    match shape_of(body) {
        ShapeModel::List(entries) => tags_of(entries),
        _ => None,
    }
}

/// The message of an error object, which the API sends instead of a page.
pub open spec fn api_error(body: Seq<u8>) -> Option<Seq<char>> {
    let shape = shape_of(body);
    if record_like(shape, 1) {
        required_text(shape_field(shape, "message"@, 0))
    } else {
        None
    }
}

/// What a body yields that holds these tags, or else this message of an error object: its tags;
/// the message, as an error; nothing where there is neither.
pub open spec fn page_outcome(
    tags: Option<Seq<TagModel>>,
    message: Option<Seq<char>>,
) -> Result<Seq<TagModel>, Seq<char>> {
    match tags {
        Some(tags) => Ok(tags),
        None => match message {
            Some(message) => Err("GitHub API error: "@ + message),
            None => Ok(Seq::empty()),
        },
    }
}

/// What a page of the tags API yields.
pub open spec fn tags_outcome(body: Seq<u8>) -> Result<Seq<TagModel>, Seq<char>> {
    page_outcome(tags_page(body), api_error(body))
}

/// The contents of an optional list of tags.
pub open spec fn option_tags(tags: Option<Vec<GithubTag>>) -> Option<Seq<TagModel>> {
    match tags {
        Some(tags) => Some(tag_models(tags@)),
        None => None,
    }
}

/// Whether `r` is the given outcome.
pub open spec fn is_tags_outcome(
    r: Result<Vec<GithubTag>, DepsError>,
    outcome: Result<Seq<TagModel>, Seq<char>>,
) -> bool {
    match r {
        Ok(tags) => outcome == Ok::<Seq<TagModel>, Seq<char>>(tag_models(tags@)),
        Err(e) => e matches DepsError::CacheError(text) && outcome == Err::<
            Seq<TagModel>,
            Seq<char>,
        >(text@),
    }
}

fn decode_required_text(field: &JsonField<'_>) -> (r: Option<String>)
    ensures
        option_string(r) == required_text(field@),
{
    match field {
        JsonField::Once(value) => read_string(value),
        _ => None,
    }
}

fn decode_commit(commit: &[u8]) -> (r: Option<GithubTagCommit>)
    ensures
        match r {
            Some(decoded) => commit_sha(commit@) == Some(decoded.sha@),
            None => commit_sha(commit@) is None,
        },
{
    let shape = read_shape(commit);
    if !shape.is_record_like(1) {
        return None;
    }
    match shape.field("sha", 0) {
        JsonField::Absent => Some(GithubTagCommit::default()),
        JsonField::Once(sha) => match read_string(sha) {
            Some(sha) => Some(GithubTagCommit { sha }),
            None => None,
        },
        JsonField::Repeated => None,
    }
}

fn decode_tag(entry: &[u8]) -> (r: Option<GithubTag>)
    ensures
        match r {
            Some(tag) => tag_of(entry@) == Some(tag@),
            None => tag_of(entry@) is None,
        },
{
    let shape = read_shape(entry);
    if !shape.is_record_like(2) {
        return None;
    }
    let name = match decode_required_text(&shape.field("name", 0)) {
        Some(name) => name,
        None => {
            return None;
        },
    };
    match shape.field("commit", 1) {
        JsonField::Absent => Some(GithubTag { name, commit: GithubTagCommit::default() }),
        JsonField::Once(commit) => match decode_commit(commit) {
            Some(commit) => Some(GithubTag { name, commit }),
            None => None,
        },
        JsonField::Repeated => None,
    }
}

proof fn lemma_tags_of_prefix(xs: Seq<Seq<u8>>, n: int)
    requires
        0 <= n <= xs.len(),
        tags_of(xs.take(n)) is None,
    ensures
        tags_of(xs) is None,
    decreases xs.len(),
{
    if n < xs.len() {
        assert(xs.drop_last().take(n) =~= xs.take(n));
        lemma_tags_of_prefix(xs.drop_last(), n);
    } else {
        assert(xs.take(n) =~= xs);
    }
}

fn decode_tags(items: &Vec<&[u8]>) -> (r: Option<Vec<GithubTag>>)
    ensures
        match r {
            Some(tags) => tags_of(value_texts(items@)) == Some(tag_models(tags@)),
            None => tags_of(value_texts(items@)) is None,
        },
{
    let ghost xs = value_texts(items@);
    let mut tags: Vec<GithubTag> = Vec::new();
    let mut i: usize = 0;
    proof {
        assert(xs.take(0) =~= Seq::<Seq<u8>>::empty());
        assert(tag_models(tags@) =~= Seq::<TagModel>::empty());
    }
    while i < items.len()
        invariant
            i <= items@.len(),
            xs == value_texts(items@),
            tags_of(xs.take(i as int)) == Some(tag_models(tags@)),
        decreases items@.len() - i,
    {
        proof {
            assert(xs.take(i + 1).drop_last() =~= xs.take(i as int));
            assert(xs.take(i + 1).last() == items@[i as int]@);
        }
        match decode_tag(items[i]) {
            None => {
                proof {
                    lemma_tags_of_prefix(xs, i + 1);
                }
                return None;
            },
            Some(tag) => {
                let ghost before = tags@;
                tags.push(tag);
                proof {
                    assert(tag_models(tags@) =~= tag_models(before).push(tag@));
                }
            },
        }
        i += 1;
    }
    proof {
        assert(xs.take(i as int) =~= xs);
    }
    Some(tags)
}

/// What a body of the tags API yields that holds `tags`, if it is a page of tags, or else
/// `message`, if it is an error object.
///
/// # Errors
///
/// [`DepsError::CacheError`] with the message where there are no tags.
pub fn tags_page_outcome(tags: Option<Vec<GithubTag>>, message: Option<String>) -> (r: Result<
    Vec<GithubTag>,
    DepsError,
>)
    ensures
        is_tags_outcome(r, page_outcome(option_tags(tags), option_string(message))),
{
    match tags {
        Some(tags) => Ok(tags),
        None => match message {
            Some(message) => {
                let mut text = "GitHub API error: ".to_owned();
                text.append(message.as_str());
                Err(DepsError::CacheError(text))
            },
            None => {
                let none: Vec<GithubTag> = Vec::new();
                proof {
                    assert(tag_models(none@) =~= Seq::<TagModel>::empty());
                }
                Ok(none)
            },
        },
    }
}

/// Parses a single page of the GitHub tags API into raw tag entries.
///
/// GitHub returns an error object instead of an array when rate-limited or on other errors. A
/// body that is neither a page of tags nor a recognizable error object is an empty page. Fields
/// that are not read are passed over, whatever they hold; one that is read may not be repeated.
///
/// # Errors
///
/// [`DepsError::CacheError`] with the message when `data` is a GitHub error object.
pub fn parse_tags_page(data: &[u8]) -> (r: Result<Vec<GithubTag>, DepsError>)
    ensures
        is_tags_outcome(r, tags_outcome(data@)),
{
    let shape = read_shape(data);
    let tags = match &shape {
        JsonShape::List(entries) => decode_tags(entries),
        _ => None,
    };
    let message = if shape.is_record_like(1) {
        decode_required_text(&shape.field("message", 0))
    } else {
        None
    };
    tags_page_outcome(tags, message)
}

// ---------------------------------------------------------------------------
// Releases
// ---------------------------------------------------------------------------

/// One release of a repository.
#[derive(Debug, Clone, PartialEq, Eq)]
pub struct GithubRelease {
    /// The tag that the release points at.
    pub tag_name: String,
    /// When the release was published, as an RFC 3339 timestamp.
    pub published_at: Option<String>,
    /// Whether the release is a draft.
    pub draft: bool,
}

/// The contents of a [`GithubRelease`].
pub struct ReleaseModel {
    /// The tag.
    pub tag_name: Seq<char>,
    /// The timestamp.
    pub published_at: Option<Seq<char>>,
    /// Whether the release is a draft.
    pub draft: bool,
}

impl View for GithubRelease {
    type V = ReleaseModel;

    open spec fn view(&self) -> ReleaseModel {
        ReleaseModel {
            tag_name: self.tag_name@,
            published_at: option_string(self.published_at),
            draft: self.draft,
        }
    }
}

/// The timestamp of a release: `null` and, in an object, a missing field stand for none.
pub open spec fn release_timestamp(shape: ShapeModel) -> Option<Option<Seq<char>>> {
    match shape_field(shape, "published_at"@, 1) {
        FieldModel::Absent => if shape is Record {
            Some(None)
        } else {
            None
        },
        FieldModel::Once(value) => json_optional_string(value),
        FieldModel::Repeated => None,
    }
}

/// Whether a release is a draft: not unless it says so.
pub open spec fn release_draft(shape: ShapeModel) -> Option<bool> {
    match shape_field(shape, "draft"@, 2) {
        FieldModel::Absent => Some(false),
        FieldModel::Once(value) => json_flag(value),
        FieldModel::Repeated => None,
    }
}

/// The release that an entry of a page denotes. No field may be repeated.
pub open spec fn release_of(entry: Seq<u8>) -> Option<ReleaseModel> {
    let shape = shape_of(entry);
    if !record_like(shape, 3) {
        None
    } else {
        match (
            required_text(shape_field(shape, "tag_name"@, 0)),
            release_timestamp(shape),
            release_draft(shape),
        ) {
            (Some(tag_name), Some(published_at), Some(draft)) => Some(
                ReleaseModel { tag_name, published_at, draft },
            ),
            _ => None,
        }
    }
}

/// The releases of a page, nothing if one of its entries is no release.
pub open spec fn releases_of(xs: Seq<Seq<u8>>) -> Option<Seq<ReleaseModel>>
    decreases xs.len(),
{
    if xs.len() == 0 {
        Some(Seq::empty())
    } else {
        match (releases_of(xs.drop_last()), release_of(xs.last())) {
            (Some(before), Some(release)) => Some(before.push(release)),
            _ => None,
        }
    }
}

/// When a release was published: nothing for a draft, for a release without a timestamp, and
/// for a timestamp that does not parse.
pub open spec fn release_time(release: ReleaseModel) -> Option<i64> {
    if release.draft {
        None
    } else {
        match release.published_at {
            Some(s) => rfc3339_seconds(s),
            None => None,
        }
    }
}

/// The publish times of the releases by normalized tag; the first release of a tag counts.
pub open spec fn release_times(releases: Seq<ReleaseModel>) -> Map<Seq<char>, i64>
    decreases releases.len(),
{
    if releases.len() == 0 {
        Map::empty()
    } else {
        let before = release_times(releases.drop_last());
        let tag = without_v(releases.last().tag_name);
        match release_time(releases.last()) {
            Some(t) => if before.dom().contains(tag) {
                before
            } else {
                before.insert(tag, t)
            },
            None => before,
        }
    }
}

/// The publish times of a body, nothing if it is no page of releases.
pub open spec fn releases_page(body: Seq<u8>) -> Option<Map<Seq<char>, i64>> {
    match shape_of(body) {
        ShapeModel::List(entries) => match releases_of(entries) {
            Some(releases) => Some(release_times(releases)),
            None => None,
        },
        _ => None,
    }
}

/// Publish times by normalized tag. Each tag has one.
pub struct ReleaseDates {
    entries: Vec<(String, PublishTime)>,
}

spec fn entry_map(entries: Seq<(String, PublishTime)>) -> Map<Seq<char>, i64>
    decreases entries.len(),
{
    if entries.len() == 0 {
        Map::empty()
    } else {
        entry_map(entries.drop_last()).insert(entries.last().0@, entries.last().1.secs())
    }
}

impl View for ReleaseDates {
    type V = Map<Seq<char>, i64>;

    closed spec fn view(&self) -> Map<Seq<char>, i64> {
        entry_map(self.entries@)
    }
}

impl ReleaseDates {
    #[verifier::type_invariant]
    spec fn tags_are_distinct(&self) -> bool {
        forall|i: int, j: int|
            0 <= i < j < self.entries@.len() ==> (#[trigger] self.entries@[i]).0@ != (
            #[trigger] self.entries@[j]).0@
    }

    /// No dates.
    pub fn new() -> (r: Self)
        ensures
            r@ == Map::<Seq<char>, i64>::empty(),
    {
        ReleaseDates { entries: Vec::new() }
    }

    /// How many tags have a date.
    pub fn len(&self) -> (r: usize)
        ensures
            self@.dom().finite(),
            r == self@.dom().len(),
    {
        proof {
            use_type_invariant(self);
            lemma_entry_count(self.entries@);
        }
        self.entries.len()
    }

    /// Whether no tag has a date.
    pub fn is_empty(&self) -> (r: bool)
        ensures
            r == (self@ == Map::<Seq<char>, i64>::empty()),
    {
        proof {
            if self.entries@.len() > 0 {
                let last = self.entries@.last().0@;
                assert(self@.dom().contains(last));
                assert(!Map::<Seq<char>, i64>::empty().dom().contains(last));
            }
        }
        self.entries.len() == 0
    }

    /// When the release with the given normalized tag was published.
    pub fn get(&self, tag: &str) -> (r: Option<PublishTime>)
        ensures
            match r {
                Some(t) => self@.dom().contains(tag@) && self@[tag@] == t.secs(),
                None => !self@.dom().contains(tag@),
            },
    {
        let mut i: usize = self.entries.len();
        proof {
            assert(self.entries@.take(i as int) =~= self.entries@);
        }
        while i > 0
            invariant
                i <= self.entries@.len(),
                entry_map(self.entries@.take(i as int)).dom().contains(tag@)
                    == self@.dom().contains(tag@),
                self@.dom().contains(tag@) ==> entry_map(self.entries@.take(i as int))[tag@]
                    == self@[tag@],
            decreases i,
        {
            proof {
                assert(self.entries@.take(i as int).drop_last() =~= self.entries@.take(i - 1));
                assert(self.entries@.take(i as int).last() == self.entries@[i - 1]);
            }
            i -= 1;
            if same_text(self.entries[i].0.as_str(), tag) {
                return Some(self.entries[i].1);
            }
        }
        None
    }

    /// Whether the normalized tag has a date.
    pub fn contains_key(&self, tag: &str) -> (r: bool)
        ensures
            r == self@.dom().contains(tag@),
    {
        self.get(tag).is_some()
    }

    /// The same dates once more.
    pub fn duplicate(&self) -> (r: Self)
        ensures
            r@ == self@,
    {
        proof {
            use_type_invariant(self);
        }
        let mut entries: Vec<(String, PublishTime)> = Vec::new();
        let mut i: usize = 0;
        while i < self.entries.len()
            invariant
                i <= self.entries@.len(),
                entries@.len() == i,
                forall|k: int| 0 <= k < i ==> #[trigger] entries@[k] == self.entries@[k],
            decreases self.entries@.len() - i,
        {
            entries.push((self.entries[i].0.clone(), self.entries[i].1));
            i += 1;
        }
        proof {
            assert(entries@ =~= self.entries@);
        }
        ReleaseDates { entries }
    }
}

proof fn lemma_entry_count(entries: Seq<(String, PublishTime)>)
    requires
        forall|i: int, j: int|
            0 <= i < j < entries.len() ==> (#[trigger] entries[i]).0@ != (
            #[trigger] entries[j]).0@,
    ensures
        entry_map(entries).dom().finite(),
        entry_map(entries).dom().len() == entries.len(),
        forall|k: Seq<char>|
            entry_map(entries).dom().contains(k) <==> exists|i: int|
                0 <= i < entries.len() && (#[trigger] entries[i]).0@ == k,
    decreases entries.len(),
{
    if entries.len() > 0 {
        let rest = entries.drop_last();
        assert forall|i: int, j: int| 0 <= i < j < rest.len() implies (#[trigger] rest[i]).0@ != (
        #[trigger] rest[j]).0@ by {
            assert(entries[i].0@ != entries[j].0@);
        }
        lemma_entry_count(rest);
        let last = entries.last().0@;
        assert(!entry_map(rest).dom().contains(last)) by {
            if entry_map(rest).dom().contains(last) {
                let i = choose|i: int| 0 <= i < rest.len() && (#[trigger] rest[i]).0@ == last;
                assert(entries[i].0@ != entries[entries.len() - 1].0@);
            }
        }
        assert(entry_map(entries).dom() =~= entry_map(rest).dom().insert(last));
        assert forall|k: Seq<char>|
            entry_map(entries).dom().contains(k) <==> exists|i: int|
                0 <= i < entries.len() && (#[trigger] entries[i]).0@ == k by {
            if entry_map(entries).dom().contains(k) {
                if k == last {
                    assert(entries[entries.len() - 1].0@ == k);
                } else {
                    let i = choose|i: int| 0 <= i < rest.len() && (#[trigger] rest[i]).0@ == k;
                    assert(entries[i].0@ == k);
                }
            }
            if exists|i: int| 0 <= i < entries.len() && (#[trigger] entries[i]).0@ == k {
                let i = choose|i: int| 0 <= i < entries.len() && (#[trigger] entries[i]).0@ == k;
                if i < rest.len() {
                    assert(rest[i].0@ == k);
                }
            }
        }
    }
}

fn decode_release(entry: &[u8]) -> (r: Option<GithubRelease>)
    ensures
        match r {
            Some(release) => release_of(entry@) == Some(release@),
            None => release_of(entry@) is None,
        },
{
    let shape = read_shape(entry);
    if !shape.is_record_like(3) {
        return None;
    }
    let tag_name = match decode_required_text(&shape.field("tag_name", 0)) {
        Some(tag_name) => tag_name,
        None => {
            return None;
        },
    };
    let published_at = match shape.field("published_at", 1) {
        JsonField::Absent => {
            if !shape.is_record() {
                return None;
            }
            None
        },
        JsonField::Once(value) => match read_optional_string(value) {
            Some(published_at) => published_at,
            None => {
                return None;
            },
        },
        JsonField::Repeated => {
            return None;
        },
    };
    let draft = match shape.field("draft", 2) {
        JsonField::Absent => false,
        JsonField::Once(value) => match read_flag(value) {
            Some(draft) => draft,
            None => {
                return None;
            },
        },
        JsonField::Repeated => {
            return None;
        },
    };
    Some(GithubRelease { tag_name, published_at, draft })
}

/// The contents of a list of releases.
pub open spec fn release_models(releases: Seq<GithubRelease>) -> Seq<ReleaseModel> {
    releases.map_values(|r: GithubRelease| r@)
}

proof fn lemma_releases_of_prefix(xs: Seq<Seq<u8>>, n: int)
    requires
        0 <= n <= xs.len(),
        releases_of(xs.take(n)) is None,
    ensures
        releases_of(xs) is None,
    decreases xs.len(),
{
    if n < xs.len() {
        assert(xs.drop_last().take(n) =~= xs.take(n));
        lemma_releases_of_prefix(xs.drop_last(), n);
    } else {
        assert(xs.take(n) =~= xs);
    }
}

fn decode_releases(items: &Vec<&[u8]>) -> (r: Option<Vec<GithubRelease>>)
    ensures
        match r {
            Some(releases) => releases_of(value_texts(items@)) == Some(release_models(releases@)),
            None => releases_of(value_texts(items@)) is None,
        },
{
    let ghost xs = value_texts(items@);
    let mut releases: Vec<GithubRelease> = Vec::new();
    let mut i: usize = 0;
    proof {
        assert(xs.take(0) =~= Seq::<Seq<u8>>::empty());
        assert(release_models(releases@) =~= Seq::<ReleaseModel>::empty());
    }
    while i < items.len()
        invariant
            i <= items@.len(),
            xs == value_texts(items@),
            releases_of(xs.take(i as int)) == Some(release_models(releases@)),
        decreases items@.len() - i,
    {
        proof {
            assert(xs.take(i + 1).drop_last() =~= xs.take(i as int));
            assert(xs.take(i + 1).last() == items@[i as int]@);
        }
        match decode_release(items[i]) {
            None => {
                proof {
                    lemma_releases_of_prefix(xs, i + 1);
                }
                return None;
            },
            Some(release) => {
                let ghost before = releases@;
                releases.push(release);
                proof {
                    assert(release_models(releases@) =~= release_models(before).push(release@));
                }
            },
        }
        i += 1;
    }
    proof {
        assert(xs.take(i as int) =~= xs);
    }
    Some(releases)
}

/// The publish times of `releases` by normalized tag.
///
/// Drafts and releases without a readable timestamp are skipped; a prerelease is kept. Of two
/// releases with the same normalized tag the first one counts: the newest, as GitHub lists
/// them.
pub fn dates_of_releases(releases: &Vec<GithubRelease>) -> (r: ReleaseDates)
    ensures
        r@ == release_times(release_models(releases@)),
{
    let ghost all = release_models(releases@);
    let mut entries: Vec<(String, PublishTime)> = Vec::new();
    let mut i: usize = 0;
    proof {
        assert(all.take(0) =~= Seq::<ReleaseModel>::empty());
    }
    while i < releases.len()
        invariant
            i <= releases@.len(),
            all == release_models(releases@),
            entry_map(entries@) == release_times(all.take(i as int)),
            forall|a: int, b: int|
                0 <= a < b < entries@.len() ==> (#[trigger] entries@[a]).0@ != (
                #[trigger] entries@[b]).0@,
        decreases releases@.len() - i,
    {
        proof {
            assert(all.take(i + 1).drop_last() =~= all.take(i as int));
            assert(all.take(i + 1).last() == releases@[i as int]@);
            lemma_entry_count(entries@);
        }
        let release = &releases[i];
        if !release.draft {
            if let Some(at) = &release.published_at {
                if let Some(published) = PublishTime::parse_rfc3339(at.as_str()) {
                    let tag = normalize_tag(release.tag_name.as_str());
                    let mut known = false;
                    let mut k: usize = 0;
                    while k < entries.len()
                        invariant
                            k <= entries@.len(),
                            known == (exists|j: int|
                                0 <= j < k && (#[trigger] entries@[j]).0@ == tag@),
                        decreases entries@.len() - k,
                    {
                        if same_text(entries[k].0.as_str(), tag) {
                            known = true;
                        }
                        k += 1;
                    }
                    if !known {
                        let ghost before = entries@;
                        entries.push((tag.to_owned(), published));
                        proof {
                            assert(entries@.drop_last() =~= before);
                            assert forall|a: int, b: int|
                                0 <= a < b < entries@.len() implies (#[trigger] entries@[a]).0@ != (
                            #[trigger] entries@[b]).0@ by {
                                if b == before.len() {
                                    assert(before[a].0@ != tag@);
                                } else {
                                    assert(before[a].0@ != before[b].0@);
                                }
                            }
                        }
                    }
                }
            }
        }
        i += 1;
    }
    proof {
        assert(all.take(i as int) =~= all);
    }
    ReleaseDates { entries }
}

/// Parses a GitHub `/releases` page into publish times by normalized tag.
///
/// `None` for anything that is no page of releases, which is distinct from a page without
/// dated releases. Fields that are not read are passed over, whatever they hold; one that is read
/// may not be repeated.
pub fn parse_releases_page(data: &[u8]) -> (r: Option<ReleaseDates>)
    ensures
        match r {
            Some(dates) => releases_page(data@) == Some(dates@),
            None => releases_page(data@) is None,
        },
{
    match read_shape(data) {
        JsonShape::List(entries) => match decode_releases(&entries) {
            None => None,
            Some(releases) => Some(dates_of_releases(&releases)),
        },
        _ => None,
    }
}

// ---------------------------------------------------------------------------
// Laws
// ---------------------------------------------------------------------------

/// The first dated release of a tag decides: later releases of the page never change a date
/// that an earlier one gave.
pub proof fn law_first_release_of_a_tag_counts(
    releases: Seq<ReleaseModel>,
    later: ReleaseModel,
    tag: Seq<char>,
)
    requires
        release_times(releases).dom().contains(tag),
    ensures
        release_times(releases.push(later)).dom().contains(tag),
        release_times(releases.push(later))[tag] == release_times(releases)[tag],
{
    assert(releases.push(later).drop_last() =~= releases);
}

/// A draft never gives a date.
pub proof fn law_drafts_give_no_date(releases: Seq<ReleaseModel>, draft: ReleaseModel)
    requires
        draft.draft,
    ensures
        release_times(releases.push(draft)) == release_times(releases),
{
    assert(releases.push(draft).drop_last() =~= releases);
}

/// Every date is kept under the tag, without its leading `v`, of a release that is no draft.
pub proof fn law_dates_are_kept_under_normalized_tags(releases: Seq<ReleaseModel>, tag: Seq<char>)
    requires
        release_times(releases).dom().contains(tag),
    ensures
        exists|i: int|
            0 <= i < releases.len() && tag == without_v((#[trigger] releases[i]).tag_name)
                && !releases[i].draft,
    decreases releases.len(),
{
    let rest = releases.drop_last();
    if release_times(rest).dom().contains(tag) {
        law_dates_are_kept_under_normalized_tags(rest, tag);
        let i = choose|i: int|
            0 <= i < rest.len() && tag == without_v((#[trigger] rest[i]).tag_name)
                && !rest[i].draft;
        assert(releases[i] == rest[i]);
    } else {
        assert(tag == without_v(releases[releases.len() - 1].tag_name));
    }
}

/// A page of tags is read whole or not at all: it gives one tag for each entry, in order, and
/// nothing where one of them is no tag.
pub proof fn law_pages_of_tags_are_read_whole(entries: Seq<Seq<u8>>)
    ensures
        tags_of(entries) is Some <==> forall|i: int|
            0 <= i < entries.len() ==> tag_of(#[trigger] entries[i]) is Some,
        tags_of(entries) matches Some(tags) ==> tags.len() == entries.len() && forall|i: int|
            0 <= i < entries.len() ==> tag_of(entries[i]) == Some(#[trigger] tags[i]),
    decreases entries.len(),
{
    if entries.len() > 0 {
        let rest = entries.drop_last();
        law_pages_of_tags_are_read_whole(rest);
        assert(entries[entries.len() - 1] == entries.last());
        if tags_of(rest) is Some {
            assert forall|i: int| 0 <= i < rest.len() implies tag_of(
                #[trigger] entries[i],
            ) is Some by {
                assert(rest[i] == entries[i]);
                assert(tag_of(rest[i]) is Some);
            }
            if let Some(tags) = tags_of(entries) {
                assert forall|i: int| 0 <= i < entries.len() implies tag_of(entries[i]) == Some(
                    #[trigger] tags[i],
                ) by {
                    if i < rest.len() {
                        assert(tags_of(rest)->0[i] == tags[i]);
                        assert(rest[i] == entries[i]);
                    }
                }
            }
        } else {
            let i = choose|i: int| 0 <= i < rest.len() && tag_of(#[trigger] rest[i]) is None;
            assert(tag_of(entries[i]) is None);
        }
    }
}

/// A page of releases is read whole or not at all: it gives one release for each entry, in order,
/// and nothing where one of them is no release.
pub proof fn law_pages_of_releases_are_read_whole(entries: Seq<Seq<u8>>)
    ensures
        releases_of(entries) is Some <==> forall|i: int|
            0 <= i < entries.len() ==> release_of(#[trigger] entries[i]) is Some,
        releases_of(entries) matches Some(releases) ==> releases.len() == entries.len() && forall|
            i: int,
        |
            0 <= i < entries.len() ==> release_of(entries[i]) == Some(#[trigger] releases[i]),
    decreases entries.len(),
{
    if entries.len() > 0 {
        let rest = entries.drop_last();
        law_pages_of_releases_are_read_whole(rest);
        assert(entries[entries.len() - 1] == entries.last());
        if releases_of(rest) is Some {
            assert forall|i: int| 0 <= i < rest.len() implies release_of(
                #[trigger] entries[i],
            ) is Some by {
                assert(rest[i] == entries[i]);
                assert(release_of(rest[i]) is Some);
            }
            if let Some(releases) = releases_of(entries) {
                assert forall|i: int| 0 <= i < entries.len() implies release_of(entries[i])
                    == Some(#[trigger] releases[i]) by {
                    if i < rest.len() {
                        assert(releases_of(rest)->0[i] == releases[i]);
                        assert(rest[i] == entries[i]);
                    }
                }
            }
        } else {
            let i = choose|i: int| 0 <= i < rest.len() && release_of(#[trigger] rest[i]) is None;
            assert(release_of(entries[i]) is None);
        }
    }
}

/// The fields of a tag: a name, which must be there, and a commit with a hash, either of which
/// may be left out and then stands for an empty one. A record and the list of its values say the
/// same.
pub proof fn law_fields_of_a_tag(entry: Seq<u8>, name: Seq<char>)
    ensures
        shape_of(entry) matches ShapeModel::Record(members) ==> {
            &&& (members_field(members, "name"@) matches FieldModel::Once(value) && json_string(
                value,
            ) == Some(name)) ==> match members_field(members, "commit"@) {
                FieldModel::Absent => tag_of(entry) == Some(TagModel { name, sha: Seq::empty() }),
                FieldModel::Once(commit) => match commit_sha(commit) {
                    Some(sha) => tag_of(entry) == Some(TagModel { name, sha }),
                    None => tag_of(entry) is None,
                },
                FieldModel::Repeated => tag_of(entry) is None,
            }
            &&& !(members_field(members, "name"@) is Once) ==> tag_of(entry) is None
        },
        shape_of(entry) matches ShapeModel::List(values) ==> {
            &&& values.len() > 2 || values.len() == 0 ==> tag_of(entry) is None
            &&& values.len() == 1 && json_string(values[0]) == Some(name) ==> tag_of(entry) == Some(
                TagModel { name, sha: Seq::empty() },
            )
            &&& values.len() == 2 && json_string(values[0]) == Some(name) ==> match commit_sha(
                values[1],
            ) {
                Some(sha) => tag_of(entry) == Some(TagModel { name, sha }),
                None => tag_of(entry) is None,
            }
            &&& values.len() > 0 && json_string(values[0]) is None ==> tag_of(entry) is None
        },
        shape_of(entry) is Other ==> tag_of(entry) is None,
{
}

/// The hash of a commit is its `sha`, or its only value; without one it is empty.
pub proof fn law_hash_of_a_commit(commit: Seq<u8>)
    ensures
        shape_of(commit) matches ShapeModel::Record(members) ==> match members_field(
            members,
            "sha"@,
        ) {
            FieldModel::Absent => commit_sha(commit) == Some(Seq::<char>::empty()),
            FieldModel::Once(value) => commit_sha(commit) == json_string(value),
            FieldModel::Repeated => commit_sha(commit) is None,
        },
        shape_of(commit) matches ShapeModel::List(values) ==> {
            &&& values.len() == 0 ==> commit_sha(commit) == Some(Seq::<char>::empty())
            &&& values.len() == 1 ==> commit_sha(commit) == json_string(values[0])
            &&& values.len() > 1 ==> commit_sha(commit) is None
        },
        shape_of(commit) is Other ==> commit_sha(commit) is None,
{
}

/// A body of tags gives its tags, whatever else could be made of it. Any other body gives its
/// message as an error where it is an error object, and no tags, without an error, where it is
/// not.
pub proof fn law_tags_come_before_the_message(
    tags: Seq<TagModel>,
    message: Seq<char>,
    either: Option<Seq<char>>,
)
    ensures
        page_outcome(Some(tags), either) == Ok::<Seq<TagModel>, Seq<char>>(tags),
        page_outcome(None, None) == Ok::<Seq<TagModel>, Seq<char>>(Seq::empty()),
        page_outcome(None, Some(message)) matches Err(text) && message.is_suffix_of(text) && text
            == "GitHub API error: "@ + message,
{
    let text = "GitHub API error: "@ + message;
    assert(text.skip(text.len() - message.len()) =~= message);
}

/// A body is a page exactly where it is a list, and an error object exactly where it is a record
/// with one message, or the list of it.
pub proof fn law_pages_and_error_objects(body: Seq<u8>)
    ensures
        shape_of(body) matches ShapeModel::List(entries) ==> tags_page(body) == tags_of(entries),
        !(shape_of(body) is List) ==> tags_page(body) is None && releases_page(body) is None,
        shape_of(body) matches ShapeModel::Record(members) ==> api_error(body) == (
        match members_field(members, "message"@) {
            FieldModel::Once(value) => json_string(value),
            _ => None,
        }),
        tags_outcome(body) == page_outcome(tags_page(body), api_error(body)),
        shape_of(body) matches ShapeModel::List(entries) ==> match releases_of(entries) {
            Some(releases) => releases_page(body) == Some(release_times(releases)),
            None => releases_page(body) is None,
        },
{
}

/// The fields of a release record: a tag, which must be there; a timestamp, none where it is left
/// out; and a draft flag, off where it is left out. No field may be given twice.
pub proof fn law_fields_of_a_release(entry: Seq<u8>, members: Seq<(Seq<char>, Seq<u8>)>)
    requires
        shape_of(entry) == ShapeModel::Record(members),
    ensures
        ({
            let tag = match members_field(members, "tag_name"@) {
                FieldModel::Once(value) => json_string(value),
                _ => None,
            };
            let time = match members_field(members, "published_at"@) {
                FieldModel::Absent => Some(None),
                FieldModel::Once(value) => json_optional_string(value),
                FieldModel::Repeated => None,
            };
            let draft = match members_field(members, "draft"@) {
                FieldModel::Absent => Some(false),
                FieldModel::Once(value) => json_flag(value),
                FieldModel::Repeated => None,
            };
            &&& release_of(entry) is Some <==> tag is Some && time is Some && draft is Some
            &&& release_of(entry) matches Some(release) ==> tag == Some(release.tag_name) && time
                == Some(release.published_at) && draft == Some(release.draft)
        }),
{
}

/// Each tag has the time of its first release that is no draft and whose timestamp can be read,
/// under its name without a leading `v`; a tag without such a release has none.
pub proof fn law_first_dated_release_gives_the_date(releases: Seq<ReleaseModel>, tag: Seq<char>)
    ensures
        forall|i: int, secs: i64|
            #![trigger dated(releases[i], tag, secs)]
            0 <= i < releases.len() && dated(releases[i], tag, secs) && (forall|j: int, t: i64|
                0 <= j < i ==> !#[trigger] dated(releases[j], tag, t)) ==> release_times(
                releases,
            ).dom().contains(tag) && release_times(releases)[tag] == secs,
        release_times(releases).dom().contains(tag) <==> exists|i: int, secs: i64|
            0 <= i < releases.len() && #[trigger] dated(releases[i], tag, secs),
    decreases releases.len(),
{
    if releases.len() > 0 {
        let rest = releases.drop_last();
        let last = releases.last();
        law_first_dated_release_gives_the_date(rest, tag);
        let before = release_times(rest);
        let after = release_times(releases);
        assert(releases[releases.len() - 1] == last);
        if release_time(last) is Some && without_v(last.tag_name) == tag {
            assert(dated(last, tag, release_time(last)->0));
        }
        if before.dom().contains(tag) {
            let (i, secs) = choose|i: int, secs: i64|
                0 <= i < rest.len() && #[trigger] dated(rest[i], tag, secs);
            assert(dated(releases[i], tag, secs));
        } else {
            assert forall|i: int, secs: i64| 0 <= i < rest.len() implies !#[trigger] dated(
                releases[i],
                tag,
                secs,
            ) by {
                assert(!dated(rest[i], tag, secs));
            }
        }
        assert forall|i: int, secs: i64|
            #![trigger dated(releases[i], tag, secs)]
            0 <= i < releases.len() && dated(releases[i], tag, secs) && (forall|j: int, t: i64|
                0 <= j < i ==> !#[trigger] dated(
                    releases[j],
                    tag,
                    t,
                )) implies after.dom().contains(tag) && after[tag] == secs by {
            if i < rest.len() {
                assert(dated(rest[i], tag, secs));
                assert forall|j: int, t: i64| 0 <= j < i implies !#[trigger] dated(
                    rest[j],
                    tag,
                    t,
                ) by {
                    assert(!dated(releases[j], tag, t));
                }
                assert(before[tag] == secs);
            } else {
                if before.dom().contains(tag) {
                    let (k, t) = choose|k: int, t: i64|
                        0 <= k < rest.len() && #[trigger] dated(rest[k], tag, t);
                    assert(dated(releases[k], tag, t));
                }
            }
        }
        if exists|i: int, secs: i64|
            0 <= i < releases.len() && #[trigger] dated(releases[i], tag, secs) {
            let (i, secs) = choose|i: int, secs: i64|
                0 <= i < releases.len() && #[trigger] dated(releases[i], tag, secs);
            if i < rest.len() {
                assert(dated(rest[i], tag, secs));
            }
        }
    }
}

/// Whether a release is no draft, was published at `secs`, and is of the tag, with or without a
/// leading `v`.
pub open spec fn dated(release: ReleaseModel, tag: Seq<char>, secs: i64) -> bool {
    &&& !release.draft
    &&& release.published_at matches Some(at) && rfc3339_seconds(at) == Some(secs)
    &&& without_v(release.tag_name) == tag
}

/// The contents of a tag and of a release are those of their fields, and a result is the expected
/// one only where it succeeds with the expected tags or fails with the expected text.
pub proof fn law_contents_of_tags_and_releases(
    tag: GithubTag,
    release: GithubRelease,
    r: Result<Vec<GithubTag>, DepsError>,
    outcome: Result<Seq<TagModel>, Seq<char>>,
)
    ensures
        tag@.name == tag.name@ && tag@.sha == tag.commit.sha@,
        release@.tag_name == release.tag_name@ && release@.draft == release.draft,
        release@.published_at == option_string(release.published_at),
        is_tags_outcome(r, outcome) ==> (r is Ok <==> outcome is Ok),
        is_tags_outcome(r, outcome) && r is Ok ==> outcome->Ok_0 == tag_models(r->Ok_0@),
        is_tags_outcome(r, outcome) && r is Err ==> (r->Err_0 matches DepsError::CacheError(text)
            && text@ == outcome->Err_0),
{
}

} // verus!
