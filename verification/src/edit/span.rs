//! Edits as spans: ordering, overlap removal, and splicing into a text.

use crate::position::{
    lemma_position_offset_bound, lemma_position_offset_monotone, position_offset, LineOffsetTable,
    Range,
};
use crate::text::chars_of;
use vstd::prelude::*;

verus! {

/// A single manifest-text replacement.
#[derive(Debug, Clone, PartialEq, Eq)]
pub struct ManifestEdit {
    /// The span in the manifest source this edit replaces.
    pub range: Range,
    /// The replacement text.
    pub new_text: String,
}

/// A type with a `[start, end)` span. What the span is, each implementation says.
pub trait EditSpan {
    /// The span's inclusive start, as `(line, character)`.
    open spec fn span_start(&self) -> (u32, u32) {
        arbitrary()
    }

    /// The span's exclusive end, as `(line, character)`.
    open spec fn span_end(&self) -> (u32, u32) {
        arbitrary()
    }

    /// The span's inclusive start, as `(line, character)`.
    fn start(&self) -> (r: (u32, u32))
        ensures
            r == self.span_start(),
    ;

    /// The span's exclusive end, as `(line, character)`.
    fn end(&self) -> (r: (u32, u32))
        ensures
            r == self.span_end(),
    ;
}

impl EditSpan for ManifestEdit {
    open spec fn span_start(&self) -> (u32, u32) {
        (self.range.start.line, self.range.start.character)
    }

    open spec fn span_end(&self) -> (u32, u32) {
        (self.range.end.line, self.range.end.character)
    }

    fn start(&self) -> (r: (u32, u32)) {
        (self.range.start.line, self.range.start.character)
    }

    fn end(&self) -> (r: (u32, u32)) {
        (self.range.end.line, self.range.end.character)
    }
}

// ---------------------------------------------------------------------------
// Stable ordering
// ---------------------------------------------------------------------------

/// Puts `x` into `s` behind every element whose key is not greater.
pub open spec fn insert_by_key<T>(s: Seq<T>, x: T, key: spec_fn(T) -> int) -> Seq<T>
    decreases s.len(),
{
    if s.len() > 0 && key(x) < key(s.last()) {
        insert_by_key(s.drop_last(), x, key).push(s.last())
    } else {
        s.push(x)
    }
}

/// `s` in ascending order of `key`; elements with equal keys keep their order.
pub open spec fn stable_sorted<T>(s: Seq<T>, key: spec_fn(T) -> int) -> Seq<T>
    decreases s.len(),
{
    if s.len() == 0 {
        s
    } else {
        insert_by_key(stable_sorted(s.drop_last(), key), s.last(), key)
    }
}

/// Whether the keys of `s` ascend.
pub open spec fn ascending<T>(s: Seq<T>, key: spec_fn(T) -> int) -> bool {
    forall|i: int, j: int| 0 <= i <= j < s.len() ==> key(#[trigger] s[i]) <= key(#[trigger] s[j])
}

proof fn lemma_insert_by_key<T>(s: Seq<T>, x: T, key: spec_fn(T) -> int)
    requires
        ascending(s, key),
    ensures
        ascending(insert_by_key(s, x, key), key),
        insert_by_key(s, x, key).len() == s.len() + 1,
        insert_by_key(s, x, key).to_multiset() == s.push(x).to_multiset(),
        forall|i: int|
            0 <= i < s.len() + 1 ==> key(#[trigger] insert_by_key(s, x, key)[i]) <= key(x) || key(
                insert_by_key(s, x, key)[i],
            ) <= key(s.last()),
    decreases s.len(),
{
    broadcast use vstd::seq_lib::group_to_multiset_ensures;

    if s.len() > 0 && key(x) < key(s.last()) {
        let rest = s.drop_last();
        assert(ascending(rest, key)) by {
            assert forall|i: int, j: int| 0 <= i <= j < rest.len() implies key(
                #[trigger] rest[i],
            ) <= key(#[trigger] rest[j]) by {
                assert(key(s[i]) <= key(s[j]));
            }
        }
        lemma_insert_by_key(rest, x, key);
        let inner = insert_by_key(rest, x, key);
        assert forall|i: int| 0 <= i < inner.len() implies key(#[trigger] inner[i]) <= key(
            s.last(),
        ) by {
            if rest.len() > 0 {
                assert(key(s[rest.len() - 1]) <= key(s[s.len() - 1]));
            } else {
                assert(inner =~= seq![x]);
            }
        }
        let whole = inner.push(s.last());
        assert forall|i: int, j: int| 0 <= i <= j < whole.len() implies key(#[trigger] whole[i])
            <= key(#[trigger] whole[j]) by {
            if j < inner.len() {
                assert(key(inner[i]) <= key(inner[j]));
            } else if i < inner.len() {
                assert(key(inner[i]) <= key(s.last()));
            }
        }
        assert(whole.to_multiset() == rest.push(x).to_multiset().insert(s.last()));
        assert(s =~= rest.push(s.last()));
        assert(s.push(x).to_multiset() =~= whole.to_multiset());
    } else {
        let whole = s.push(x);
        assert forall|i: int, j: int| 0 <= i <= j < whole.len() implies key(#[trigger] whole[i])
            <= key(#[trigger] whole[j]) by {
            if j < s.len() {
                assert(key(s[i]) <= key(s[j]));
            } else if i < s.len() {
                assert(key(s[i]) <= key(s[s.len() - 1]));
            }
        }
    }
}

/// Sorting by a key gives an ascending arrangement of the same elements.
pub proof fn lemma_stable_sorted<T>(s: Seq<T>, key: spec_fn(T) -> int)
    ensures
        ascending(stable_sorted(s, key), key),
        stable_sorted(s, key).to_multiset() == s.to_multiset(),
        stable_sorted(s, key).len() == s.len(),
    decreases s.len(),
{
    broadcast use vstd::seq_lib::group_to_multiset_ensures;

    if s.len() > 0 {
        lemma_stable_sorted(s.drop_last(), key);
        let sorted = stable_sorted(s.drop_last(), key);
        lemma_insert_by_key(sorted, s.last(), key);
        assert(s =~= s.drop_last().push(s.last()));
        assert(sorted.push(s.last()).to_multiset() =~= s.to_multiset());
    }
}

/// A sequence whose keys already ascend is its own sorted form.
pub proof fn lemma_ascending_is_sorted<T>(s: Seq<T>, key: spec_fn(T) -> int)
    requires
        ascending(s, key),
    ensures
        stable_sorted(s, key) == s,
    decreases s.len(),
{
    if s.len() > 0 {
        let rest = s.drop_last();
        assert forall|i: int, j: int| 0 <= i <= j < rest.len() implies key(#[trigger] rest[i])
            <= key(#[trigger] rest[j]) by {
            assert(key(s[i]) <= key(s[j]));
        }
        lemma_ascending_is_sorted(rest, key);
        if rest.len() > 0 {
            assert(key(s[rest.len() - 1]) <= key(s[s.len() - 1]));
        }
        assert(rest.push(s.last()) =~= s);
    }
}

proof fn lemma_insert_by_key_of_images<T, U>(
    s: Seq<T>,
    x: T,
    f: spec_fn(T) -> U,
    key: spec_fn(T) -> int,
    image_key: spec_fn(U) -> int,
)
    requires
        forall|y: T| image_key(#[trigger] f(y)) == key(y),
    ensures
        insert_by_key(s.map_values(f), f(x), image_key) == insert_by_key(s, x, key).map_values(f),
    decreases s.len(),
{
    let images = s.map_values(f);
    if s.len() > 0 {
        assert(images.last() == f(s.last()));
        assert(images.drop_last() =~= s.drop_last().map_values(f));
    }
    if s.len() > 0 && key(x) < key(s.last()) {
        lemma_insert_by_key_of_images(s.drop_last(), x, f, key, image_key);
        let inner = insert_by_key(s.drop_last(), x, key);
        assert(inner.push(s.last()).map_values(f) =~= inner.map_values(f).push(f(s.last())));
    } else {
        assert(s.push(x).map_values(f) =~= images.push(f(x)));
    }
}

/// Sorting commutes with a mapping that keeps the keys.
pub proof fn lemma_stable_sorted_of_images<T, U>(
    s: Seq<T>,
    f: spec_fn(T) -> U,
    key: spec_fn(T) -> int,
    image_key: spec_fn(U) -> int,
)
    requires
        forall|y: T| image_key(#[trigger] f(y)) == key(y),
    ensures
        stable_sorted(s.map_values(f), image_key) == stable_sorted(s, key).map_values(f),
    decreases s.len(),
{
    let images = s.map_values(f);
    if s.len() == 0 {
        assert(images =~= stable_sorted(s, key).map_values(f));
    } else {
        assert(images.last() == f(s.last()));
        assert(images.drop_last() =~= s.drop_last().map_values(f));
        lemma_stable_sorted_of_images(s.drop_last(), f, key, image_key);
        lemma_insert_by_key_of_images(
            stable_sorted(s.drop_last(), key),
            s.last(),
            f,
            key,
            image_key,
        );
    }
}

proof fn lemma_insert_position<T>(s: Seq<T>, x: T, key: spec_fn(T) -> int, k: int)
    requires
        0 <= k <= s.len(),
        forall|j: int| k <= j < s.len() ==> key(x) < key(#[trigger] s[j]),
        k > 0 ==> key(s[k - 1]) <= key(x),
    ensures
        insert_by_key(s, x, key) == s.insert(k, x),
    decreases s.len(),
{
    if s.len() > 0 && key(x) < key(s.last()) {
        assert(k < s.len()) by {
            if k == s.len() {
                assert(key(s[k - 1]) <= key(x));
            }
        }
        lemma_insert_position(s.drop_last(), x, key, k);
        assert(s.drop_last().insert(k, x).push(s.last()) =~= s.insert(k, x));
    } else {
        assert(k == s.len()) by {
            if k < s.len() {
                assert(key(x) < key(s[s.len() - 1]));
            }
        }
        assert(s.push(x) =~= s.insert(k, x));
    }
}

// ---------------------------------------------------------------------------
// Overlap removal
// ---------------------------------------------------------------------------

/// A `(line, character)` pair as one number that orders as the pair does.
pub open spec fn span_key(p: (u32, u32)) -> int {
    p.0 * 0x1_0000_0000 + p.1
}

/// The key by which edits are ordered: where they start.
pub open spec fn start_key<E: EditSpan>() -> spec_fn(E) -> int {
    |e: E| span_key(e.span_start())
}

/// Drops every element that starts before the element kept last ends.
pub open spec fn without_overlaps<E: EditSpan>(s: Seq<E>) -> Seq<E>
    decreases s.len(),
{
    if s.len() == 0 {
        s
    } else {
        let kept = without_overlaps(s.drop_last());
        if kept.len() > 0 && span_key(s.last().span_start()) < span_key(kept.last().span_end()) {
            kept
        } else {
            kept.push(s.last())
        }
    }
}

/// The edits that survive: those of `edits` in order of their start, without overlaps.
pub open spec fn surviving_edits<E: EditSpan>(edits: Seq<E>) -> Seq<E> {
    without_overlaps(stable_sorted(edits, start_key::<E>()))
}

fn span_before(a: (u32, u32), b: (u32, u32)) -> (r: bool)
    ensures
        r == (span_key(a) < span_key(b)),
{
    a.0 < b.0 || (a.0 == b.0 && a.1 < b.1)
}

fn sort_by_start<E: EditSpan>(edits: Vec<E>) -> (r: Vec<E>)
    ensures
        r@ == stable_sorted(edits@, start_key::<E>()),
{
    let ghost key = start_key::<E>();
    let mut sorted: Vec<E> = Vec::new();
    proof {
        assert(edits@.take(0) =~= Seq::<E>::empty());
    }
    for edit in it: edits
        invariant
            it.seq() == edits@,
            key == start_key::<E>(),
            sorted@ == stable_sorted(edits@.take(it.index()), key),
    {
        proof {
            let n = it.index();
            assert(edits@.take(n + 1).drop_last() =~= edits@.take(n));
            assert(edits@.take(n + 1).last() == edit);
        }
        let start = edit.start();
        let mut k: usize = sorted.len();
        while k > 0 && span_before(start, sorted[k - 1].start())
            invariant
                k <= sorted@.len(),
                key == start_key::<E>(),
                key(edit) == span_key(start),
                forall|j: int| k <= j < sorted@.len() ==> key(edit) < key(#[trigger] sorted@[j]),
            decreases k,
        {
            k -= 1;
        }
        proof {
            lemma_insert_position(sorted@, edit, key, k as int);
        }
        sorted.insert(k, edit);
    }
    proof {
        assert(edits@.take(edits@.len() as int) =~= edits@);
    }
    sorted
}

/// Sorts `edits` by start position and drops any edit that overlaps the previous one.
///
/// A dropped edit's start falls before the previous (surviving) edit's end: an overlap that no
/// manifest rewrite can apply safely. `_caller` names the collector on whose behalf the edits
/// are dropped.
pub fn dedup_overlapping_edits<E: EditSpan>(edits: Vec<E>, _caller: &str) -> (r: Vec<E>)
    ensures
        r@ == surviving_edits(edits@),
{
    let ghost sorted_spec = stable_sorted(edits@, start_key::<E>());
    let sorted = sort_by_start(edits);
    let mut kept: Vec<E> = Vec::new();
    proof {
        assert(sorted@.take(0) =~= Seq::<E>::empty());
    }
    for edit in it: sorted
        invariant
            it.seq() == sorted_spec,
            sorted@ == sorted_spec,
            kept@ == without_overlaps(sorted_spec.take(it.index())),
    {
        proof {
            let n = it.index();
            assert(sorted_spec.take(n + 1).drop_last() =~= sorted_spec.take(n));
            assert(sorted_spec.take(n + 1).last() == edit);
        }
        let overlaps = kept.len() > 0 && span_before(edit.start(), kept[kept.len() - 1].end());
        if !overlaps {
            kept.push(edit);
        }
    }
    proof {
        assert(sorted_spec.take(sorted_spec.len() as int) =~= sorted_spec);
    }
    kept
}

// ---------------------------------------------------------------------------
// Splicing
// ---------------------------------------------------------------------------

/// A replacement of the characters `start..end` of a text by `text`.
pub struct Splice {
    /// The first character replaced.
    pub start: int,
    /// The character behind the last one replaced.
    pub end: int,
    /// The replacement.
    pub text: Seq<char>,
}

/// The edit as a replacement of characters of `content`.
pub open spec fn splice_of(content: Seq<char>, edit: ManifestEdit) -> Splice {
    Splice {
        start: position_offset(content, edit.range.start) as int,
        end: position_offset(content, edit.range.end) as int,
        text: edit.new_text@,
    }
}

/// Whether the edit's range is in order; one that is not is skipped.
pub open spec fn in_order(content: Seq<char>, edit: ManifestEdit) -> bool {
    splice_of(content, edit).start <= splice_of(content, edit).end
}

/// The replacements that `edits` ask for, in the order of the edits.
pub open spec fn splices(content: Seq<char>, edits: Seq<ManifestEdit>) -> Seq<Splice> {
    edits.filter(|e: ManifestEdit| in_order(content, e)).map_values(
        |e: ManifestEdit| splice_of(content, e),
    )
}

/// The key by which replacements are ordered: where they start.
pub open spec fn splice_key() -> spec_fn(Splice) -> int {
    |s: Splice| s.start
}

/// The replacements that `edits` ask for, in order of their start.
pub open spec fn ordered_splices(content: Seq<char>, edits: Seq<ManifestEdit>) -> Seq<Splice> {
    stable_sorted(splices(content, edits), splice_key())
}

/// Whether every replacement ends before the next one starts.
pub open spec fn non_overlapping(splices: Seq<Splice>) -> bool {
    forall|i: int, j: int|
        0 <= i < j < splices.len() ==> (#[trigger] splices[i]).end <= (#[trigger] splices[j]).start
}

/// Where the last of the replacements ends.
pub open spec fn splices_end(splices: Seq<Splice>) -> int {
    if splices.len() == 0 {
        0
    } else {
        splices.last().end
    }
}

/// `content` up to the end of the last replacement, with every replacement made.
pub open spec fn spliced_prefix(content: Seq<char>, splices: Seq<Splice>) -> Seq<char>
    decreases splices.len(),
{
    if splices.len() == 0 {
        Seq::empty()
    } else {
        spliced_prefix(content, splices.drop_last()) + content.subrange(
            splices_end(splices.drop_last()),
            splices.last().start,
        ) + splices.last().text
    }
}

/// `content` with every replacement made and everything between them kept.
pub open spec fn spliced(content: Seq<char>, splices: Seq<Splice>) -> Seq<char> {
    spliced_prefix(content, splices) + content.skip(splices_end(splices))
}

/// `content` rewritten by `edits`.
pub open spec fn rewritten(content: Seq<char>, edits: Seq<ManifestEdit>) -> Seq<char> {
    spliced(content, ordered_splices(content, edits))
}

struct OffsetEdit<'a> {
    start: usize,
    end: usize,
    text: &'a str,
}

spec fn offset_splices(v: Seq<OffsetEdit>) -> Seq<Splice> {
    v.map_values(
        |e: OffsetEdit| Splice { start: e.start as int, end: e.end as int, text: e.text@ },
    )
}

fn push_chars(out: &mut String, chars: &[char])
    ensures
        final(out)@ == old(out)@ + chars@,
{
    let mut i: usize = 0;
    let ghost before = out@;
    proof {
        assert(before + chars@.take(0) =~= before);
    }
    while i < chars.len()
        invariant
            i <= chars@.len(),
            out@ == before + chars@.take(i as int),
        decreases chars@.len() - i,
    {
        out.push(chars[i]);
        proof {
            assert(before + chars@.take(i + 1) =~= (before + chars@.take(i as int)).push(
                chars@[i as int],
            ));
        }
        i += 1;
    }
    proof {
        assert(chars@.take(i as int) =~= chars@);
    }
}

fn ordered_offset_edits<'a>(content: &str, edits: &'a [ManifestEdit]) -> (r: Vec<OffsetEdit<'a>>)
    ensures
        offset_splices(r@) == ordered_splices(content@, edits@),
        forall|i: int| 0 <= i < r@.len() ==> (#[trigger] r@[i]).end <= content@.len() && r@[i].start <= r@[i].end,
{
    let table = LineOffsetTable::new(content);
    let ghost text = content@;
    let ghost key = splice_key();
    let mut sorted: Vec<OffsetEdit<'a>> = Vec::new();
    let mut i: usize = 0;
    proof {
        reveal(Seq::filter);
        assert(edits@.take(0) =~= Seq::<ManifestEdit>::empty());
        assert(splices(text, edits@.take(0)) =~= Seq::<Splice>::empty());
        assert(offset_splices(sorted@) =~= Seq::<Splice>::empty());
    }
    while i < edits.len()
        invariant
            i <= edits@.len(),
            text == content@,
            table.content() == text,
            key == splice_key(),
            offset_splices(sorted@) == ordered_splices(text, edits@.take(i as int)),
            forall|k: int|
                0 <= k < sorted@.len() ==> (#[trigger] sorted@[k]).end <= text.len()
                    && sorted@[k].start <= sorted@[k].end,
        decreases edits@.len() - i,
    {
        let edit = &edits[i];
        let start: usize = table.position_to_offset(edit.range.start);
        let end: usize = table.position_to_offset(edit.range.end);
        let ghost done = edits@.take(i as int);
        let ghost more = edits@.take(i + 1);
        proof {
            reveal(Seq::filter);
            assert(more.drop_last() =~= done);
            assert(more.last() == *edit);
        }
        if start <= end {
            let mut k: usize = sorted.len();
            let added = OffsetEdit { start, end, text: edit.new_text.as_str() };
            let ghost splice = splice_of(text, *edit);
            let ghost before = sorted@;
            while k > 0 && start < sorted[k - 1].start
                invariant
                    k <= sorted@.len(),
                    sorted@ == before,
                    key == splice_key(),
                    splice.start == start,
                    forall|j: int|
                        k <= j < sorted@.len() ==> key(splice) < key(
                            #[trigger] offset_splices(sorted@)[j],
                        ),
                decreases k,
            {
                k -= 1;
            }
            proof {
                lemma_insert_position(offset_splices(sorted@), splice, key, k as int);
                assert(splices(text, more) =~= splices(text, done).push(splice));
                assert(splices(text, more).drop_last() =~= splices(text, done));
            }
            sorted.insert(k, added);
            proof {
                assert(offset_splices(sorted@) =~= offset_splices(before).insert(
                    k as int,
                    splice,
                ));
                assert forall|q: int| 0 <= q < sorted@.len() implies (#[trigger] sorted@[q]).end <= text.len()
                    && sorted@[q].start <= sorted@[q].end by {
                    if q < k {
                        assert(sorted@[q] == before[q]);
                    } else if q > k {
                        assert(sorted@[q] == before[q - 1]);
                    }
                }
            }
        } else {
            proof {
                assert(splices(text, more) =~= splices(text, done));
            }
        }
        i += 1;
    }
    proof {
        assert(edits@.take(i as int) =~= edits@);
    }
    sorted
}

/// Applies `edits` to `content`, returning the rewritten manifest text.
///
/// `edits` must not overlap (see [`dedup_overlapping_edits`]). An edit whose range is inverted
/// (its start lies after its end) is skipped rather than applied. Positions beyond a line or
/// beyond the document stand for its end.
#[must_use]
pub fn apply_edits(content: &str, edits: &[ManifestEdit]) -> (r: String)
    requires
        non_overlapping(ordered_splices(content@, edits@)),
    ensures
        r@ == rewritten(content@, edits@),
{
    let chars = chars_of(content);
    let sorted = ordered_offset_edits(content, edits);
    let ghost all = ordered_splices(content@, edits@);
    let mut out = String::new();
    let mut from: usize = 0;
    let mut i: usize = 0;
    proof {
        assert(all.take(0) =~= Seq::<Splice>::empty());
    }
    while i < sorted.len()
        invariant
            chars@ == content@,
            i <= sorted@.len(),
            offset_splices(sorted@) == all,
            non_overlapping(all),
            forall|k: int|
                0 <= k < sorted@.len() ==> (#[trigger] sorted@[k]).end <= chars@.len()
                    && sorted@[k].start <= sorted@[k].end,
            from == splices_end(all.take(i as int)),
            from <= chars@.len(),
            out@ == spliced_prefix(content@, all.take(i as int)),
        decreases sorted@.len() - i,
    {
        let ghost this = all[i as int];
        proof {
            assert(all.take(i + 1).drop_last() =~= all.take(i as int));
            assert(all.take(i + 1).last() == this);
            assert(this.start == sorted@[i as int].start);
            if i > 0 {
                assert(all.take(i as int).last() == all[i - 1]);
                assert(all[i - 1].end <= all[i as int].start);
            }
        }
        push_chars(&mut out, &chars.as_slice()[from..sorted[i].start]);
        out.append(sorted[i].text);
        from = sorted[i].end;
        i += 1;
    }
    proof {
        assert(all.take(i as int) =~= all);
    }
    let rest = &chars.as_slice()[from..chars.len()];
    proof {
        assert(rest@ =~= content@.skip(from as int));
    }
    push_chars(&mut out, rest);
    out
}

// ---------------------------------------------------------------------------
// Laws
// ---------------------------------------------------------------------------

/// What overlap removal keeps is in order of start, and each edit ends before the next starts.
pub open spec fn disjoint_in_order<E: EditSpan>(s: Seq<E>) -> bool {
    &&& ascending(s, start_key::<E>())
    &&& forall|i: int, j: int|
        0 <= i < j < s.len() ==> span_key((#[trigger] s[i]).span_end()) <= span_key(
            (#[trigger] s[j]).span_start(),
        )
}

proof fn lemma_without_overlaps<E: EditSpan>(s: Seq<E>)
    requires
        ascending(s, start_key::<E>()),
    ensures
        disjoint_in_order(without_overlaps(s)),
        forall|i: int|
            0 <= i < without_overlaps(s).len() ==> s.contains(#[trigger] without_overlaps(s)[i]),
        s.len() > 0 ==> without_overlaps(s).len() > 0 && without_overlaps(s)[0] == s[0],
    decreases s.len(),
{
    let key = start_key::<E>();
    if s.len() > 0 {
        let rest = s.drop_last();
        assert forall|i: int, j: int| 0 <= i <= j < rest.len() implies key(#[trigger] rest[i])
            <= key(#[trigger] rest[j]) by {
            assert(key(s[i]) <= key(s[j]));
        }
        lemma_without_overlaps(rest);
        let kept = without_overlaps(rest);
        let all = without_overlaps(s);
        assert forall|i: int| 0 <= i < all.len() implies s.contains(#[trigger] all[i]) by {
            if i < kept.len() {
                let at = choose|k: int| 0 <= k < rest.len() && rest[k] == kept[i];
                assert(rest.contains(kept[i]));
                assert(s[at] == all[i]);
            } else {
                assert(s[s.len() - 1] == all[i]);
            }
        }
        assert forall|i: int, j: int| 0 <= i <= j < all.len() implies key(#[trigger] all[i])
            <= key(#[trigger] all[j]) by {
            if j < kept.len() {
                assert(key(kept[i]) <= key(kept[j]));
            } else if i < kept.len() {
                assert(rest.contains(kept[i]));
                let at = choose|k: int| 0 <= k < rest.len() && rest[k] == kept[i];
                assert(key(s[at]) <= key(s[s.len() - 1]));
            }
        }
        assert forall|i: int, j: int| 0 <= i < j < all.len() implies span_key(
            (#[trigger] all[i]).span_end(),
        ) <= span_key((#[trigger] all[j]).span_start()) by {
            if j < kept.len() {
                assert(span_key(kept[i].span_end()) <= span_key(kept[j].span_start()));
            } else if i < kept.len() - 1 {
                assert(span_key(kept[i].span_end()) <= span_key(
                    kept[kept.len() - 1].span_start(),
                ));
                assert(key(all[kept.len() - 1]) <= key(all[j]));
            }
        }
    }
}

proof fn lemma_disjoint_unchanged<E: EditSpan>(s: Seq<E>)
    requires
        disjoint_in_order(s),
    ensures
        without_overlaps(s) == s,
    decreases s.len(),
{
    let key = start_key::<E>();
    if s.len() > 0 {
        let rest = s.drop_last();
        assert forall|i: int, j: int| 0 <= i <= j < rest.len() implies key(#[trigger] rest[i])
            <= key(#[trigger] rest[j]) by {
            assert(key(s[i]) <= key(s[j]));
        }
        assert forall|i: int, j: int| 0 <= i < j < rest.len() implies span_key(
            (#[trigger] rest[i]).span_end(),
        ) <= span_key((#[trigger] rest[j]).span_start()) by {
            assert(span_key(s[i].span_end()) <= span_key(s[j].span_start()));
        }
        lemma_disjoint_unchanged(rest);
        if rest.len() > 0 {
            assert(span_key(s[rest.len() - 1].span_end()) <= span_key(
                s[s.len() - 1].span_start(),
            ));
        }
        assert(rest.push(s.last()) =~= s);
    }
}

/// The surviving edits are in order of their start, no two of them overlap, and each is one of
/// the edits given. Where edits were given, one survives that starts no later than any of them.
pub proof fn law_surviving_edits_are_disjoint<E: EditSpan>(edits: Seq<E>)
    ensures
        disjoint_in_order(surviving_edits(edits)),
        forall|i: int|
            0 <= i < surviving_edits(edits).len() ==> edits.contains(
                #[trigger] surviving_edits(edits)[i],
            ),
        forall|i: int|
            0 <= i < edits.len() ==> surviving_edits(edits).len() > 0 && span_key(
                surviving_edits(edits)[0].span_start(),
            ) <= span_key((#[trigger] edits[i]).span_start()),
{
    broadcast use vstd::seq_lib::group_to_multiset_ensures;

    let key = start_key::<E>();
    let sorted = stable_sorted(edits, key);
    lemma_stable_sorted(edits, key);
    lemma_without_overlaps(sorted);
    assert forall|i: int| 0 <= i < surviving_edits(edits).len() implies edits.contains(
        #[trigger] surviving_edits(edits)[i],
    ) by {
        let e = surviving_edits(edits)[i];
        assert(sorted.contains(e));
        assert(sorted.to_multiset().count(e) > 0);
        assert(edits.to_multiset().count(e) > 0);
    }
    assert forall|i: int| 0 <= i < edits.len() implies surviving_edits(edits).len() > 0 && span_key(
        surviving_edits(edits)[0].span_start(),
    ) <= span_key((#[trigger] edits[i]).span_start()) by {
        lemma_sorted_contains(edits, key, i);
        let at = choose|k: int| 0 <= k < sorted.len() && sorted[k] == edits[i];
        assert(key(sorted[0]) <= key(sorted[at]));
    }
}

/// Sorting loses nothing.
pub proof fn lemma_sorted_contains<T>(s: Seq<T>, key: spec_fn(T) -> int, i: int)
    requires
        0 <= i < s.len(),
    ensures
        stable_sorted(s, key).contains(s[i]),
{
    broadcast use vstd::seq_lib::group_to_multiset_ensures;

    lemma_stable_sorted(s, key);
    assert(s.contains(s[i]));
    assert(s.to_multiset().count(s[i]) > 0);
    assert(stable_sorted(s, key).to_multiset().count(s[i]) > 0);
}

/// Whether `x` starts within `kept`.
pub open spec fn starts_within<E: EditSpan>(x: E, kept: E) -> bool {
    span_key(kept.span_start()) <= span_key(x.span_start()) < span_key(kept.span_end())
}

proof fn lemma_dropped_overlaps<E: EditSpan>(s: Seq<E>, i: int)
    requires
        ascending(s, start_key::<E>()),
        0 <= i < s.len(),
    ensures
        without_overlaps(s).contains(s[i]) || exists|k: int|
            0 <= k < without_overlaps(s).len() && starts_within(
                s[i],
                #[trigger] without_overlaps(s)[k],
            ),
    decreases s.len(),
{
    let key = start_key::<E>();
    let rest = s.drop_last();
    let kept = without_overlaps(rest);
    let all = without_overlaps(s);
    assert forall|a: int, b: int| 0 <= a <= b < rest.len() implies key(#[trigger] rest[a])
        <= key(#[trigger] rest[b]) by {
        assert(key(s[a]) <= key(s[b]));
    }
    if i < rest.len() {
        lemma_dropped_overlaps(rest, i);
        if kept.contains(rest[i]) {
            let k = choose|k: int| 0 <= k < kept.len() && kept[k] == rest[i];
            assert(all[k] == s[i]);
        } else {
            let k = choose|k: int|
                0 <= k < kept.len() && starts_within(rest[i], #[trigger] kept[k]);
            assert(starts_within(s[i], all[k]));
        }
    } else if all == kept.push(s.last()) {
        assert(all[kept.len() as int] == s[i]);
    } else {
        lemma_without_overlaps(rest);
        assert(rest.contains(kept[kept.len() - 1]));
        let at = choose|k: int| 0 <= k < rest.len() && rest[k] == kept[kept.len() - 1];
        assert(key(s[at]) <= key(s[i]));
        assert(starts_within(s[i], all[kept.len() - 1]));
    }
}

/// An edit is dropped only where it starts within an edit that survives.
pub proof fn law_only_overlapping_edits_are_dropped<E: EditSpan>(edits: Seq<E>, i: int)
    requires
        0 <= i < edits.len(),
    ensures
        surviving_edits(edits).contains(edits[i]) || exists|k: int|
            0 <= k < surviving_edits(edits).len() && starts_within(
                edits[i],
                #[trigger] surviving_edits(edits)[k],
            ),
{
    let key = start_key::<E>();
    let sorted = stable_sorted(edits, key);
    lemma_stable_sorted(edits, key);
    lemma_sorted_contains(edits, key, i);
    let at = choose|k: int| 0 <= k < sorted.len() && sorted[k] == edits[i];
    lemma_dropped_overlaps(sorted, at);
}

/// Removing overlaps a second time changes nothing.
pub proof fn law_dedup_is_idempotent<E: EditSpan>(edits: Seq<E>)
    ensures
        surviving_edits(surviving_edits(edits)) == surviving_edits(edits),
{
    law_surviving_edits_are_disjoint(edits);
    let s = surviving_edits(edits);
    lemma_ascending_is_sorted(s, start_key::<E>());
    lemma_disjoint_unchanged(s);
}

/// Edits that are already in order and disjoint all survive.
pub proof fn law_disjoint_edits_all_survive<E: EditSpan>(edits: Seq<E>)
    requires
        disjoint_in_order(edits),
    ensures
        surviving_edits(edits) == edits,
{
    lemma_ascending_is_sorted(edits, start_key::<E>());
    lemma_disjoint_unchanged(edits);
}

/// What overlap removal keeps can be applied, to any text.
pub proof fn law_surviving_edits_apply(content: Seq<char>, edits: Seq<ManifestEdit>)
    ensures
        non_overlapping(ordered_splices(content, surviving_edits(edits))),
{
    law_surviving_edits_are_disjoint(edits);
    lemma_disjoint_edits_apply(content, surviving_edits(edits));
}

proof fn lemma_disjoint_edits_apply(content: Seq<char>, s: Seq<ManifestEdit>)
    requires
        disjoint_in_order(s),
    ensures
        non_overlapping(splices(content, s)),
        ordered_splices(content, s) == splices(content, s),
    decreases s.len(),
{
    let f = splices(content, s);
    lemma_disjoint_splices(content, s);
    assert forall|i: int, j: int| 0 <= i <= j < f.len() implies splice_key()(#[trigger] f[i])
        <= splice_key()(#[trigger] f[j]) by {
        if i < j {
            assert(f[i].start <= f[i].end);
            assert(f[i].end <= f[j].start);
        }
    }
    lemma_ascending_is_sorted(f, splice_key());
}

proof fn lemma_disjoint_splices(content: Seq<char>, s: Seq<ManifestEdit>)
    requires
        disjoint_in_order(s),
    ensures
        non_overlapping(splices(content, s)),
        forall|i: int|
            0 <= i < splices(content, s).len() ==> (#[trigger] splices(content, s)[i]).start
                <= splices(content, s)[i].end,
        forall|i: int|
            0 <= i < splices(content, s).len() ==> exists|k: int|
                0 <= k < s.len() && #[trigger] splice_of(content, s[k]) == (#[trigger] splices(
                    content,
                    s,
                )[i]),
    decreases s.len(),
{
    reveal(Seq::filter);
    if s.len() == 0 {
        assert(splices(content, s) =~= Seq::<Splice>::empty());
    } else {
        let rest = s.drop_last();
        let key = start_key::<ManifestEdit>();
        assert forall|i: int, j: int| 0 <= i <= j < rest.len() implies key(#[trigger] rest[i])
            <= key(#[trigger] rest[j]) by {
            assert(key(s[i]) <= key(s[j]));
        }
        assert forall|i: int, j: int| 0 <= i < j < rest.len() implies span_key(
            (#[trigger] rest[i]).span_end(),
        ) <= span_key((#[trigger] rest[j]).span_start()) by {
            assert(span_key(s[i].span_end()) <= span_key(s[j].span_start()));
        }
        lemma_disjoint_splices(content, rest);
        let f = splices(content, s);
        let g = splices(content, rest);
        let last = s.last();
        if in_order(content, last) {
            assert(f =~= g.push(splice_of(content, last)));
        } else {
            assert(f =~= g);
        }
        assert forall|i: int| 0 <= i < f.len() implies exists|k: int|
            0 <= k < s.len() && #[trigger] splice_of(content, s[k]) == (#[trigger] f[i]) by {
            if i < g.len() {
                let k = choose|k: int|
                    0 <= k < rest.len() && #[trigger] splice_of(content, rest[k]) == g[i];
                assert(splice_of(content, s[k]) == f[i]);
            } else {
                assert(splice_of(content, s[s.len() - 1]) == f[i]);
            }
        }
        assert forall|i: int, j: int| 0 <= i < j < f.len() implies (#[trigger] f[i]).end
            <= (#[trigger] f[j]).start by {
            if j < g.len() {
                assert(g[i].end <= g[j].start);
            } else {
                let k = choose|k: int|
                    0 <= k < rest.len() && #[trigger] splice_of(content, rest[k]) == g[i];
                assert(span_key(s[k].span_end()) <= span_key(s[s.len() - 1].span_start()));
                lemma_position_offset_monotone(content, s[k].range.end, last.range.start);
            }
        }
    }
}

/// Without edits the text stays as it is.
pub proof fn law_no_edits_change_nothing(content: Seq<char>)
    ensures
        rewritten(content, Seq::empty()) == content,
{
    reveal(Seq::filter);
    assert(splices(content, Seq::empty()) =~= Seq::<Splice>::empty());
    assert(rewritten(content, Seq::empty()) =~= content);
}

/// An edit with an inverted range changes nothing, wherever it stands among the edits.
pub proof fn law_inverted_edits_change_nothing(content: Seq<char>, edits: Seq<ManifestEdit>)
    ensures
        rewritten(content, edits.filter(|e: ManifestEdit| in_order(content, e))) == rewritten(
            content,
            edits,
        ),
{
    let keep = |e: ManifestEdit| in_order(content, e);
    lemma_filter_twice(edits, keep);
}

proof fn lemma_filter_twice<T>(s: Seq<T>, keep: spec_fn(T) -> bool)
    ensures
        s.filter(keep).filter(keep) == s.filter(keep),
    decreases s.len(),
{
    reveal(Seq::filter);
    if s.len() > 0 {
        lemma_filter_twice(s.drop_last(), keep);
        if keep(s.last()) {
            let f = s.drop_last().filter(keep);
            assert(f.push(s.last()).drop_last() =~= f);
        }
    }
}

/// One edit in order replaces exactly its own range.
pub proof fn law_single_edit_replaces_its_range(content: Seq<char>, edit: ManifestEdit)
    requires
        in_order(content, edit),
    ensures
        ({
            let s = splice_of(content, edit);
            rewritten(content, seq![edit]) == content.take(s.start) + edit.new_text@
                + content.skip(s.end)
        }),
{
    reveal(Seq::filter);
    let s = splice_of(content, edit);
    let one = seq![edit];
    lemma_position_offset_bound(content, edit.range.start);
    lemma_position_offset_bound(content, edit.range.end);
    assert(one.drop_last() =~= Seq::<ManifestEdit>::empty());
    assert(splices(content, one) =~= seq![s]);
    assert(seq![s].drop_last() =~= Seq::<Splice>::empty());
    lemma_ascending_is_sorted(seq![s], splice_key());
    assert(ordered_splices(content, one) =~= seq![s]);
    assert(spliced_prefix(content, seq![s].drop_last()) =~= Seq::<char>::empty());
    assert(content.subrange(0, s.start) =~= content.take(s.start));
    assert(rewritten(content, one) =~= content.take(s.start) + edit.new_text@ + content.skip(
        s.end,
    ));
}

proof fn lemma_inserts_commute<T>(s: Seq<T>, x: T, y: T, key: spec_fn(T) -> int)
    requires
        key(x) < key(y),
    ensures
        insert_by_key(insert_by_key(s, x, key), y, key) == insert_by_key(
            insert_by_key(s, y, key),
            x,
            key,
        ),
    decreases s.len(),
{
    let with_x = insert_by_key(s, x, key);
    let with_y = insert_by_key(s, y, key);
    if s.len() > 0 {
        let rest = s.drop_last();
        lemma_inserts_commute(rest, x, y, key);
        if key(x) < key(s.last()) {
            assert(with_x.drop_last() =~= insert_by_key(rest, x, key));
        } else {
            assert(with_x.drop_last() =~= s);
        }
        if key(y) < key(s.last()) {
            assert(with_y.drop_last() =~= insert_by_key(rest, y, key));
        } else {
            assert(with_y.drop_last() =~= s);
        }
    } else {
        assert(with_y.drop_last() =~= s);
    }
}

proof fn lemma_ordered_push(content: Seq<char>, edits: Seq<ManifestEdit>, edit: ManifestEdit)
    ensures
        ordered_splices(content, edits.push(edit)) == (if in_order(content, edit) {
            insert_by_key(
                ordered_splices(content, edits),
                splice_of(content, edit),
                splice_key(),
            )
        } else {
            ordered_splices(content, edits)
        }),
{
    reveal(Seq::filter);
    let all = edits.push(edit);
    assert(all.drop_last() =~= edits);
    let before = splices(content, edits);
    let after = splices(content, all);
    if in_order(content, edit) {
        assert(after =~= before.push(splice_of(content, edit)));
        assert(after.drop_last() =~= before);
    } else {
        assert(after =~= before);
    }
}

/// Whether no two of the edits that are in order start at the same place.
pub open spec fn distinct_starts(content: Seq<char>, edits: Seq<ManifestEdit>) -> bool {
    forall|i: int, j: int|
        0 <= i < j < edits.len() && in_order(content, #[trigger] edits[i]) && in_order(
            content,
            #[trigger] edits[j],
        ) ==> splice_of(content, edits[i]).start != splice_of(content, edits[j]).start
}

/// The order in which edits are given does not matter: edits that start at different places do
/// the same in any order.
pub proof fn law_edit_order_does_not_matter(
    content: Seq<char>,
    edits: Seq<ManifestEdit>,
    reordered: Seq<ManifestEdit>,
)
    requires
        distinct_starts(content, edits),
        reordered.to_multiset() == edits.to_multiset(),
    ensures
        ordered_splices(content, reordered) == ordered_splices(content, edits),
        rewritten(content, reordered) == rewritten(content, edits),
    decreases edits.len(),
{
    broadcast use vstd::seq_lib::group_to_multiset_ensures;

    assert(reordered.len() == reordered.to_multiset().len());
    assert(edits.len() == edits.to_multiset().len());
    if edits.len() == 0 {
        assert(reordered =~= edits);
    } else {
        let rest = edits.drop_last();
        let last = edits.last();
        assert(edits =~= rest.push(last));
        assert(edits.to_multiset().count(last) > 0);
        assert(reordered.to_multiset().count(last) > 0);
        assert(reordered.contains(last));
        let k = choose|k: int| 0 <= k < reordered.len() && reordered[k] == last;
        let before = reordered.take(k);
        let after = reordered.skip(k + 1);
        let others = before + after;
        assert(reordered =~= before.push(last) + after);
        assert(others =~= reordered.remove(k));
        assert(others.to_multiset() =~= reordered.to_multiset().remove(last));
        assert(rest.to_multiset() =~= edits.to_multiset().remove(last));
        assert forall|i: int, j: int|
            0 <= i < j < rest.len() && in_order(content, #[trigger] rest[i]) && in_order(
                content,
                #[trigger] rest[j],
            ) implies splice_of(content, rest[i]).start != splice_of(content, rest[j]).start by {
            assert(rest[i] == edits[i]);
            assert(rest[j] == edits[j]);
        }
        law_edit_order_does_not_matter(content, rest, others);
        assert forall|i: int| 0 <= i < after.len() && in_order(content, last) && in_order(
            content,
            #[trigger] after[i],
        ) implies splice_of(content, last).start != splice_of(content, after[i]).start by {
            assert(others[before.len() + i] == after[i]);
            assert(others.to_multiset().count(after[i]) > 0);
            assert(rest.contains(after[i]));
            let m = choose|m: int| 0 <= m < rest.len() && rest[m] == after[i];
            assert(edits[m] == after[i]);
            assert(edits[edits.len() - 1] == last);
        }
        lemma_moved_to_end(content, before, last, after);
        lemma_ordered_push(content, others, last);
        lemma_ordered_push(content, rest, last);
    }
}

proof fn lemma_moved_to_end(
    content: Seq<char>,
    before: Seq<ManifestEdit>,
    edit: ManifestEdit,
    after: Seq<ManifestEdit>,
)
    requires
        forall|i: int|
            0 <= i < after.len() && in_order(content, edit) && in_order(
                content,
                #[trigger] after[i],
            ) ==> splice_of(content, edit).start != splice_of(content, after[i]).start,
    ensures
        ordered_splices(content, before.push(edit) + after) == ordered_splices(
            content,
            (before + after).push(edit),
        ),
    decreases after.len(),
{
    if after.len() == 0 {
        assert(before.push(edit) + after =~= (before + after).push(edit));
    } else {
        let next = after[0];
        let rest = after.drop_first();
        assert(before.push(edit) + after =~= before.push(edit).push(next) + rest);
        lemma_ordered_swap(content, before, edit, next, rest);
        assert forall|i: int| 0 <= i < rest.len() && in_order(content, edit) && in_order(
            content,
            #[trigger] rest[i],
        ) implies splice_of(content, edit).start != splice_of(content, rest[i]).start by {
            assert(rest[i] == after[i + 1]);
        }
        lemma_moved_to_end(content, before.push(next), edit, rest);
        assert(before.push(next) + rest =~= before + after);
    }
}

proof fn lemma_ordered_swap(
    content: Seq<char>,
    before: Seq<ManifestEdit>,
    a: ManifestEdit,
    b: ManifestEdit,
    after: Seq<ManifestEdit>,
)
    requires
        in_order(content, a) && in_order(content, b) ==> splice_of(content, a).start != splice_of(
            content,
            b,
        ).start,
    ensures
        ordered_splices(content, before.push(a).push(b) + after) == ordered_splices(
            content,
            before.push(b).push(a) + after,
        ),
    decreases after.len(),
{
    let left = before.push(a).push(b);
    let right = before.push(b).push(a);
    if after.len() == 0 {
        assert(left + after =~= left);
        assert(right + after =~= right);
        lemma_ordered_push(content, before, a);
        lemma_ordered_push(content, before, b);
        lemma_ordered_push(content, before.push(a), b);
        lemma_ordered_push(content, before.push(b), a);
        let s = ordered_splices(content, before);
        let x = splice_of(content, a);
        let y = splice_of(content, b);
        if x.start < y.start {
            lemma_inserts_commute(s, x, y, splice_key());
        } else if y.start < x.start {
            lemma_inserts_commute(s, y, x, splice_key());
        }
    } else {
        let rest = after.drop_last();
        let last = after.last();
        assert(left + after =~= (left + rest).push(last));
        assert(right + after =~= (right + rest).push(last));
        lemma_ordered_swap(content, before, a, b, rest);
        lemma_ordered_push(content, left + rest, last);
        lemma_ordered_push(content, right + rest, last);
    }
}

/// Positions are ordered by line and then by character.
pub proof fn law_spans_are_ordered_by_line_and_character(a: (u32, u32), b: (u32, u32))
    ensures
        span_key(a) < span_key(b) <==> a.0 < b.0 || a.0 == b.0 && a.1 < b.1,
        span_key(a) == span_key(b) <==> a == b,
{
}

/// An edit replaces what lies between its two positions; its range is in order where the end
/// does not lie before the start.
pub proof fn law_edit_replaces_between_its_positions(content: Seq<char>, edit: ManifestEdit)
    ensures
        ({
            let start = position_offset(content, edit.range.start) as int;
            let end = position_offset(content, edit.range.end) as int;
            &&& in_order(content, edit) <==> start <= end
            &&& start <= end ==> rewritten(content, seq![edit]) == content.take(start)
                + edit.new_text@ + content.skip(end)
            &&& start > end ==> rewritten(content, seq![edit]) == content
        }),
{
    reveal(Seq::filter);
    if in_order(content, edit) {
        law_single_edit_replaces_its_range(content, edit);
    } else {
        let one = seq![edit];
        let keep = |e: ManifestEdit| in_order(content, e);
        assert(one.drop_last() =~= Seq::<ManifestEdit>::empty());
        assert(one.drop_last().filter(keep) =~= Seq::<ManifestEdit>::empty());
        assert(!keep(one.last()));
        assert(one.filter(keep) =~= Seq::<ManifestEdit>::empty());
        assert(splices(content, one) =~= Seq::<Splice>::empty());
        assert(rewritten(content, one) =~= content);
    }
}

proof fn lemma_ordered_starts(content: Seq<char>, edits: Seq<ManifestEdit>, limit: int)
    requires
        forall|i: int|
            0 <= i < edits.len() && in_order(content, #[trigger] edits[i]) ==> splice_of(
                content,
                edits[i],
            ).end <= limit,
    ensures
        forall|k: int|
            0 <= k < ordered_splices(content, edits).len() ==> {
                let s = #[trigger] ordered_splices(content, edits)[k];
                0 <= s.start <= s.end <= limit
            },
    decreases edits.len(),
{
    reveal(Seq::filter);
    if edits.len() > 0 {
        let rest = edits.drop_last();
        assert forall|i: int| 0 <= i < rest.len() && in_order(
            content,
            #[trigger] rest[i],
        ) implies splice_of(content, rest[i]).end <= limit by {
            assert(edits[i] == rest[i]);
        }
        lemma_ordered_starts(content, rest, limit);
        assert(edits =~= rest.push(edits.last()));
        lemma_ordered_push(content, rest, edits.last());
        let before = ordered_splices(content, rest);
        let after = ordered_splices(content, edits);
        if in_order(content, edits.last()) {
            let added = splice_of(content, edits.last());
            assert(edits[edits.len() - 1] == edits.last());
            lemma_inserted_elements(before, added, splice_key());
            assert forall|k: int| 0 <= k < after.len() implies ({
                let s = #[trigger] after[k];
                0 <= s.start <= s.end <= limit
            }) by {
                if after[k] != added {
                    assert(before.contains(after[k]));
                    let j = choose|j: int| 0 <= j < before.len() && before[j] == after[k];
                    assert(before[j] == after[k]);
                }
            }
        }
    } else {
        assert(splices(content, edits) =~= Seq::<Splice>::empty());
    }
}

proof fn lemma_inserted_elements<T>(s: Seq<T>, x: T, key: spec_fn(T) -> int)
    ensures
        forall|k: int|
            0 <= k < insert_by_key(s, x, key).len() ==> (#[trigger] insert_by_key(s, x, key)[k]
                == x || s.contains(insert_by_key(s, x, key)[k])),
    decreases s.len(),
{
    let all = insert_by_key(s, x, key);
    if s.len() > 0 && key(x) < key(s.last()) {
        let rest = s.drop_last();
        lemma_inserted_elements(rest, x, key);
        let before = insert_by_key(rest, x, key);
        assert forall|k: int| 0 <= k < all.len() implies (#[trigger] all[k] == x || s.contains(
            all[k],
        )) by {
            if k < before.len() {
                assert(all[k] == before[k]);
                if before[k] != x {
                    let j = choose|j: int| 0 <= j < rest.len() && rest[j] == before[k];
                    assert(s[j] == all[k]);
                }
            } else {
                assert(s[s.len() - 1] == all[k]);
            }
        }
    } else {
        assert forall|k: int| 0 <= k < all.len() implies (#[trigger] all[k] == x || s.contains(
            all[k],
        )) by {
            if k < s.len() {
                assert(s[k] == all[k]);
            }
        }
    }
}

/// An edit behind all the others changes what it covers and nothing else: everything before it
/// stays as the others have made it, and everything behind it as it was.
pub proof fn law_later_edit_changes_only_its_range(
    content: Seq<char>,
    edits: Seq<ManifestEdit>,
    edit: ManifestEdit,
)
    requires
        position_offset(content, edit.range.start) <= position_offset(content, edit.range.end),
        forall|i: int|
            0 <= i < edits.len() && position_offset(content, (#[trigger] edits[i]).range.start)
                <= position_offset(content, edits[i].range.end) ==> position_offset(
                content,
                edits[i].range.end,
            ) <= position_offset(content, edit.range.start),
    ensures
        ({
            let start = position_offset(content, edit.range.start) as int;
            let end = position_offset(content, edit.range.end) as int;
            let others = rewritten(content, edits);
            let behind = content.len() - start;
            &&& behind <= others.len()
            &&& others.skip(others.len() - behind) == content.skip(start)
            &&& rewritten(content, edits.push(edit)) == others.take(others.len() - behind)
                + edit.new_text@ + content.skip(end)
        }),
{
    let start = position_offset(content, edit.range.start) as int;
    let end = position_offset(content, edit.range.end) as int;
    lemma_position_offset_bound(content, edit.range.start);
    lemma_position_offset_bound(content, edit.range.end);
    let before = ordered_splices(content, edits);
    let s = splice_of(content, edit);
    assert forall|i: int| 0 <= i < edits.len() && in_order(
        content,
        #[trigger] edits[i],
    ) implies splice_of(content, edits[i]).end <= start by {
    }
    lemma_ordered_starts(content, edits, start);
    lemma_ordered_push(content, edits, edit);
    assert(in_order(content, edit));
    if before.len() > 0 {
        assert(before[before.len() - 1].start <= start);
    }
    let after = ordered_splices(content, edits.push(edit));
    assert(after =~= before.push(s));
    assert(after.drop_last() =~= before);
    let from = splices_end(before);
    if before.len() > 0 {
        assert(before[before.len() - 1].end <= start);
    }
    assert(0 <= from <= start);
    let head = spliced_prefix(content, before);
    let others = rewritten(content, edits);
    let behind = content.len() - start;
    assert(others =~= head + content.skip(from));
    assert(others.len() == head.len() + content.len() - from);
    assert(others.take(others.len() - behind) =~= head + content.subrange(from, start));
    assert(others.skip(others.len() - behind) =~= content.skip(start));
    assert(rewritten(content, edits.push(edit)) =~= others.take(others.len() - behind)
        + edit.new_text@ + content.skip(end));
}

/// Sorting keeps the order of elements whose keys are equal.
pub proof fn law_sorting_is_stable<T>(s: Seq<T>, key: spec_fn(T) -> int, k: int)
    ensures
        stable_sorted(s, key).filter(|x: T| key(x) == k) == s.filter(|x: T| key(x) == k),
    decreases s.len(),
{
    reveal(Seq::filter);
    let same = |x: T| key(x) == k;
    if s.len() > 0 {
        let rest = s.drop_last();
        law_sorting_is_stable(rest, key, k);
        lemma_insert_is_stable(stable_sorted(rest, key), s.last(), key, k);
        let pushed = stable_sorted(rest, key).push(s.last());
        assert(pushed.drop_last() =~= stable_sorted(rest, key));
    }
}

proof fn lemma_insert_is_stable<T>(s: Seq<T>, x: T, key: spec_fn(T) -> int, k: int)
    ensures
        insert_by_key(s, x, key).filter(|y: T| key(y) == k) == s.push(x).filter(
            |y: T| key(y) == k,
        ),
    decreases s.len(),
{
    reveal(Seq::filter);
    let same = |y: T| key(y) == k;
    if s.len() > 0 && key(x) < key(s.last()) {
        let rest = s.drop_last();
        lemma_insert_is_stable(rest, x, key, k);
        let inner = insert_by_key(rest, x, key);
        let last = s.last();
        assert(inner.push(last).drop_last() =~= inner);
        assert(inner.push(last).last() == last);
        assert(rest.push(x).drop_last() =~= rest);
        assert(rest.push(x).last() == x);
        assert(s.push(x).drop_last() =~= s);
        assert(s.push(x).last() == x);
        assert(inner.filter(same) == (if same(x) {
            rest.filter(same).push(x)
        } else {
            rest.filter(same)
        }));
        assert(inner.push(last).filter(same) == (if same(last) {
            inner.filter(same).push(last)
        } else {
            inner.filter(same)
        }));
        assert(s.filter(same) == (if same(last) {
            rest.filter(same).push(last)
        } else {
            rest.filter(same)
        }));
        assert(s.push(x).filter(same) == (if same(x) {
            s.filter(same).push(x)
        } else {
            s.filter(same)
        }));
    }
}

proof fn lemma_filter_first<T>(s: Seq<T>, keep: spec_fn(T) -> bool, i: int)
    requires
        0 <= i < s.len(),
        keep(s[i]),
        forall|j: int| 0 <= j < i ==> !keep(#[trigger] s[j]),
    ensures
        s.filter(keep).len() > 0,
        s.filter(keep)[0] == s[i],
    decreases s.len(),
{
    reveal(Seq::filter);
    let rest = s.drop_last();
    if i < rest.len() {
        lemma_filter_first(rest, keep, i);
    } else {
        lemma_filter_none(rest, keep);
    }
}

proof fn lemma_filter_none<T>(s: Seq<T>, keep: spec_fn(T) -> bool)
    requires
        forall|j: int| 0 <= j < s.len() ==> !keep(#[trigger] s[j]),
    ensures
        s.filter(keep).len() == 0,
    decreases s.len(),
{
    reveal(Seq::filter);
    if s.len() > 0 {
        lemma_filter_none(s.drop_last(), keep);
        assert(!keep(s[s.len() - 1]));
    }
}

/// The first element of a sorted sequence is the first given of those with the least key.
pub proof fn lemma_first_of_sorted<T>(s: Seq<T>, key: spec_fn(T) -> int, i: int)
    requires
        0 <= i < s.len(),
        forall|j: int| 0 <= j < s.len() ==> key(s[i]) <= key(#[trigger] s[j]),
        forall|j: int| 0 <= j < i ==> key(#[trigger] s[j]) != key(s[i]),
    ensures
        stable_sorted(s, key).len() > 0,
        stable_sorted(s, key)[0] == s[i],
{
    broadcast use vstd::seq_lib::group_to_multiset_ensures;

    let k = key(s[i]);
    let same = |x: T| key(x) == k;
    let sorted = stable_sorted(s, key);
    lemma_stable_sorted(s, key);
    law_sorting_is_stable(s, key, k);
    lemma_filter_first(s, same, i);
    lemma_sorted_contains(s, key, i);
    let at = choose|at: int| 0 <= at < sorted.len() && sorted[at] == s[i];
    assert(key(sorted[0]) <= key(sorted[at]));
    assert(sorted.contains(sorted[0]));
    assert(sorted.to_multiset().count(sorted[0]) > 0);
    assert(s.to_multiset().count(sorted[0]) > 0);
    assert(s.contains(sorted[0]));
    let j = choose|j: int| 0 <= j < s.len() && s[j] == sorted[0];
    assert(key(s[i]) <= key(s[j]));
    lemma_filter_first(sorted, same, 0);
}

/// Of edits that start together, before all others, the first given survives.
pub proof fn law_first_of_edits_that_start_together_survives<E: EditSpan>(edits: Seq<E>, i: int)
    requires
        0 <= i < edits.len(),
        forall|j: int|
            0 <= j < edits.len() ==> {
                let a = edits[i].span_start();
                let b = (#[trigger] edits[j]).span_start();
                a.0 < b.0 || a.0 == b.0 && a.1 <= b.1
            },
        forall|j: int|
            0 <= j < i ==> (#[trigger] edits[j]).span_start() != edits[i].span_start(),
    ensures
        surviving_edits(edits).len() > 0,
        surviving_edits(edits)[0] == edits[i],
{
    let key = start_key::<E>();
    lemma_first_of_sorted(edits, key, i);
    lemma_stable_sorted(edits, key);
    lemma_without_overlaps(stable_sorted(edits, key));
}

} // verus!
