//! Raw-text scanners for completion in a manifest that does not parse.
//!
//! While a manifest is being edited it often does not parse. Completion then falls back to a
//! heuristic on the raw text: is the cursor inside a dependencies-like section, and if so, what
//! has been typed so far? No scanner looks past the line of the cursor.

use crate::formatter::option_text;
use crate::position::{column_offset, utf16_column_offset, Position};
use crate::text::{
    chars_of, contains, contains_text, count_occurrences, is_at, is_white_space, last_index,
    law_no_occurrence_counts_nothing, law_trimming, lemma_last_index, lemma_lines_total_len, lemma_piece_is_subrange, lemma_total_len_prefix,
    lemma_trim_end_of, lemma_until, lines, lines_of, occurrences, occurs_at, piece_start, rfind_char, same_chars, split,
    split_on, starts_with, str_texts, texts, total_len, trim, trim_end, trim_range, trimmed,
    trimmed_end_of, until, white_space,
};
use vstd::prelude::*;

verus! {

// ---------------------------------------------------------------------------
// Lines and prefixes
// ---------------------------------------------------------------------------

/// The line of `content` at `position.line`, or `None` if the document has fewer lines than
/// that.
#[must_use]
pub fn line_at(content: &str, position: Position) -> (r: Option<&str>)
    ensures
        option_text(r) == (if position.line < lines(content@).len() {
            Some(lines(content@)[position.line as int])
        } else {
            None
        }),
{
    let chars = chars_of(content);
    let parts = split(chars.as_slice(), '\n');
    let ghost pieces = split_on(content@, '\n');
    let n: usize = position.line as usize;
    if n >= parts.len() {
        return None;
    }
    let mut start: usize = 0;
    let mut i: usize = 0;
    proof {
        assert(pieces.take(0) =~= Seq::<Seq<char>>::empty());
    }
    while i < n
        invariant
            i <= n < parts@.len(),
            chars@ == content@,
            texts(parts@) == pieces,
            pieces == split_on(content@, '\n'),
            start == piece_start(pieces, i as int),
        decreases n - i,
    {
        proof {
            assert(pieces[i as int] == parts@[i as int]@);
            assert(pieces.take(i + 1).drop_last() =~= pieces.take(i as int));
            lemma_piece_is_subrange(content@, '\n', i + 1);
            assert(chars.len() == content@.len());
        }
        start = start + parts[i].len() + 1;
        i += 1;
    }
    proof {
        lemma_piece_is_subrange(content@, '\n', n as int);
        assert(pieces[n as int] == parts@[n as int]@);
        assert(chars.len() == content@.len());
    }
    let len: usize = parts[n].len();
    if n + 1 == parts.len() {
        if len == 0 {
            None
        } else {
            Some(content.substring_char(start, start + len))
        }
    } else if len > 0 && parts[n][len - 1] == '\r' {
        let r = content.substring_char(start, start + len - 1);
        proof {
            assert(r@ =~= pieces[n as int].drop_last());
        }
        Some(r)
    } else {
        Some(content.substring_char(start, start + len))
    }
}

/// What has been typed on `line` up to the UTF-16 column `character`, trimmed of white space. A
/// column beyond the line stands for its end.
#[must_use]
pub fn raw_prefix(line: &str, character: u32) -> (r: &str)
    ensures
        r@ == trimmed(line@.take(column_offset(line@, character as nat) as int)),
{
    let chars = chars_of(line);
    let end: usize = utf16_column_offset(chars.as_slice(), character);
    let typed = line.substring_char(0, end);
    proof {
        assert(typed@ =~= line@.take(end as int));
    }
    trim(typed)
}

// ---------------------------------------------------------------------------
// TOML sections
// ---------------------------------------------------------------------------

/// Whether the line is a section header, up to white space.
pub open spec fn toml_header(line: Seq<char>) -> bool {
    let t = trimmed(line);
    t.len() > 0 && t[0] == '[' && t.last() == ']'
}

/// Whether the header opens a section of dependencies.
pub open spec fn toml_dependency_header(t: Seq<char>) -> bool {
    ||| t == "[dependencies]"@
    ||| t == "[dev-dependencies]"@
    ||| t == "[build-dependencies]"@
    ||| t == "[workspace.dependencies]"@
    ||| t == "[project.dependencies]"@
    ||| t == "[project.optional-dependencies]"@
    ||| "[target."@.is_prefix_of(t) && (contains_text(t, ".dependencies]"@) || contains_text(
        t,
        ".dev-dependencies]"@,
    ) || contains_text(t, ".build-dependencies]"@))
}

/// Whether line `n` lies in the section that the header at line `h` opens: no other header
/// stands between them.
pub open spec fn toml_section_of(text: Seq<Seq<char>>, n: int, h: int) -> bool {
    &&& 0 <= h < text.len()
    &&& h <= n
    &&& toml_header(text[h])
    &&& forall|j: int| h < j <= n && j < text.len() ==> !toml_header(#[trigger] text[j])
}

/// Whether line `n` lies in a section of dependencies.
pub open spec fn in_toml_dependencies(text: Seq<Seq<char>>, n: int) -> bool {
    exists|h: int| #[trigger]
        toml_section_of(text, n, h) && toml_dependency_header(trimmed(text[h]))
}

fn trimmed_chars(line: &[char]) -> (r: &[char])
    ensures
        r@ == trimmed(line@),
        r@.len() <= line@.len(),
{
    let (lo, hi) = trim_range(line);
    &line[lo..hi]
}

fn is_text(t: &[char], literal: &str) -> (r: bool)
    ensures
        r == (t@ == literal@),
{
    let other = chars_of(literal);
    same_chars(t, other.as_slice())
}

fn contains_str(t: &[char], literal: &str) -> (r: bool)
    ensures
        r == contains_text(t@, literal@),
{
    let other = chars_of(literal);
    contains(t, other.as_slice())
}

fn is_dependency_header(t: &[char]) -> (r: bool)
    ensures
        r == toml_dependency_header(t@),
{
    if is_text(t, "[dependencies]") || is_text(t, "[dev-dependencies]") || is_text(
        t,
        "[build-dependencies]",
    ) || is_text(t, "[workspace.dependencies]") || is_text(t, "[project.dependencies]")
        || is_text(t, "[project.optional-dependencies]") {
        return true;
    }
    let target = chars_of("[target.");
    starts_with(t, target.as_slice()) && (contains_str(t, ".dependencies]") || contains_str(
        t,
        ".dev-dependencies]",
    ) || contains_str(t, ".build-dependencies]"))
}

/// Whether a line is inside a TOML dependencies section: the last section header at or above
/// the line decides.
///
/// The sections are `[dependencies]`, `[dev-dependencies]`, `[build-dependencies]`, their
/// workspace and target-specific forms, and the project sections of `pyproject.toml`.
#[must_use]
pub fn is_in_toml_dependencies(content: &str, line_number: usize) -> (r: bool)
    ensures
        r == in_toml_dependencies(lines(content@), line_number as int),
{
    let all = lines_of(content);
    let ghost text = lines(content@);
    let mut i: usize = if line_number < all.len() {
        line_number + 1
    } else {
        all.len()
    };
    while i > 0
        invariant
            i <= all@.len(),
            i <= line_number + 1,
            texts(all@) == text,
            text == lines(content@),
            forall|j: int|
                i <= j <= line_number && j < text.len() ==> !toml_header(#[trigger] text[j]),
        decreases i,
    {
        i -= 1;
        let t = trimmed_chars(all[i].as_slice());
        proof {
            assert(text[i as int] == all@[i as int]@);
        }
        if t.len() > 0 && t[0] == '[' && t[t.len() - 1] == ']' {
            let found = is_dependency_header(t);
            proof {
                assert(toml_section_of(text, line_number as int, i as int));
                assert forall|h: int| #[trigger] toml_section_of(
                    text,
                    line_number as int,
                    h,
                ) implies h == i by {
                    if h < i {
                        assert(!toml_header(text[i as int]));
                    }
                    if i < h {
                        assert(!toml_header(text[h]));
                    }
                }
            }
            return found;
        }
    }
    proof {
        assert forall|h: int| !(#[trigger] toml_section_of(text, line_number as int, h)) by {
            if 0 <= h < text.len() && h <= line_number {
                assert(!toml_header(text[h]));
            }
        }
    }
    false
}

// ---------------------------------------------------------------------------
// JSON sections
// ---------------------------------------------------------------------------

/// Where a scan of JSON text stands.
pub struct JsonScan {
    /// How many braces are open since a dependencies-like section began: none outside of one.
    pub depth: nat,
    /// Whether a key of a section was read last, so that a brace would begin the section.
    pub announced: bool,
}

/// `"<key>":`, the text that announces a section.
pub open spec fn json_needle(key: Seq<char>) -> Seq<char> {
    "\""@ + key + "\":"@
}

/// Whether `needle` ends in `line` with the character at `p`.
pub open spec fn ends_at(line: Seq<char>, needle: Seq<char>, p: int) -> bool {
    occurs_at(line, needle, p + 1 - needle.len())
}

/// Whether the character at `p` completes the announcement of one of the sections.
pub open spec fn json_announces(line: Seq<char>, keys: Seq<Seq<char>>, p: int) -> bool {
    exists|k: int| 0 <= k < keys.len() && ends_at(line, json_needle(#[trigger] keys[k]), p)
}

/// The character of `line` at `p`. A brace behind an announcement begins a section, with any
/// white space between the two; within a section braces count, and the one that closes the
/// section ends it.
///
/// A section that begins among the entries of another one takes its place: there the closing
/// brace of the other one is missing. Further down it is a part of the other one.
pub open spec fn json_char(
    st: JsonScan,
    line: Seq<char>,
    keys: Seq<Seq<char>>,
    p: int,
) -> JsonScan {
    let c = line[p];
    if white_space(c) {
        st
    } else {
        let depth = if c == '{' && st.announced && st.depth <= 1 {
            1
        } else if c == '{' && st.depth > 0 {
            st.depth + 1
        } else if c == '}' && st.depth > 0 {
            (st.depth - 1) as nat
        } else {
            st.depth
        };
        JsonScan { depth, announced: json_announces(line, keys, p) }
    }
}

/// The first `n` characters of a line, one after the other.
pub open spec fn json_chars(
    st: JsonScan,
    line: Seq<char>,
    keys: Seq<Seq<char>>,
    n: int,
) -> JsonScan
    decreases n,
{
    if n <= 0 {
        st
    } else {
        json_char(json_chars(st, line, keys, n - 1), line, keys, n - 1)
    }
}

/// Where the scan stands after the first `n` lines.
pub open spec fn json_scan(text: Seq<Seq<char>>, keys: Seq<Seq<char>>, n: int) -> JsonScan
    decreases n,
{
    if n <= 0 {
        JsonScan { depth: 0, announced: false }
    } else {
        json_chars(
            json_scan(text, keys, n - 1),
            text[n - 1],
            keys,
            text[n - 1].len() as int,
        )
    }
}

/// Whether line `n` ends inside one of the sections.
pub open spec fn in_json_dependencies(text: Seq<Seq<char>>, keys: Seq<Seq<char>>, n: int) -> bool {
    0 <= n < text.len() && json_scan(text, keys, n + 1).depth > 0
}

fn json_needles(keys: &[&str]) -> (r: Vec<Vec<char>>)
    ensures
        r@.len() == keys@.len(),
        forall|k: int| 0 <= k < keys@.len() ==> (#[trigger] r@[k])@ == json_needle(keys@[k]@),
{
    let mut out: Vec<Vec<char>> = Vec::new();
    let mut i: usize = 0;
    while i < keys.len()
        invariant
            i <= keys@.len(),
            out@.len() == i,
            forall|k: int| 0 <= k < i ==> (#[trigger] out@[k])@ == json_needle(keys@[k]@),
        decreases keys@.len() - i,
    {
        let mut needle = "\"".to_owned();
        needle.append(keys[i]);
        needle.append("\":");
        out.push(chars_of(needle.as_str()));
        i += 1;
    }
    out
}

fn is_announced(
    line: &[char],
    needles: &Vec<Vec<char>>,
    p: usize,
    Ghost(keys): Ghost<Seq<Seq<char>>>,
) -> (r: bool)
    requires
        p < line@.len(),
        needles@.len() == keys.len(),
        forall|k: int| 0 <= k < keys.len() ==> (#[trigger] needles@[k])@ == json_needle(keys[k]),
    ensures
        r == json_announces(line@, keys, p as int),
{
    let mut i: usize = 0;
    while i < needles.len()
        invariant
            i <= needles@.len(),
            p < line@.len(),
            needles@.len() == keys.len(),
            forall|k: int|
                0 <= k < keys.len() ==> (#[trigger] needles@[k])@ == json_needle(keys[k]),
            forall|k: int|
                0 <= k < i ==> !ends_at(line@, json_needle(#[trigger] keys[k]), p as int),
        decreases needles@.len() - i,
    {
        let n: usize = needles[i].len();
        proof {
            assert(needles@[i as int]@ == json_needle(keys[i as int]));
            assert(line.len() == line@.len());
        }
        if n <= p + 1 && is_at(line, needles[i].as_slice(), p + 1 - n) {
            proof {
                assert(ends_at(line@, json_needle(keys[i as int]), p as int));
            }
            return true;
        }
        i += 1;
    }
    false
}

/// Whether a line is inside a JSON dependencies-like section: an object under one of the given
/// `keys`, such as `dependencies` and `devDependencies` in `package.json`.
///
/// A section is found by `"{key}": {`. An entry of that name whose value is no object, such as a
/// package called `dependencies`, begins none.
#[must_use]
pub fn is_in_json_dependencies(content: &str, line_number: usize, keys: &[&str]) -> (r: bool)
    ensures
        r == in_json_dependencies(lines(content@), str_texts(keys@), line_number as int),
{
    let all = lines_of(content);
    let ghost text = lines(content@);
    let ghost ks = str_texts(keys@);
    let needles = json_needles(keys);
    let chars = chars_of(content);
    proof {
        lemma_lines_total_len(content@);
        assert(chars.len() == content@.len());
        assert(text.take(0) =~= Seq::<Seq<char>>::empty());
        assert forall|k: int| 0 <= k < ks.len() implies (#[trigger] needles@[k])@ == json_needle(
            ks[k],
        ) by {
            assert(ks[k] == keys@[k]@);
        }
    }
    if line_number >= all.len() {
        return false;
    }
    let mut depth: usize = 0;
    let mut announced: bool = false;
    let mut i: usize = 0;
    while i <= line_number
        invariant
            i <= line_number + 1,
            line_number < all.len(),
            texts(all@) == text,
            total_len(text) <= usize::MAX,
            needles@.len() == ks.len(),
            forall|k: int| 0 <= k < ks.len() ==> (#[trigger] needles@[k])@ == json_needle(ks[k]),
            depth == json_scan(text, ks, i as int).depth,
            announced == json_scan(text, ks, i as int).announced,
            depth <= total_len(text.take(i as int)),
        decreases line_number + 1 - i,
    {
        let ghost st = json_scan(text, ks, i as int);
        let ghost base = total_len(text.take(i as int));
        let line = all[i].as_slice();
        proof {
            assert(text[i as int] == all@[i as int]@);
            assert(text.take(i + 1).drop_last() =~= text.take(i as int));
            lemma_total_len_prefix(text, i + 1);
        }
        let mut p: usize = 0;
        while p < line.len()
            invariant
                p <= line@.len(),
                base + line@.len() <= usize::MAX,
                needles@.len() == ks.len(),
                forall|k: int|
                    0 <= k < ks.len() ==> (#[trigger] needles@[k])@ == json_needle(ks[k]),
                depth == json_chars(st, line@, ks, p as int).depth,
                announced == json_chars(st, line@, ks, p as int).announced,
                depth <= base + p,
            decreases line@.len() - p,
        {
            let c = line[p];
            if !is_white_space(c) {
                if c == '{' && announced && depth <= 1 {
                    depth = 1;
                } else if c == '{' && depth > 0 {
                    depth += 1;
                } else if c == '}' && depth > 0 {
                    depth -= 1;
                }
                announced = is_announced(line, &needles, p, Ghost(ks));
            }
            p += 1;
        }
        i += 1;
    }
    depth > 0
}

// ---------------------------------------------------------------------------
// XML sections
// ---------------------------------------------------------------------------

/// Where the tag that `s` begins within ends: at the first `>` from `at` on that stands in no
/// attribute value, or at the end of `s` where there is none. `quote` is the quote that is open.
pub open spec fn tag_end(s: Seq<char>, quote: Option<char>, at: int) -> int
    decreases s.len() - at,
{
    if at < 0 || at >= s.len() {
        s.len() as int
    } else {
        match quote {
            Some(open) => tag_end(
                s,
                if s[at] == open {
                    None
                } else {
                    quote
                },
                at + 1,
            ),
            None => if s[at] == '>' {
                at
            } else if is_quote()(s[at]) {
                tag_end(s, Some(s[at]), at + 1)
            } else {
                tag_end(s, None, at + 1)
            },
        }
    }
}

/// Whether the tag that `s` begins within, behind its name, is self-closing: it ends on the line,
/// with `/>`.
pub open spec fn self_closing(s: Seq<char>) -> bool {
    let end = tag_end(s, None, 0);
    0 < end < s.len() && s[end - 1] == '/'
}

/// Whether `rest`, what follows `<` and a tag name, shows an opening tag of that very name: the
/// name ends there, with `>` or white space, and the tag is not self-closing.
pub open spec fn opens_element(rest: Seq<char>) -> bool {
    rest.len() > 0 && (rest[0] == '>' || white_space(rest[0])) && !self_closing(rest)
}

/// How many elements the line opens with `open`, counted from the left without overlaps.
pub open spec fn open_tags(line: Seq<char>, open: Seq<char>) -> nat
    decreases line.len(),
{
    if open.len() == 0 || line.len() < open.len() {
        0
    } else if open.is_prefix_of(line) {
        let rest = line.skip(open.len() as int);
        (if opens_element(rest) {
            1nat
        } else {
            0nat
        }) + open_tags(rest, open)
    } else {
        open_tags(line.drop_first(), open)
    }
}

/// `<tag`, with which an element opens.
pub open spec fn xml_open(tag: Seq<char>) -> Seq<char> {
    "<"@ + tag
}

/// `</tag>`, with which an element closes.
pub open spec fn xml_close(tag: Seq<char>) -> Seq<char> {
    "</"@ + tag + ">"@
}

/// How many elements `tag` are open after the first `n` lines: closings beyond the openings
/// count for nothing.
pub open spec fn xml_depth(text: Seq<Seq<char>>, tag: Seq<char>, n: int) -> nat
    decreases n,
{
    if n <= 0 {
        0
    } else {
        let opened = xml_depth(text, tag, n - 1) + open_tags(text[n - 1], xml_open(tag));
        let closed = occurrences(text[n - 1], xml_close(tag));
        if opened >= closed {
            (opened - closed) as nat
        } else {
            0
        }
    }
}

/// Whether line `n` opens an element `tag` or ends inside one.
pub open spec fn in_xml_section(text: Seq<Seq<char>>, tag: Seq<char>, n: int) -> bool {
    &&& 0 <= n < text.len()
    &&& (open_tags(text[n], xml_open(tag)) > 0 || xml_depth(text, tag, n + 1) > 0)
}

fn is_self_closing(s: &[char]) -> (r: bool)
    ensures
        r == self_closing(s@),
{
    let mut quote: Option<char> = None;
    let mut at: usize = 0;
    while at < s.len()
        invariant
            at <= s@.len(),
            tag_end(s@, quote, at as int) == tag_end(s@, None, 0),
        decreases s@.len() - at,
    {
        let c = s[at];
        match quote {
            Some(open) => {
                if c == open {
                    quote = None;
                }
            },
            None => {
                if c == '>' {
                    return at > 0 && s[at - 1] == '/';
                }
                if c == '"' || c == '\'' {
                    quote = Some(c);
                }
            },
        }
        at += 1;
    }
    false
}

/// Counts the elements that `open_prefix` really opens on `line`: the prefix followed by `>` or
/// white space, not by more of a longer tag name, and not in a self-closing tag.
fn count_open_tags(line: &[char], open_prefix: &[char]) -> (r: usize)
    requires
        open_prefix@.len() > 0,
    ensures
        r == open_tags(line@, open_prefix@),
        r <= line@.len(),
{
    let mut at: usize = 0;
    let mut n: usize = 0;
    proof {
        assert(line@.skip(0) =~= line@);
    }
    while at < line.len()
        invariant
            open_prefix@.len() > 0,
            at <= line@.len(),
            n <= at,
            n + open_tags(line@.skip(at as int), open_prefix@) == open_tags(line@, open_prefix@),
        decreases line@.len() - at,
    {
        let ghost rest = line@.skip(at as int);
        let ghost p = open_prefix@.len() as int;
        if is_at(line, open_prefix, at) {
            proof {
                assert(line@.subrange(at as int, at + p) =~= rest.subrange(0, p));
                assert(rest.skip(p) =~= line@.skip(at + p));
            }
            at += open_prefix.len();
            let after = &line[at..line.len()];
            proof {
                assert(after@ =~= rest.skip(p));
            }
            if after.len() > 0 && (after[0] == '>' || is_white_space(after[0])) && !is_self_closing(
                after,
            ) {
                n += 1;
            }
        } else {
            proof {
                if p <= rest.len() && open_prefix@.is_prefix_of(rest) {
                    assert(line@.subrange(at as int, at + p) =~= rest.subrange(0, p));
                    assert(false);
                }
                assert(rest.drop_first() =~= line@.skip(at + 1));
                if rest.len() < p {
                    assert(open_tags(rest.drop_first(), open_prefix@) == 0);
                }
            }
            at += 1;
        }
    }
    n
}

/// Whether a line is inside an XML `<tag>...</tag>` element, or opens one.
///
/// Tracks nested open and close tags, so that the line may fall within any occurrence of the
/// element, such as `<dependencies>` in `pom.xml`. Attributes and self-closing tags do not count.
#[must_use]
pub fn is_in_xml_tag_section(content: &str, line_number: usize, tag: &str) -> (r: bool)
    ensures
        r == in_xml_section(lines(content@), tag@, line_number as int),
{
    let all = lines_of(content);
    let ghost text = lines(content@);
    let mut open_text = "<".to_owned();
    open_text.append(tag);
    let mut close_text = "</".to_owned();
    close_text.append(tag);
    close_text.append(">");
    let open = chars_of(open_text.as_str());
    let close = chars_of(close_text.as_str());
    let chars = chars_of(content);
    proof {
        reveal_strlit("<");
        reveal_strlit("</");
        lemma_lines_total_len(content@);
        assert(chars.len() == content@.len());
        assert(text.take(0) =~= Seq::<Seq<char>>::empty());
    }
    if line_number >= all.len() {
        return false;
    }
    let mut depth: usize = 0;
    let mut i: usize = 0;
    while i < line_number
        invariant
            i <= line_number < all@.len(),
            texts(all@) == text,
            total_len(text) <= usize::MAX,
            open@ == xml_open(tag@),
            close@ == xml_close(tag@),
            open@.len() > 0,
            close@.len() > 0,
            depth == xml_depth(text, tag@, i as int),
            depth <= total_len(text.take(i as int)),
        decreases line_number - i,
    {
        proof {
            assert(text[i as int] == all@[i as int]@);
            assert(text.take(i + 1).drop_last() =~= text.take(i as int));
            lemma_total_len_prefix(text, i + 1);
        }
        let opened: usize = depth + count_open_tags(all[i].as_slice(), open.as_slice());
        let closed: usize = count_occurrences(all[i].as_slice(), close.as_slice());
        depth = if opened >= closed {
            opened - closed
        } else {
            0
        };
        i += 1;
    }
    proof {
        assert(text[i as int] == all@[i as int]@);
        assert(text.take(i + 1).drop_last() =~= text.take(i as int));
        lemma_total_len_prefix(text, i + 1);
    }
    let opens_here: usize = count_open_tags(all[i].as_slice(), open.as_slice());
    if opens_here > 0 {
        return true;
    }
    let closed: usize = count_occurrences(all[i].as_slice(), close.as_slice());
    depth > closed
}

// ---------------------------------------------------------------------------
// XML values
// ---------------------------------------------------------------------------

/// Whether a character ends an element name: `>`, a slash or white space.
pub open spec fn ends_element_name() -> spec_fn(char) -> bool {
    |c: char| c == '>' || c == '/' || white_space(c)
}

/// What follows the last `>` of `prefix`; all of it where there is none.
pub open spec fn after_last_tag(prefix: Seq<char>) -> Seq<char> {
    prefix.skip(last_index(prefix, '>') + 1)
}

/// The name of the element whose content the end of `prefix` lies in: the tag that the last `>`
/// closes, where that is an opening tag.
pub open spec fn open_element(prefix: Seq<char>) -> Option<Seq<char>> {
    let gt = last_index(prefix, '>');
    let lt = last_index(prefix.take(gt), '<');
    if gt < 0 || lt < 0 {
        None
    } else {
        let name = until(prefix.subrange(lt + 1, gt), ends_element_name());
        if name.len() == 0 {
            None
        } else {
            Some(name)
        }
    }
}

/// Strips everything up to and including the last `>` in `prefix`, and names the element whose
/// content the cursor now sits in.
///
/// `<artifactId>gua` gives `("gua", Some("artifactId"))`. There is no name where there is no
/// `>` at all, and none after a closing tag (`</artifactId>`), whose name begins with `/`.
#[must_use]
pub fn strip_leading_xml_tag(prefix: &str) -> (r: (&str, Option<&str>))
    ensures
        r.0@ == after_last_tag(prefix@),
        option_text(r.1) == open_element(prefix@),
{
    let chars = chars_of(prefix);
    proof {
        lemma_last_index(prefix@, '>');
        assert(prefix@.skip(0) =~= prefix@);
    }
    let gt = match rfind_char(chars.as_slice(), '>') {
        None => {
            proof {
                if last_index(prefix@, '>') >= 0 {
                    assert(prefix@.contains(prefix@[last_index(prefix@, '>')]));
                }
            }
            return (prefix, None);
        },
        Some(gt) => gt,
    };
    proof {
        assert(last_index(prefix@, '>') == gt);
    }
    let stripped = prefix.substring_char(gt + 1, chars.len());
    proof {
        assert(stripped@ =~= prefix@.skip(gt + 1));
    }
    let head = &chars.as_slice()[0..gt];
    proof {
        assert(head@ =~= prefix@.take(gt as int));
        lemma_last_index(head@, '<');
    }
    let lt = match rfind_char(head, '<') {
        None => {
            proof {
                if last_index(head@, '<') >= 0 {
                    assert(head@.contains(head@[last_index(head@, '<')]));
                }
            }
            return (stripped, None);
        },
        Some(lt) => lt,
    };
    proof {
        assert(last_index(head@, '<') == lt);
    }
    let mut end: usize = lt + 1;
    while end < gt && chars[end] != '>' && chars[end] != '/' && !is_white_space(chars[end])
        invariant
            lt < end <= gt < chars@.len(),
            forall|j: int| lt < j < end ==> !ends_element_name()(#[trigger] chars@[j]),
        decreases gt - end,
    {
        end += 1;
    }
    proof {
        let tag = prefix@.subrange(lt + 1, gt as int);
        let n = end - lt - 1;
        assert forall|j: int| 0 <= j < n implies !ends_element_name()(#[trigger] tag[j]) by {
            assert(tag[j] == chars@[lt + 1 + j]);
        }
        if n < tag.len() {
            assert(tag[n] == chars@[end as int]);
        }
        lemma_until(tag, ends_element_name(), n);
        assert(prefix@.subrange(lt + 1, end as int) =~= tag.take(n));
    }
    if end == lt + 1 {
        (stripped, None)
    } else {
        (stripped, Some(prefix.substring_char(lt + 1, end)))
    }
}

/// Whether a character is a quote of either kind.
pub open spec fn is_quote() -> spec_fn(char) -> bool {
    |c: char| c == '"' || c == '\''
}

/// The white-space-free end of `s`.
pub open spec fn word_at_end(s: Seq<char>) -> Seq<char>
    decreases s.len(),
{
    if s.len() == 0 || white_space(s.last()) {
        Seq::empty()
    } else {
        word_at_end(s.drop_last()).push(s.last())
    }
}

/// `s` without one trailing `=`.
pub open spec fn without_equals(s: Seq<char>) -> Seq<char> {
    if s.len() > 0 && s.last() == '=' {
        s.drop_last()
    } else {
        s
    }
}

/// The attribute name that stands before an opening quote: the last word before the `=`.
pub open spec fn attribute_name(before_quote: Seq<char>) -> Seq<char> {
    word_at_end(trim_end(without_equals(trim_end(before_quote))))
}

/// Where a scan for an open attribute value stands.
pub struct AttributeScan {
    /// The quote that is open.
    pub quote: Option<char>,
    /// Where the value of the quote opened last begins.
    pub value_start: int,
    /// Whether that value belongs to a wanted attribute of a wanted element.
    pub wanted: bool,
    /// Where the text since the last `<`, `<!--` or closed quote begins.
    pub segment_start: int,
    /// The name of the element opened last.
    pub element: Seq<char>,
    /// Whether the tag of that element is still open.
    pub tag_open: bool,
    /// Whether a comment is open.
    pub in_comment: bool,
}

/// The scan before the first character.
pub open spec fn attribute_scan_start() -> AttributeScan {
    AttributeScan {
        quote: None,
        value_start: 0,
        wanted: false,
        segment_start: 0,
        element: Seq::empty(),
        tag_open: false,
        in_comment: false,
    }
}

/// One character of the scan. A quote closes only on its own kind. Outside quotes `<` begins a
/// tag and `>` ends it, and within a tag a quote begins the value of the attribute named before
/// it. Text outside of tags and comments are passed over.
pub open spec fn attribute_step(
    prefix: Seq<char>,
    st: AttributeScan,
    i: int,
    elements: Seq<Seq<char>>,
    attrs: Seq<Seq<char>>,
) -> AttributeScan {
    let c = prefix[i];
    match st.quote {
        Some(open) => if c == open {
            AttributeScan { quote: None, segment_start: i + 1, ..st }
        } else {
            st
        },
        None => if st.in_comment {
            let ended = st.segment_start <= i - 2 && occurs_at(prefix, "-->"@, i - 2);
            AttributeScan { in_comment: !ended, ..st }
        } else if occurs_at(prefix, "<!--"@, i) {
            AttributeScan { segment_start: i + 4, tag_open: false, in_comment: true, ..st }
        } else if c == '<' {
            AttributeScan {
                segment_start: i + 1,
                element: until(prefix.skip(i + 1), ends_element_name()),
                tag_open: true,
                ..st
            }
        } else if st.tag_open && c == '>' {
            AttributeScan { tag_open: false, ..st }
        } else if st.tag_open && is_quote()(c) {
            let name = attribute_name(prefix.subrange(st.segment_start, i));
            AttributeScan {
                quote: Some(c),
                value_start: i + 1,
                wanted: elements.contains(st.element) && attrs.contains(name),
                ..st
            }
        } else {
            st
        },
    }
}

/// Where the scan stands after the first `n` characters.
pub open spec fn attribute_scan(
    prefix: Seq<char>,
    n: int,
    elements: Seq<Seq<char>>,
    attrs: Seq<Seq<char>>,
) -> AttributeScan
    decreases n,
{
    if n <= 0 {
        attribute_scan_start()
    } else {
        attribute_step(
            prefix,
            attribute_scan(prefix, n - 1, elements, attrs),
            n - 1,
            elements,
            attrs,
        )
    }
}

/// The value being typed at the end of `prefix`: empty unless a value of a wanted attribute is
/// open there. A quote of either kind ends it.
pub open spec fn open_attribute_value(
    prefix: Seq<char>,
    elements: Seq<Seq<char>>,
    attrs: Seq<Seq<char>>,
) -> Seq<char> {
    let st = attribute_scan(prefix, prefix.len() as int, elements, attrs);
    if st.quote is Some && st.wanted {
        until(prefix.skip(st.value_start), is_quote())
    } else {
        Seq::empty()
    }
}

fn is_listed(names: &[&str], name: &[char]) -> (r: bool)
    ensures
        r == str_texts(names@).contains(name@),
{
    let mut i: usize = 0;
    while i < names.len()
        invariant
            i <= names@.len(),
            forall|k: int| 0 <= k < i ==> (#[trigger] names@[k])@ != name@,
        decreases names@.len() - i,
    {
        if is_text(name, names[i]) {
            proof {
                assert(str_texts(names@)[i as int] == name@);
            }
            return true;
        }
        i += 1;
    }
    proof {
        assert forall|k: int| 0 <= k < str_texts(names@).len() implies str_texts(names@)[k]
            != name@ by {
            assert(names@[k]@ != name@);
        }
    }
    false
}

proof fn lemma_word_at_end(s: Seq<char>, k: int)
    requires
        0 <= k <= s.len(),
        forall|j: int| k <= j < s.len() ==> !white_space(#[trigger] s[j]),
        k > 0 ==> white_space(s[k - 1]),
    ensures
        word_at_end(s) == s.skip(k),
    decreases s.len(),
{
    if k == s.len() {
        assert(word_at_end(s) =~= s.skip(k));
    } else {
        let t = s.drop_last();
        assert(!white_space(s[s.len() - 1]));
        assert forall|j: int| k <= j < t.len() implies !white_space(#[trigger] t[j]) by {
            assert(!white_space(s[j]));
        }
        lemma_word_at_end(t, k);
        assert(t.skip(k).push(s.last()) =~= s.skip(k));
    }
}

fn find_attribute_name(before_quote: &[char]) -> (r: &[char])
    ensures
        r@ == attribute_name(before_quote@),
{
    let mut hi: usize = trimmed_end_of(before_quote);
    let head = &before_quote[0..hi];
    proof {
        assert(head@ =~= trim_end(before_quote@));
    }
    if hi > 0 && head[hi - 1] == '=' {
        hi -= 1;
    }
    let named = &head[0..hi];
    proof {
        assert(named@ =~= without_equals(trim_end(before_quote@)));
    }
    let end: usize = trimmed_end_of(named);
    let word = &named[0..end];
    proof {
        assert(word@ =~= trim_end(named@));
    }
    let mut k: usize = end;
    while k > 0 && !is_white_space(word[k - 1])
        invariant
            k <= word@.len(),
            forall|j: int| k <= j < word@.len() ==> !white_space(#[trigger] word@[j]),
        decreases k,
    {
        k -= 1;
    }
    let r = &word[k..end];
    proof {
        lemma_word_at_end(word@, k as int);
        assert(r@ =~= word@.skip(k as int));
    }
    r
}

/// Extracts the value being typed inside an open attribute (named in `attrs`) at the end of
/// `prefix`, on one of the elements named in `elements`: `<PackageReference Include="Newt`
/// gives `Newt`.
///
/// Empty whenever the cursor is not inside an unclosed value of one of the attributes on one of
/// the elements, so that neither markup nor text outside of it is ever taken for a package name.
/// Only an element that opens on the cursor's line is seen.
#[must_use]
pub fn strip_open_xml_attribute_value<'a>(
    prefix: &'a str,
    elements: &[&str],
    attrs: &[&str],
) -> (r: &'a str)
    ensures
        r@ == open_attribute_value(prefix@, str_texts(elements@), str_texts(attrs@)),
{
    let chars = chars_of(prefix);
    let ghost es = str_texts(elements@);
    let ghost ats = str_texts(attrs@);
    let mut quote: Option<char> = None;
    let mut value_start: usize = 0;
    let mut wanted: bool = false;
    let mut segment_start: usize = 0;
    let mut element: Vec<char> = Vec::new();
    let mut tag_open: bool = false;
    let mut in_comment: bool = false;
    let comment_start = chars_of("<!--");
    let comment_end = chars_of("-->");
    proof {
        reveal_strlit("<!--");
        reveal_strlit("-->");
    }
    let mut i: usize = 0;
    while i < chars.len()
        invariant
            i <= chars@.len(),
            chars@ == prefix@,
            comment_start@ == "<!--"@,
            comment_start@.len() == 4,
            comment_end@ == "-->"@,
            comment_end@.len() == 3,
            es == str_texts(elements@),
            ats == str_texts(attrs@),
            ({
                let st = attribute_scan(prefix@, i as int, es, ats);
                &&& st.quote == quote
                &&& st.value_start == value_start
                &&& st.wanted == wanted
                &&& st.segment_start == segment_start
                &&& st.element == element@
                &&& st.tag_open == tag_open
                &&& st.in_comment == in_comment
            }),
            segment_start <= chars@.len(),
            tag_open ==> segment_start <= i,
            value_start <= i,
        decreases chars@.len() - i,
    {
        let c = chars[i];
        match quote {
            Some(open) => {
                if c == open {
                    quote = None;
                    segment_start = i + 1;
                }
            },
            None => {
                if in_comment {
                    if i >= 2 && segment_start <= i - 2 && is_at(
                        chars.as_slice(),
                        comment_end.as_slice(),
                        i - 2,
                    ) {
                        in_comment = false;
                    }
                } else if is_at(chars.as_slice(), comment_start.as_slice(), i) {
                    segment_start = i + 4;
                    tag_open = false;
                    in_comment = true;
                } else if c == '<' {
                    segment_start = i + 1;
                    tag_open = true;
                    let mut end: usize = i + 1;
                    while end < chars.len() && chars[end] != '>' && chars[end] != '/'
                        && !is_white_space(chars[end])
                        invariant
                            i < end <= chars@.len(),
                            forall|j: int|
                                i < j < end ==> !ends_element_name()(#[trigger] chars@[j]),
                        decreases chars@.len() - end,
                    {
                        end += 1;
                    }
                    element = Vec::new();
                    let mut k: usize = i + 1;
                    while k < end
                        invariant
                            i < k <= end <= chars@.len(),
                            element@ == chars@.subrange(i + 1, k as int),
                        decreases end - k,
                    {
                        element.push(chars[k]);
                        proof {
                            assert(chars@.subrange(i + 1, k + 1) =~= chars@.subrange(
                                i + 1,
                                k as int,
                            ).push(chars@[k as int]));
                        }
                        k += 1;
                    }
                    proof {
                        let rest = prefix@.skip(i + 1);
                        let n = end - i - 1;
                        assert forall|j: int| 0 <= j < n implies !ends_element_name()(
                            #[trigger] rest[j],
                        ) by {
                            assert(rest[j] == chars@[i + 1 + j]);
                        }
                        if n < rest.len() {
                            assert(rest[n] == chars@[end as int]);
                        }
                        lemma_until(rest, ends_element_name(), n);
                        assert(element@ =~= rest.take(n));
                    }
                } else if tag_open && c == '>' {
                    tag_open = false;
                } else if tag_open && (c == '"' || c == '\'') {
                    let segment = &chars.as_slice()[segment_start..i];
                    proof {
                        assert(segment@ =~= prefix@.subrange(segment_start as int, i as int));
                    }
                    let name = find_attribute_name(segment);
                    wanted = is_listed(elements, element.as_slice()) && is_listed(attrs, name);
                    quote = Some(c);
                    value_start = i + 1;
                }
            },
        }
        i += 1;
    }
    if quote.is_some() && wanted {
        let mut end: usize = value_start;
        while end < chars.len() && chars[end] != '"' && chars[end] != '\''
            invariant
                value_start <= end <= chars@.len(),
                forall|j: int| value_start <= j < end ==> !is_quote()(#[trigger] chars@[j]),
            decreases chars@.len() - end,
        {
            end += 1;
        }
        let r = prefix.substring_char(value_start, end);
        proof {
            let value = prefix@.skip(value_start as int);
            let n = end - value_start;
            assert forall|j: int| 0 <= j < n implies !is_quote()(#[trigger] value[j]) by {
                assert(value[j] == chars@[value_start + j]);
            }
            if n < value.len() {
                assert(value[n] == chars@[end as int]);
            }
            lemma_until(value, is_quote(), n);
            assert(r@ =~= value.take(n));
        }
        return r;
    }
    let r = prefix.substring_char(0, 0);
    proof {
        assert(r@ =~= Seq::<char>::empty());
    }
    r
}

// ---------------------------------------------------------------------------
// Laws
// ---------------------------------------------------------------------------

/// Whether a line lies in a TOML section does not depend on what follows the line.
pub proof fn law_toml_scan_ignores_later_lines(text: Seq<Seq<char>>, n: int)
    requires
        0 <= n < text.len(),
    ensures
        in_toml_dependencies(text.take(n + 1), n) == in_toml_dependencies(text, n),
{
    let cut = text.take(n + 1);
    assert forall|h: int| toml_section_of(cut, n, h) == toml_section_of(text, n, h) by {
        if 0 <= h <= n {
            assert(cut[h] == text[h]);
            if toml_section_of(cut, n, h) {
                assert forall|j: int| h < j <= n && j < text.len() implies !toml_header(
                    #[trigger] text[j],
                ) by {
                    assert(!toml_header(cut[j]));
                }
            }
            if toml_section_of(text, n, h) {
                assert forall|j: int| h < j <= n && j < cut.len() implies !toml_header(
                    #[trigger] cut[j],
                ) by {
                    assert(!toml_header(text[j]));
                }
            }
        }
    }
    if in_toml_dependencies(text, n) {
        let h = choose|h: int| #[trigger]
            toml_section_of(text, n, h) && toml_dependency_header(trimmed(text[h]));
        assert(toml_section_of(cut, n, h));
    }
    if in_toml_dependencies(cut, n) {
        let h = choose|h: int| #[trigger]
            toml_section_of(cut, n, h) && toml_dependency_header(trimmed(cut[h]));
        assert(toml_section_of(text, n, h));
    }
}

proof fn lemma_json_scan_cut(text: Seq<Seq<char>>, keys: Seq<Seq<char>>, n: int, m: int)
    requires
        0 <= m <= n <= text.len(),
    ensures
        json_scan(text.take(n), keys, m) == json_scan(text, keys, m),
    decreases m,
{
    if m > 0 {
        lemma_json_scan_cut(text, keys, n, m - 1);
        assert(text.take(n)[m - 1] == text[m - 1]);
    }
}

/// Whether a line lies in a JSON section does not depend on what follows the line.
pub proof fn law_json_scan_ignores_later_lines(
    text: Seq<Seq<char>>,
    keys: Seq<Seq<char>>,
    n: int,
)
    requires
        0 <= n < text.len(),
    ensures
        in_json_dependencies(text.take(n + 1), keys, n) == in_json_dependencies(text, keys, n),
{
    lemma_json_scan_cut(text, keys, n + 1, n + 1);
}

proof fn lemma_xml_depth_cut(text: Seq<Seq<char>>, tag: Seq<char>, n: int, m: int)
    requires
        0 <= m <= n <= text.len(),
    ensures
        xml_depth(text.take(n), tag, m) == xml_depth(text, tag, m),
    decreases m,
{
    if m > 0 {
        lemma_xml_depth_cut(text, tag, n, m - 1);
        assert(text.take(n)[m - 1] == text[m - 1]);
    }
}

/// Whether a line lies in an XML element does not depend on what follows the line.
pub proof fn law_xml_scan_ignores_later_lines(text: Seq<Seq<char>>, tag: Seq<char>, n: int)
    requires
        0 <= n < text.len(),
    ensures
        in_xml_section(text.take(n + 1), tag, n) == in_xml_section(text, tag, n),
{
    lemma_xml_depth_cut(text, tag, n + 1, n + 1);
    assert(text.take(n + 1)[n] == text[n]);
}

proof fn lemma_until_has_no_stop(s: Seq<char>, stop: spec_fn(char) -> bool)
    ensures
        forall|i: int| 0 <= i < until(s, stop).len() ==> !stop(#[trigger] until(s, stop)[i]),
    decreases s.len(),
{
    if s.len() > 0 && !stop(s[0]) {
        let t = s.drop_first();
        lemma_until_has_no_stop(t, stop);
        assert forall|i: int| 0 <= i < until(s, stop).len() implies !stop(
            #[trigger] until(s, stop)[i],
        ) by {
            if i > 0 {
                assert(until(s, stop)[i] == until(t, stop)[i - 1]);
            }
        }
    }
}

/// An extracted attribute value never holds a quote of either kind.
pub proof fn law_attribute_value_has_no_quote(
    prefix: Seq<char>,
    elements: Seq<Seq<char>>,
    attrs: Seq<Seq<char>>,
)
    ensures
        !open_attribute_value(prefix, elements, attrs).contains('"'),
        !open_attribute_value(prefix, elements, attrs).contains('\''),
{
    let st = attribute_scan(prefix, prefix.len() as int, elements, attrs);
    lemma_until_has_no_stop(prefix.skip(st.value_start), is_quote());
}

/// Without a wanted element or a wanted attribute no value is ever extracted.
pub proof fn law_nothing_wanted_nothing_extracted(
    prefix: Seq<char>,
    elements: Seq<Seq<char>>,
    attrs: Seq<Seq<char>>,
)
    requires
        elements.len() == 0 || attrs.len() == 0,
    ensures
        open_attribute_value(prefix, elements, attrs).len() == 0,
{
    lemma_nothing_wanted(prefix, prefix.len() as int, elements, attrs);
}

proof fn lemma_nothing_wanted(
    prefix: Seq<char>,
    n: int,
    elements: Seq<Seq<char>>,
    attrs: Seq<Seq<char>>,
)
    requires
        elements.len() == 0 || attrs.len() == 0,
    ensures
        !attribute_scan(prefix, n, elements, attrs).wanted,
    decreases n,
{
    if n > 0 {
        lemma_nothing_wanted(prefix, n - 1, elements, attrs);
    }
}

proof fn lemma_quote_needs_a_tag(
    prefix: Seq<char>,
    n: int,
    elements: Seq<Seq<char>>,
    attrs: Seq<Seq<char>>,
)
    ensures
        ({
            let st = attribute_scan(prefix, n, elements, attrs);
            &&& st.quote is Some ==> st.tag_open
            &&& st.tag_open ==> !st.in_comment
        }),
    decreases n,
{
    if n > 0 {
        lemma_quote_needs_a_tag(prefix, n - 1, elements, attrs);
    }
}

/// Nothing is extracted where the cursor stands outside of every tag, in plain text or in a
/// comment.
pub proof fn law_text_outside_tags_extracts_nothing(
    prefix: Seq<char>,
    elements: Seq<Seq<char>>,
    attrs: Seq<Seq<char>>,
)
    requires
        ({
            let st = attribute_scan(prefix, prefix.len() as int, elements, attrs);
            !st.tag_open || st.in_comment
        }),
    ensures
        open_attribute_value(prefix, elements, attrs).len() == 0,
{
    lemma_quote_needs_a_tag(prefix, prefix.len() as int, elements, attrs);
}

// XML elements

/// The closing tag counts for an element and no other does: a line with neither an opening nor
/// the closing tag of the element leaves it as open or closed as it was, whatever other tags it
/// holds. In general the openings of a line count up and its closing tags down, to zero at most.
pub proof fn law_xml_depth_goes_by_the_elements_own_tags(
    text: Seq<Seq<char>>,
    tag: Seq<char>,
    n: int,
)
    requires
        0 <= n < text.len(),
    ensures
        xml_depth(text, tag, 0) == 0,
        open_tags(text[n], seq!['<'] + tag) == 0 && !contains_text(
            text[n],
            seq!['<', '/'] + tag + seq!['>'],
        ) ==> xml_depth(text, tag, n + 1) == xml_depth(text, tag, n),
        ({
            let opened = xml_depth(text, tag, n) + open_tags(text[n], seq!['<'] + tag);
            let closed = occurrences(text[n], seq!['<', '/'] + tag + seq!['>']);
            &&& opened >= closed ==> xml_depth(text, tag, n + 1) == opened - closed
            &&& opened < closed ==> xml_depth(text, tag, n + 1) == 0
        }),
{
    lemma_xml_tags(tag);
    if !contains_text(text[n], xml_close(tag)) {
        law_no_occurrence_counts_nothing(text[n], xml_close(tag));
    }
}

/// A line that opens an element, and every line behind it up to the element's closing tag, lies
/// in the element, whatever other tags close in between.
pub proof fn law_element_is_open_until_its_closing_tag(
    text: Seq<Seq<char>>,
    tag: Seq<char>,
    h: int,
    n: int,
)
    requires
        0 <= h <= n < text.len(),
        open_tags(text[h], seq!['<'] + tag) > 0,
        forall|j: int|
            h <= j <= n ==> !contains_text(
                #[trigger] text[j],
                seq!['<', '/'] + tag + seq!['>'],
            ),
    ensures
        in_xml_section(text, tag, n),
        xml_depth(text, tag, n + 1) > 0,
    decreases n,
{
    assert(!contains_text(text[n], seq!['<', '/'] + tag + seq!['>']));
    lemma_xml_tags(tag);
    law_xml_depth_goes_by_the_elements_own_tags(text, tag, n);
    law_no_occurrence_counts_nothing(text[n], xml_close(tag));
    if h < n {
        law_element_is_open_until_its_closing_tag(text, tag, h, n - 1);
    }
}

/// Before the first opening tag of an element no line lies in it; a line that opens one does; and
/// a line that closes as many as are open, opening none, does not. A line beyond the text lies
/// in nothing.
pub proof fn law_element_needs_an_opening(text: Seq<Seq<char>>, tag: Seq<char>, n: int)
    ensures
        (forall|j: int|
            0 <= j <= n && j < text.len() ==> open_tags(#[trigger] text[j], seq!['<'] + tag) == 0)
            ==> !in_xml_section(text, tag, n),
        0 <= n < text.len() && open_tags(text[n], seq!['<'] + tag) > 0 ==> in_xml_section(
            text,
            tag,
            n,
        ),
        0 <= n < text.len() && open_tags(text[n], seq!['<'] + tag) == 0 ==> (in_xml_section(
            text,
            tag,
            n,
        ) <==> occurrences(text[n], seq!['<', '/'] + tag + seq!['>']) < xml_depth(text, tag, n)),
        n >= text.len() ==> !in_xml_section(text, tag, n),
{
    lemma_xml_tags(tag);
    if 0 <= n < text.len() && (forall|j: int|
        0 <= j <= n && j < text.len() ==> open_tags(#[trigger] text[j], seq!['<'] + tag) == 0) {
        lemma_never_opened(text, tag, n + 1);
    }
}

proof fn lemma_never_opened(text: Seq<Seq<char>>, tag: Seq<char>, n: int)
    requires
        0 <= n <= text.len(),
        forall|j: int| 0 <= j < n ==> open_tags(#[trigger] text[j], xml_open(tag)) == 0,
    ensures
        xml_depth(text, tag, n) == 0,
    decreases n,
{
    if n > 0 {
        assert(open_tags(text[n - 1], xml_open(tag)) == 0);
        lemma_never_opened(text, tag, n - 1);
    }
}

proof fn lemma_xml_tags(tag: Seq<char>)
    ensures
        xml_open(tag) == seq!['<'] + tag,
        xml_close(tag) == seq!['<', '/'] + tag + seq!['>'],
{
    reveal_strlit("<");
    reveal_strlit("</");
    reveal_strlit(">");
    assert("<"@ =~= seq!['<']);
    assert("</"@ =~= seq!['<', '/']);
    assert(">"@ =~= seq!['>']);
}

/// The openings on a line: `<tag>` is one, and so is `<tag` with white space and attributes
/// before its `>`; a self-closing tag is none, nor is a tag whose name goes on. What stands
/// behind counts as if it stood alone.
pub proof fn law_what_opens_an_element(
    before: Seq<char>,
    tag: Seq<char>,
    gap: char,
    attributes: Seq<char>,
    after: Seq<char>,
)
    requires
        white_space(gap),
        forall|i: int|
            0 <= i < attributes.len() ==> #[trigger] attributes[i] != '>' && attributes[i] != '"'
                && attributes[i] != '\'',
        !attributes.contains('<') && !tag.contains('<') && !before.contains('<'),
    ensures
        ({
            let open = seq!['<'] + tag;
            &&& open_tags(before, open) == 0
            &&& open_tags(before + open + (seq!['>'] + after), open) == 1 + open_tags(after, open)
            &&& open_tags(
                before + open + (seq![gap] + attributes + seq!['/', '>'] + after),
                open,
            ) == open_tags(after, open)
            &&& (attributes.len() == 0 || attributes.last() != '/') ==> open_tags(
                before + open + (seq![gap] + attributes + seq!['>'] + after),
                open,
            ) == 1 + open_tags(after, open)
            &&& open_tags(before + open + seq!['/', '>'] + after, open) == open_tags(after, open)
        }),
{
    let open = seq!['<'] + tag;
    lemma_no_tag(before, open);
    lemma_tag_counts(before, open, seq!['>'] + after);
    lemma_behind_text(seq!['>'], after, open);
    assert((seq!['>'] + after)[0] == '>');
    assert(tag_end(seq!['>'] + after, None, 0) == 0);

    let shut = seq![gap] + attributes + seq!['/', '>'] + after;
    let body = seq![gap] + attributes + seq!['/'];
    assert(shut =~= body + seq!['>'] + after);
    lemma_tag_counts(before, open, shut);
    assert forall|i: int| 0 <= i < body.len() implies #[trigger] body[i] != '>' && body[i] != '"'
        && body[i] != '\'' && body[i] != '<' by {
        if 0 < i <= attributes.len() {
            assert(attributes.contains(attributes[i - 1]));
        }
    }
    lemma_tag_end_of_body(body, after);
    lemma_behind_text(body + seq!['>'], after, open);
    assert(shut[body.len() - 1] == '/');

    let kept = seq![gap] + attributes + seq!['>'] + after;
    let plain = seq![gap] + attributes;
    lemma_tag_counts(before, open, kept);
    assert forall|i: int| 0 <= i < plain.len() implies #[trigger] plain[i] != '>' && plain[i] != '"'
        && plain[i] != '\'' && plain[i] != '<' by {
        if 0 < i {
            assert(attributes.contains(attributes[i - 1]));
        }
    }
    lemma_tag_end_of_body(plain, after);
    lemma_behind_text(plain + seq!['>'], after, open);
    assert(kept[plain.len() - 1] == plain.last());

    let bare = seq!['/', '>'] + after;
    assert(before + open + seq!['/', '>'] + after =~= before + open + bare);
    lemma_tag_counts(before, open, bare);
    lemma_behind_text(seq!['/', '>'], after, open);
    assert(bare[0] == '/');
}

/// A tag whose name goes on behind the wanted one is another element's.
pub proof fn law_longer_names_open_other_elements(
    before: Seq<char>,
    tag: Seq<char>,
    more: char,
    after: Seq<char>,
)
    requires
        !white_space(more) && more != '>',
        !before.contains('<') && !tag.contains('<'),
    ensures
        open_tags(before + (seq!['<'] + tag) + (seq![more] + after), seq!['<'] + tag) == open_tags(
            seq![more] + after,
            seq!['<'] + tag,
        ),
{
    lemma_tag_counts(before, seq!['<'] + tag, seq![more] + after);
    assert((seq![more] + after)[0] == more);
}

/// A quoted attribute value is passed over, whatever it holds: whether the tag is self-closing
/// is decided behind it.
pub proof fn law_quoted_values_do_not_end_a_tag(
    body: Seq<char>,
    quote: char,
    value: Seq<char>,
    rest: Seq<char>,
)
    requires
        quote == '"' || quote == '\'',
        !value.contains(quote),
        forall|i: int|
            0 <= i < body.len() ==> #[trigger] body[i] != '>' && body[i] != '"' && body[i]
                != '\'',
    ensures
        self_closing(body + seq![quote] + value + seq![quote] + rest) == self_closing(rest),
{
    let s = body + seq![quote] + value + seq![quote] + rest;
    let n = body.len() as int;
    let m = n + 1 + value.len();
    lemma_tag_end_passes(s, None, 0, n);
    assert(s[n] == quote);
    assert forall|i: int| n + 1 <= i < m implies #[trigger] s[i] != quote by {
        assert(value.contains(value[i - n - 1]));
    }
    lemma_tag_end_passes(s, Some(quote), n + 1, m);
    assert(s[m] == quote);
    assert(tag_end(s, None, 0) == tag_end(s, None, m + 1));
    assert forall|i: int| m + 1 <= i < s.len() implies s[i] == rest[i - m - 1] by {
    }
    lemma_tag_end_shift(s, rest, m + 1, None, 0);
    let end = tag_end(rest, None, 0);
    lemma_tag_end_bound(rest, None, 0);
    if 0 < end < rest.len() {
        assert(s[m + 1 + end - 1] == rest[end - 1]);
    }
}

proof fn lemma_tag_end_bound(s: Seq<char>, quote: Option<char>, at: int)
    requires
        0 <= at <= s.len(),
    ensures
        at <= tag_end(s, quote, at) <= s.len(),
    decreases s.len() - at,
{
    if at < s.len() {
        match quote {
            Some(open) => {
                lemma_tag_end_bound(
                    s,
                    if s[at] == open {
                        None
                    } else {
                        quote
                    },
                    at + 1,
                );
            },
            None => {
                lemma_tag_end_bound(s, Some(s[at]), at + 1);
                lemma_tag_end_bound(s, None, at + 1);
            },
        }
    }
}

proof fn lemma_tag_end_passes(s: Seq<char>, quote: Option<char>, from: int, to: int)
    requires
        0 <= from <= to <= s.len(),
        forall|i: int|
            from <= i < to ==> match quote {
                Some(open) => #[trigger] s[i] != open,
                None => s[i] != '>' && s[i] != '"' && s[i] != '\'',
            },
    ensures
        tag_end(s, quote, from) == tag_end(s, quote, to),
    decreases to - from,
{
    if from < to {
        lemma_tag_end_passes(s, quote, from + 1, to);
        assert(match quote {
            Some(open) => s[from] != open,
            None => s[from] != '>' && s[from] != '"' && s[from] != '\'',
        });
    }
}

proof fn lemma_tag_end_shift(
    s: Seq<char>,
    rest: Seq<char>,
    by: int,
    quote: Option<char>,
    at: int,
)
    requires
        by >= 0,
        s.len() == by + rest.len(),
        forall|i: int| 0 <= i < rest.len() ==> s[by + i] == #[trigger] rest[i],
        0 <= at <= rest.len(),
    ensures
        tag_end(s, quote, by + at) == by + tag_end(rest, quote, at),
    decreases rest.len() - at,
{
    if at < rest.len() {
        assert(s[by + at] == rest[at]);
        match quote {
            Some(open) => {
                lemma_tag_end_shift(
                    s,
                    rest,
                    by,
                    if rest[at] == open {
                        None
                    } else {
                        quote
                    },
                    at + 1,
                );
            },
            None => {
                lemma_tag_end_shift(s, rest, by, Some(rest[at]), at + 1);
                lemma_tag_end_shift(s, rest, by, None, at + 1);
            },
        }
    }
}

proof fn lemma_tag_end_of_body(body: Seq<char>, after: Seq<char>)
    requires
        forall|i: int|
            0 <= i < body.len() ==> #[trigger] body[i] != '>' && body[i] != '"' && body[i]
                != '\'',
    ensures
        tag_end(body + seq!['>'] + after, None, 0) == body.len(),
{
    let s = body + seq!['>'] + after;
    assert forall|i: int| 0 <= i < body.len() implies #[trigger] s[i] != '>' && s[i] != '"' && s[i]
        != '\'' by {
        assert(s[i] == body[i]);
    }
    lemma_tag_end_passes(s, None, 0, body.len() as int);
    assert(s[body.len() as int] == '>');
}

proof fn lemma_no_tag(s: Seq<char>, open: Seq<char>)
    requires
        open.len() > 0,
        open[0] == '<',
        !s.contains('<'),
    ensures
        open_tags(s, open) == 0,
    decreases s.len(),
{
    if s.len() >= open.len() {
        if open.is_prefix_of(s) {
            assert(s.take(open.len() as int)[0] == open[0]);
            assert(s.contains(s[0]));
        }
        assert forall|i: int| 0 <= i < s.drop_first().len() implies s.drop_first()[i] != '<' by {
            assert(s.contains(s[i + 1]));
        }
        lemma_no_tag(s.drop_first(), open);
    }
}

/// Text without a `<` opens nothing.
proof fn lemma_behind_text(text: Seq<char>, after: Seq<char>, open: Seq<char>)
    requires
        open.len() > 0,
        open[0] == '<',
        forall|i: int| 0 <= i < text.len() ==> #[trigger] text[i] != '<',
    ensures
        open_tags(text + after, open) == open_tags(after, open),
    decreases text.len(),
{
    let s = text + after;
    if text.len() == 0 {
        assert(s =~= after);
    } else {
        let rest = text.drop_first();
        assert forall|i: int| 0 <= i < rest.len() implies #[trigger] rest[i] != '<' by {
            assert(text[i + 1] != '<');
        }
        lemma_behind_text(rest, after, open);
        assert(s.drop_first() =~= rest + after);
        assert(text[0] != '<');
        if open.is_prefix_of(s) {
            assert(s.take(open.len() as int)[0] == open[0]);
        }
        if s.len() < open.len() {
            assert(open_tags(rest + after, open) == 0);
        }
    }
}

proof fn lemma_tag_counts(before: Seq<char>, open: Seq<char>, rest: Seq<char>)
    requires
        open.len() > 0,
        open[0] == '<',
        !before.contains('<'),
    ensures
        open_tags(before + open + rest, open) == (if opens_element(rest) {
            1nat
        } else {
            0nat
        }) + open_tags(rest, open),
{
    let s = open + rest;
    assert forall|i: int| 0 <= i < before.len() implies #[trigger] before[i] != '<' by {
        assert(before.contains(before[i]));
    }
    assert(before + open + rest =~= before + s);
    lemma_behind_text(before, s, open);
    assert(s.take(open.len() as int) =~= open);
    assert(open.is_prefix_of(s));
    assert(s.skip(open.len() as int) =~= rest);
}

// TOML sections

/// The last header at or above a line decides whether the line lies in a section of
/// dependencies; where no header stands at or above it, it does not.
pub proof fn law_last_header_decides(
    text: Seq<Seq<char>>,
    h: int,
    n: int,
    before: Seq<char>,
    name: Seq<char>,
    after: Seq<char>,
)
    requires
        0 <= h < text.len(),
        h <= n,
        forall|i: int| 0 <= i < before.len() ==> white_space(#[trigger] before[i]),
        forall|i: int| 0 <= i < after.len() ==> white_space(#[trigger] after[i]),
        text[h] == before + (seq!['['] + name + seq![']']) + after,
        forall|j: int|
            h < j <= n && j < text.len() ==> {
                let t = trimmed(#[trigger] text[j]);
                t.len() == 0 || t[0] != '[' || t.last() != ']'
            },
    ensures
        in_toml_dependencies(text, n) == toml_dependency_header(seq!['['] + name + seq![']']),
{
    let header = seq!['['] + name + seq![']'];
    law_trimming(before, header, after);
    assert(header.last() == ']');
    assert forall|j: int| h < j <= n && j < text.len() implies !toml_header(#[trigger] text[j]) by {
        let t = trimmed(text[j]);
        assert(t.len() == 0 || t[0] != '[' || t.last() != ']');
    }
    assert(toml_section_of(text, n, h));
    assert forall|other: int| #[trigger] toml_section_of(text, n, other) implies other == h by {
        if other < h {
            assert(!toml_header(text[h]));
        }
        if h < other {
            assert(!toml_header(text[other]));
        }
    }
}

/// Without a header at or above a line the line lies in no section.
pub proof fn law_no_header_no_section(text: Seq<Seq<char>>, n: int)
    requires
        forall|j: int|
            0 <= j <= n && j < text.len() ==> {
                let t = trimmed(#[trigger] text[j]);
                t.len() == 0 || t[0] != '[' || t.last() != ']'
            },
    ensures
        !in_toml_dependencies(text, n),
{
    assert forall|h: int| !(#[trigger] toml_section_of(text, n, h)) by {
        if toml_section_of(text, n, h) {
            let t = trimmed(text[h]);
            assert(t.len() == 0 || t[0] != '[' || t.last() != ']');
        }
    }
}

/// The headers of dependency sections: the six plain names, and those of a target, whatever it
/// is, for each of the three kinds of dependency. A header of another name opens none.
pub proof fn law_headers_of_dependencies(target: Seq<char>, name: Seq<char>)
    ensures
        toml_dependency_header("[dependencies]"@),
        toml_dependency_header("[dev-dependencies]"@),
        toml_dependency_header("[build-dependencies]"@),
        toml_dependency_header("[workspace.dependencies]"@),
        toml_dependency_header("[project.dependencies]"@),
        toml_dependency_header("[project.optional-dependencies]"@),
        toml_dependency_header("[target."@ + target + ".dependencies]"@),
        toml_dependency_header("[target."@ + target + ".dev-dependencies]"@),
        toml_dependency_header("[target."@ + target + ".build-dependencies]"@),
        ({
            &&& name != "[dependencies]"@
            &&& name != "[dev-dependencies]"@
            &&& name != "[build-dependencies]"@
            &&& name != "[workspace.dependencies]"@
            &&& name != "[project.dependencies]"@
            &&& name != "[project.optional-dependencies]"@
            &&& !"[target."@.is_prefix_of(name) || !contains_text(name, ".dependencies]"@)
                && !contains_text(name, ".dev-dependencies]"@) && !contains_text(
                name,
                ".build-dependencies]"@,
            )
        }) ==> !toml_dependency_header(name),
{
    lemma_target_header(target, ".dependencies]"@);
    lemma_target_header(target, ".dev-dependencies]"@);
    lemma_target_header(target, ".build-dependencies]"@);
}

proof fn lemma_target_header(target: Seq<char>, kind: Seq<char>)
    ensures
        "[target."@.is_prefix_of("[target."@ + target + kind),
        contains_text("[target."@ + target + kind, kind),
{
    let head = "[target."@;
    let s = head + target + kind;
    assert(s.take(head.len() as int) =~= head);
    let at = (head.len() + target.len()) as int;
    assert(s.subrange(at, at + kind.len()) =~= kind);
    assert(occurs_at(s, kind, at));
}

// JSON sections

/// A line without braces leaves a section as it was.
pub proof fn law_lines_without_braces_keep_the_section(
    st: JsonScan,
    line: Seq<char>,
    keys: Seq<Seq<char>>,
    n: int,
)
    requires
        0 <= n <= line.len(),
        forall|i: int| 0 <= i < n ==> #[trigger] line[i] != '{' && line[i] != '}',
    ensures
        json_chars(st, line, keys, n).depth == st.depth,
    decreases n,
{
    if n > 0 {
        law_lines_without_braces_keep_the_section(st, line, keys, n - 1);
        assert(line[n - 1] != '{' && line[n - 1] != '}');
    }
}

/// A brace behind `"key":`, with any white space between the two, begins the section: outside
/// of one, and in place of another that it stands directly in.
pub proof fn law_object_under_a_key_begins_a_section(
    st: JsonScan,
    before: Seq<char>,
    keys: Seq<Seq<char>>,
    k: int,
    gap: Seq<char>,
    after: Seq<char>,
)
    requires
        0 <= k < keys.len(),
        forall|i: int| 0 <= i < gap.len() ==> white_space(#[trigger] gap[i]),
    ensures
        ({
            let announcement = seq!['"'] + keys[k] + seq!['"', ':'];
            let line = before + announcement + gap + seq!['{'] + after;
            let at = (before.len() + announcement.len() + gap.len()) as int;
            let depth = json_chars(st, line, keys, at).depth;
            json_chars(st, line, keys, at + 1).depth == (if depth <= 1 {
                1
            } else {
                depth + 1
            })
        }),
{
    let announcement = seq!['"'] + keys[k] + seq!['"', ':'];
    lemma_json_needle(keys[k]);
    let line = before + announcement + gap + seq!['{'] + after;
    let colon = (before.len() + announcement.len()) as int;
    let at = colon + gap.len();
    assert(line.subrange(before.len() as int, colon) =~= announcement);
    assert(ends_at(line, json_needle(keys[k]), colon - 1));
    assert(json_announces(line, keys, colon - 1));
    assert(line[colon - 1] == ':');
    assert(!white_space(':'));
    assert(json_chars(st, line, keys, colon).announced);
    assert forall|i: int| colon <= i < at implies white_space(#[trigger] line[i]) by {
        assert(white_space(gap[i - colon]));
    }
    lemma_white_space_keeps_the_scan(st, line, keys, colon, at);
    assert(line[at] == '{');
    assert(!white_space('{'));
}

/// A brace that no key of a section stands directly before counts within a section and begins
/// none.
pub proof fn law_other_braces_begin_no_section(
    st: JsonScan,
    line: Seq<char>,
    keys: Seq<Seq<char>>,
    last: int,
    at: int,
)
    requires
        0 <= last < at < line.len(),
        line[at] == '{',
        !white_space(line[last]),
        forall|i: int| last < i < at ==> white_space(#[trigger] line[i]),
        forall|k: int|
            0 <= k < keys.len() ==> !occurs_at(
                line,
                seq!['"'] + #[trigger] keys[k] + seq!['"', ':'],
                last - 2 - keys[k].len(),
            ),
    ensures
        ({
            let depth = json_chars(st, line, keys, at).depth;
            json_chars(st, line, keys, at + 1).depth == (if depth > 0 {
                depth + 1
            } else {
                0
            })
        }),
{
    assert(!json_announces(line, keys, last)) by {
        assert forall|k: int| 0 <= k < keys.len() implies !ends_at(
            line,
            json_needle(#[trigger] keys[k]),
            last,
        ) by {
            lemma_json_needle(keys[k]);
        }
    }
    assert(!json_chars(st, line, keys, last + 1).announced);
    lemma_white_space_keeps_the_scan(st, line, keys, last + 1, at);
    assert(!white_space('{'));
}

/// A closing brace closes what was opened last, and closes nothing outside of a section.
pub proof fn law_closing_braces_leave_the_section(
    st: JsonScan,
    line: Seq<char>,
    keys: Seq<Seq<char>>,
    at: int,
)
    requires
        0 <= at < line.len(),
        line[at] == '}',
    ensures
        ({
            let depth = json_chars(st, line, keys, at).depth;
            json_chars(st, line, keys, at + 1).depth == (if depth > 0 {
                depth - 1
            } else {
                0
            })
        }),
{
    assert(!white_space('}'));
}

proof fn lemma_json_needle(key: Seq<char>)
    ensures
        json_needle(key) == seq!['"'] + key + seq!['"', ':'],
{
    reveal_strlit("\"");
    reveal_strlit("\":");
    assert("\""@ =~= seq!['"']);
    assert("\":"@ =~= seq!['"', ':']);
}

proof fn lemma_white_space_keeps_the_scan(
    st: JsonScan,
    line: Seq<char>,
    keys: Seq<Seq<char>>,
    from: int,
    to: int,
)
    requires
        0 <= from <= to <= line.len(),
        forall|i: int| from <= i < to ==> white_space(#[trigger] line[i]),
    ensures
        json_chars(st, line, keys, to) == json_chars(st, line, keys, from),
    decreases to - from,
{
    if from < to {
        lemma_white_space_keeps_the_scan(st, line, keys, from, to - 1);
        assert(white_space(line[to - 1]));
    }
}

proof fn lemma_depth_without_braces(
    st: JsonScan,
    line: Seq<char>,
    keys: Seq<Seq<char>>,
    from: int,
    to: int,
)
    requires
        0 <= from <= to <= line.len(),
        forall|i: int| from <= i < to ==> #[trigger] line[i] != '{' && line[i] != '}',
    ensures
        json_chars(st, line, keys, to).depth == json_chars(st, line, keys, from).depth,
    decreases to - from,
{
    if from < to {
        lemma_depth_without_braces(st, line, keys, from, to - 1);
        assert(line[to - 1] != '{' && line[to - 1] != '}');
    }
}

/// The lines behind `"key": {` lie in the section, up to the line that closes it, which does not.
pub proof fn law_section_lasts_to_its_closing_brace(
    text: Seq<Seq<char>>,
    keys: Seq<Seq<char>>,
    k: int,
    h: int,
    n: int,
    before: Seq<char>,
    gap: Seq<char>,
    after: Seq<char>,
)
    requires
        0 <= k < keys.len(),
        0 <= h <= n < text.len(),
        json_scan(text, keys, h).depth <= 1,
        text[h] == before + (seq!['"'] + keys[k] + seq!['"', ':']) + gap + seq!['{'] + after,
        forall|i: int| 0 <= i < gap.len() ==> white_space(#[trigger] gap[i]),
        !before.contains('{') && !before.contains('}'),
        !keys[k].contains('{') && !keys[k].contains('}'),
        !after.contains('{') && !after.contains('}'),
        forall|j: int|
            h < j <= n ==> !(#[trigger] text[j]).contains('{') && !text[j].contains('}'),
    ensures
        in_json_dependencies(text, keys, n),
        ({
            let closing = text.take(n + 1).push(before + seq!['}'] + after);
            !in_json_dependencies(closing, keys, n + 1)
        }),
{
    lemma_section_lasts(text, keys, k, h, n, before, gap, after);
    let last = before + seq!['}'] + after;
    let closing = text.take(n + 1).push(last);
    assert(closing.take(n + 1) =~= text.take(n + 1));
    lemma_json_scan_cut(closing, keys, n + 1, n + 1);
    lemma_json_scan_cut(text, keys, n + 1, n + 1);
    let st = json_scan(closing, keys, n + 1);
    assert(closing[n + 1] == last);
    let at = before.len() as int;
    assert forall|i: int| 0 <= i < last.len() && i != at implies #[trigger] last[i] != '{'
        && last[i] != '}' by {
        if i < at {
            assert(before.contains(before[i]));
        } else {
            assert(after.contains(after[i - at - 1]));
        }
    }
    lemma_depth_without_braces(st, last, keys, 0, at);
    law_closing_braces_leave_the_section(st, last, keys, at);
    lemma_depth_without_braces(st, last, keys, at + 1, last.len() as int);
    assert(json_scan(closing, keys, n + 2) == json_chars(st, last, keys, last.len() as int));
}

proof fn lemma_section_lasts(
    text: Seq<Seq<char>>,
    keys: Seq<Seq<char>>,
    k: int,
    h: int,
    n: int,
    before: Seq<char>,
    gap: Seq<char>,
    after: Seq<char>,
)
    requires
        0 <= k < keys.len(),
        0 <= h <= n < text.len(),
        json_scan(text, keys, h).depth <= 1,
        text[h] == before + (seq!['"'] + keys[k] + seq!['"', ':']) + gap + seq!['{'] + after,
        forall|i: int| 0 <= i < gap.len() ==> white_space(#[trigger] gap[i]),
        !before.contains('{') && !before.contains('}'),
        !keys[k].contains('{') && !keys[k].contains('}'),
        !after.contains('{') && !after.contains('}'),
        forall|j: int|
            h < j <= n ==> !(#[trigger] text[j]).contains('{') && !text[j].contains('}'),
    ensures
        json_scan(text, keys, n + 1).depth == 1,
    decreases n,
{
    if h < n {
        lemma_section_lasts(text, keys, k, h, n - 1, before, gap, after);
        let line = text[n];
        assert forall|i: int| 0 <= i < line.len() implies #[trigger] line[i] != '{' && line[i]
            != '}' by {
            assert(line.contains(line[i]));
        }
        lemma_depth_without_braces(
            json_scan(text, keys, n),
            line,
            keys,
            0,
            line.len() as int,
        );
    } else {
        let st = json_scan(text, keys, h);
        let announcement = seq!['"'] + keys[k] + seq!['"', ':'];
        let line = text[h];
        let at = (before.len() + announcement.len() + gap.len()) as int;
        assert forall|i: int| 0 <= i < line.len() && i != at implies #[trigger] line[i] != '{'
            && line[i] != '}' by {
            let b = before.len() as int;
            if i < b {
                assert(before.contains(before[i]));
            } else if i < b + announcement.len() {
                if 0 < i - b <= keys[k].len() {
                    assert(keys[k].contains(keys[k][i - b - 1]));
                }
            } else if i < at {
                assert(white_space(gap[i - b - announcement.len()]));
                assert(!white_space('{') && !white_space('}'));
            } else {
                assert(after.contains(after[i - at - 1]));
            }
        }
        lemma_depth_without_braces(st, line, keys, 0, at);
        law_object_under_a_key_begins_a_section(st, before, keys, k, gap, after);
        lemma_depth_without_braces(st, line, keys, at + 1, line.len() as int);
    }
}

/// The brace may stand on a later line than its key: only white space lies between the two.
pub proof fn law_brace_on_a_later_line_begins_a_section(
    st: JsonScan,
    before: Seq<char>,
    keys: Seq<Seq<char>>,
    k: int,
    gap: Seq<char>,
    after: Seq<char>,
)
    requires
        0 <= k < keys.len(),
        forall|i: int| 0 <= i < gap.len() ==> white_space(#[trigger] gap[i]),
    ensures
        ({
            let line = before + (seq!['"'] + keys[k] + seq!['"', ':']) + gap;
            json_chars(st, line, keys, line.len() as int).announced
        }),
        json_chars(st, gap, keys, gap.len() as int) == st,
        st.announced ==> json_chars(
            st,
            gap + seq!['{'] + after,
            keys,
            gap.len() as int + 1,
        ).depth == (if st.depth <= 1 {
            1
        } else {
            st.depth + 1
        }),
{
    let announcement = seq!['"'] + keys[k] + seq!['"', ':'];
    lemma_json_needle(keys[k]);
    let line = before + announcement + gap;
    let colon = (before.len() + announcement.len()) as int;
    assert(line.subrange(before.len() as int, colon) =~= announcement);
    assert(ends_at(line, json_needle(keys[k]), colon - 1));
    assert(json_announces(line, keys, colon - 1));
    assert(line[colon - 1] == ':');
    assert(!white_space(':'));
    assert forall|i: int| colon <= i < line.len() implies white_space(#[trigger] line[i]) by {
        assert(white_space(gap[i - colon]));
    }
    lemma_white_space_keeps_the_scan(st, line, keys, colon, line.len() as int);
    lemma_white_space_keeps_the_scan(st, gap, keys, 0, gap.len() as int);
    let next = gap + seq!['{'] + after;
    assert forall|i: int| 0 <= i < gap.len() implies white_space(#[trigger] next[i]) by {
        assert(white_space(gap[i]));
    }
    lemma_white_space_keeps_the_scan(st, next, keys, 0, gap.len() as int);
    assert(next[gap.len() as int] == '{');
    assert(!white_space('{'));
}

// XML values

/// What follows the last `>` is the text typed, and the tag that the `>` closes names the element
/// it stands in: `name` behind an opening tag, whatever its attributes, and none behind a closing
/// tag. Without a `>` everything is text and there is no element.
pub proof fn law_text_stands_in_the_tag_before_it(
    before: Seq<char>,
    name: Seq<char>,
    attributes: Seq<char>,
    text: Seq<char>,
)
    requires
        !text.contains('>'),
        !attributes.contains('<'),
        name.len() > 0,
        forall|i: int|
            0 <= i < name.len() ==> #[trigger] name[i] != '>' && name[i] != '/' && name[i] != '<'
                && !white_space(name[i]),
        attributes.len() > 0 ==> attributes[0] == '/' || white_space(attributes[0]),
    ensures
        ({
            let prefix = before + seq!['<'] + name + attributes + seq!['>'] + text;
            &&& after_last_tag(prefix) == text
            &&& open_element(prefix) == Some(name)
        }),
        ({
            let prefix = before + seq!['<', '/'] + name + seq!['>'] + text;
            &&& after_last_tag(prefix) == text
            &&& open_element(prefix) is None
        }),
        after_last_tag(text) == text,
        open_element(text) is None,
{
    let opening = before + seq!['<'] + name + attributes + seq!['>'] + text;
    lemma_tag_before_text(before, name + attributes, text);
    assert(before + seq!['<'] + (name + attributes) + seq!['>'] + text =~= opening);
    let inside = name + attributes;
    assert forall|j: int| 0 <= j < name.len() implies !ends_element_name()(#[trigger] inside[j]) by {
        assert(inside[j] == name[j]);
    }
    if attributes.len() > 0 {
        assert(inside[name.len() as int] == attributes[0]);
    }
    lemma_until(inside, ends_element_name(), name.len() as int);
    assert(inside.take(name.len() as int) =~= name);

    let closed = seq!['/'] + name;
    let closing = before + seq!['<', '/'] + name + seq!['>'] + text;
    lemma_tag_before_text(before, closed, text);
    assert(before + seq!['<'] + closed + seq!['>'] + text =~= closing);
    assert(closed[0] == '/');
    assert(until(closed, ends_element_name()).len() == 0);

    lemma_last_index(text, '>');
    if last_index(text, '>') >= 0 {
        assert(text.contains(text[last_index(text, '>')]));
    }
    assert(text.skip(0) =~= text);
}

/// A `>` that no `<` stands before closes no tag: the text behind it is in no element.
pub proof fn law_stray_bracket_names_no_element(before: Seq<char>, text: Seq<char>)
    requires
        !before.contains('<'),
        !text.contains('>'),
    ensures
        after_last_tag(before + seq!['>'] + text) == text,
        open_element(before + seq!['>'] + text) is None,
{
    let prefix = before + seq!['>'] + text;
    let gt = before.len() as int;
    lemma_last_index(prefix, '>');
    assert(prefix[gt] == '>');
    assert forall|j: int| gt < j < prefix.len() implies prefix[j] != '>' by {
        assert(text.contains(text[j - gt - 1]));
    }
    assert(last_index(prefix, '>') == gt);
    assert(prefix.skip(gt + 1) =~= text);
    assert(prefix.take(gt) =~= before);
    lemma_last_index(before, '<');
    if last_index(before, '<') >= 0 {
        assert(before.contains(before[last_index(before, '<')]));
    }
}

proof fn lemma_tag_before_text(before: Seq<char>, inside: Seq<char>, text: Seq<char>)
    requires
        !text.contains('>'),
        forall|i: int| 0 <= i < inside.len() ==> #[trigger] inside[i] != '<',
    ensures
        ({
            let prefix = before + seq!['<'] + inside + seq!['>'] + text;
            let name = until(inside, ends_element_name());
            &&& after_last_tag(prefix) == text
            &&& open_element(prefix) == (if name.len() == 0 {
                None
            } else {
                Some(name)
            })
        }),
{
    let prefix = before + seq!['<'] + inside + seq!['>'] + text;
    let lt = before.len() as int;
    let gt = lt + 1 + inside.len();
    lemma_last_index(prefix, '>');
    assert(prefix[gt] == '>');
    assert forall|j: int| gt < j < prefix.len() implies prefix[j] != '>' by {
        assert(text.contains(text[j - gt - 1]));
    }
    assert(last_index(prefix, '>') == gt);
    assert(prefix.skip(gt + 1) =~= text);
    let head = prefix.take(gt);
    lemma_last_index(head, '<');
    assert(head[lt] == '<');
    assert forall|j: int| lt < j < head.len() implies head[j] != '<' by {
        assert(head[j] == inside[j - lt - 1]);
    }
    assert(last_index(head, '<') == lt);
    assert(prefix.subrange(lt + 1, gt) =~= inside);
}

/// What makes up an attribute name: neither white space nor any character with a meaning of its
/// own in a tag.
pub open spec fn plain_name(s: Seq<char>) -> bool {
    &&& s.len() > 0
    &&& forall|i: int|
        0 <= i < s.len() ==> {
            let c = #[trigger] s[i];
            !white_space(c) && c != '<' && c != '>' && c != '/' && c != '=' && c != '"' && c
                != '\'' && c != '!'
        }
}

spec fn blank(s: Seq<char>) -> bool {
    forall|i: int| 0 <= i < s.len() ==> white_space(#[trigger] s[i])
}

/// The value being typed is what follows the quote of an attribute, where both the attribute and
/// its element are wanted; otherwise nothing is. Text before the tag, and white space round the
/// attribute's name and its `=`, make no difference.
#[verifier::spinoff_prover]
pub proof fn law_open_value_of_a_wanted_attribute_is_extracted(
    before: Seq<char>,
    element: Seq<char>,
    gap: Seq<char>,
    attr: Seq<char>,
    gap_before: Seq<char>,
    gap_behind: Seq<char>,
    quote: char,
    value: Seq<char>,
    elements: Seq<Seq<char>>,
    attrs: Seq<Seq<char>>,
)
    requires
        !before.contains('<'),
        plain_name(element) && plain_name(attr),
        gap.len() > 0,
        forall|i: int| 0 <= i < gap.len() ==> white_space(#[trigger] gap[i]),
        forall|i: int| 0 <= i < gap_before.len() ==> white_space(#[trigger] gap_before[i]),
        forall|i: int| 0 <= i < gap_behind.len() ==> white_space(#[trigger] gap_behind[i]),
        quote == '"' || quote == '\'',
        !value.contains('"') && !value.contains('\''),
    ensures
        ({
            let tag = seq!['<'] + element + gap + attr + gap_before + seq!['='] + gap_behind;
            open_attribute_value(before + tag + seq![quote] + value, elements, attrs) == (
            if elements.contains(element) && attrs.contains(attr) {
                value
            } else {
                Seq::empty()
            })
        }),
{
    let tag = seq!['<'] + element + gap + attr + gap_before + seq!['='] + gap_behind;
    let prefix = before + tag + seq![quote] + value;
    let at = (before.len() + tag.len()) as int;
    assert(before + (tag + seq![quote] + value) =~= prefix);
    lemma_scan_of_plain_text(
        before,
        tag + seq![quote] + value,
        elements,
        attrs,
        before.len() as int,
    );
    lemma_scan_to_quote(
        before,
        element,
        gap,
        attr,
        gap_before,
        gap_behind,
        quote,
        value,
        elements,
        attrs,
    );
    assert forall|i: int| at < i < prefix.len() implies prefix[i] != '"' && prefix[i] != '\'' by {
        assert(value.contains(value[i - at - 1]));
    }
    lemma_scan_in_quotes(prefix, elements, attrs, at + 1, prefix.len() as int);
    lemma_typed_value(prefix, at, value);
}

/// Behind the closing quote of an attribute nothing is being typed.
#[verifier::spinoff_prover]
pub proof fn law_closed_value_is_not_extracted(
    before: Seq<char>,
    element: Seq<char>,
    gap: Seq<char>,
    attr: Seq<char>,
    quote: char,
    value: Seq<char>,
    rest: Seq<char>,
    elements: Seq<Seq<char>>,
    attrs: Seq<Seq<char>>,
)
    requires
        !before.contains('<'),
        plain_name(element) && plain_name(attr),
        gap.len() > 0,
        forall|i: int| 0 <= i < gap.len() ==> white_space(#[trigger] gap[i]),
        quote == '"' || quote == '\'',
        !value.contains(quote),
        !rest.contains('"') && !rest.contains('\'') && !rest.contains('<'),
    ensures
        ({
            let tag = seq!['<'] + element + gap + attr + seq!['='];
            let closed = before + tag + seq![quote] + value + seq![quote];
            open_attribute_value(closed + rest, elements, attrs).len() == 0
        }),
{
    lemma_scan_past_value(before, element, gap, attr, quote, value, rest, elements, attrs);
    let tag = seq!['<'] + element + gap + attr + seq!['='];
    let first = before + tag + seq![quote] + value + seq![quote] + rest;
    let close = (before.len() + tag.len() + 1 + value.len()) as int;
    assert forall|i: int| close < i < first.len() implies #[trigger] first[i] != '"' && first[i]
        != '\'' && first[i] != '<' by {
        assert(rest.contains(rest[i - close - 1]));
    }
    lemma_scan_without_quotes(first, elements, attrs, close + 1, first.len() as int);
}

/// Behind a closed value the next quote opens the value of the attribute named before it, and
/// that attribute decides.
#[verifier::spinoff_prover]
pub proof fn law_next_attribute_is_looked_at_by_itself(
    before: Seq<char>,
    element: Seq<char>,
    gap: Seq<char>,
    attr: Seq<char>,
    quote: char,
    value: Seq<char>,
    next: Seq<char>,
    typed: Seq<char>,
    elements: Seq<Seq<char>>,
    attrs: Seq<Seq<char>>,
)
    requires
        !before.contains('<'),
        plain_name(element) && plain_name(attr) && plain_name(next),
        gap.len() > 0,
        forall|i: int| 0 <= i < gap.len() ==> white_space(#[trigger] gap[i]),
        quote == '"' || quote == '\'',
        !value.contains(quote),
        !typed.contains('"') && !typed.contains('\''),
    ensures
        ({
            let tag = seq!['<'] + element + gap + attr + seq!['='];
            let closed = before + tag + seq![quote] + value + seq![quote];
            let again = gap + next + seq!['='] + seq![quote] + typed;
            open_attribute_value(closed + again, elements, attrs) == (if elements.contains(element)
                && attrs.contains(next) {
                typed
            } else {
                Seq::empty()
            })
        }),
{
    let tag = seq!['<'] + element + gap + attr + seq!['='];
    let closed = before + tag + seq![quote] + value + seq![quote];
    let mid = gap + next + seq!['='];
    let tail = mid + seq![quote] + typed;
    let second = closed + tail;
    let close = (before.len() + tag.len() + 1 + value.len()) as int;
    let again = close + 1 + mid.len();
    lemma_scan_past_value(before, element, gap, attr, quote, value, tail, elements, attrs);
    assert(second.subrange(close + 1, again) =~= mid);
    assert(second[again] == quote);
    lemma_plain_middle(gap, next);
    assert forall|i: int| close < i < again implies ({
        let c = #[trigger] second[i];
        c != '<' && c != '>' && c != '"' && c != '\''
    }) by {
        assert(second[i] == mid[i - close - 1]);
    }
    lemma_scan_in_tag(second, elements, attrs, close + 1, again);
    lemma_next_name(gap, next);
    lemma_comment_starts_with_bracket(second, again);
    let st = attribute_scan(second, again + 1, elements, attrs);
    assert(st.quote == Some(quote) && st.value_start == again + 1);
    assert(st.wanted == (elements.contains(element) && attrs.contains(next)));
    assert forall|i: int| again < i < second.len() implies second[i] != '"' && second[i]
        != '\'' by {
        assert(typed.contains(typed[i - again - 1]));
    }
    lemma_scan_in_quotes(second, elements, attrs, again + 1, second.len() as int);
    lemma_typed_value(second, again, typed);
}

proof fn lemma_plain_middle(gap: Seq<char>, next: Seq<char>)
    requires
        blank(gap),
        plain_name(next),
    ensures
        ({
            let mid = gap + next + seq!['='];
            forall|d: int|
                0 <= d < mid.len() ==> {
                    let c = #[trigger] mid[d];
                    c != '<' && c != '>' && c != '"' && c != '\''
                }
        }),
{
    let mid = gap + next + seq!['='];
    lemma_marks_are_no_white_space();
    assert forall|d: int| 0 <= d < mid.len() implies ({
        let c = #[trigger] mid[d];
        c != '<' && c != '>' && c != '"' && c != '\''
    }) by {
        if d < gap.len() {
            assert(white_space(gap[d]));
        } else if d < gap.len() + next.len() {
            assert(mid[d] == next[d - gap.len()]);
        }
    }
}

proof fn lemma_next_name(gap: Seq<char>, next: Seq<char>)
    requires
        gap.len() > 0,
        blank(gap),
        plain_name(next),
    ensures
        attribute_name(gap + next + seq!['=']) == next,
{
    let none = Seq::<char>::empty();
    assert(gap + next + seq!['='] =~= gap + next + none + seq!['='] + none);
    assert(white_space(gap[gap.len() - 1]));
    lemma_attribute_name(gap, next, none, none);
}

proof fn lemma_typed_value(prefix: Seq<char>, at: int, typed: Seq<char>)
    requires
        0 <= at < prefix.len(),
        prefix.len() == at + 1 + typed.len(),
        forall|i: int| 0 <= i < typed.len() ==> prefix[at + 1 + i] == #[trigger] typed[i],
        !typed.contains('"') && !typed.contains('\''),
    ensures
        until(prefix.skip(at + 1), is_quote()) == typed,
{
    let shown = prefix.skip(at + 1);
    assert(shown =~= typed);
    assert forall|j: int| 0 <= j < shown.len() implies !is_quote()(#[trigger] shown[j]) by {
        assert(typed.contains(typed[j]));
    }
    lemma_until(shown, is_quote(), shown.len() as int);
    assert(shown.take(shown.len() as int) =~= typed);
}

/// Nothing is extracted from a comment that is still open, whatever tags it holds.
pub proof fn law_open_comment_extracts_nothing(
    before: Seq<char>,
    comment: Seq<char>,
    elements: Seq<Seq<char>>,
    attrs: Seq<Seq<char>>,
)
    requires
        !before.contains('<'),
        !contains_text(comment, seq!['-', '-', '>']),
    ensures
        open_attribute_value(
            before + seq!['<', '!', '-', '-'] + comment,
            elements,
            attrs,
        ).len() == 0,
{
    reveal_strlit("<!--");
    reveal_strlit("-->");
    assert("<!--"@ =~= seq!['<', '!', '-', '-']);
    assert("-->"@ =~= seq!['-', '-', '>']);
    let prefix = before + seq!['<', '!', '-', '-'] + comment;
    let b = before.len() as int;
    lemma_scan_of_plain_text(before, seq!['<', '!', '-', '-'] + comment, elements, attrs, b);
    assert(before + (seq!['<', '!', '-', '-'] + comment) =~= prefix);
    assert(prefix.subrange(b, b + 4) =~= "<!--"@);
    assert(prefix.skip(b + 4) =~= comment);
    lemma_scan_of_comment(prefix, b, comment, elements, attrs, prefix.len() as int);
}

proof fn lemma_scan_of_comment(
    prefix: Seq<char>,
    b: int,
    comment: Seq<char>,
    elements: Seq<Seq<char>>,
    attrs: Seq<Seq<char>>,
    n: int,
)
    requires
        0 <= b < n <= prefix.len(),
        prefix.len() == b + 4 + comment.len(),
        prefix.skip(b + 4) == comment,
        !contains_text(comment, "-->"@),
        "-->"@.len() == 3,
        ({
            let st = attribute_scan(prefix, b + 1, elements, attrs);
            st.quote is None && st.in_comment && st.segment_start == b + 4
        }),
    ensures
        ({
            let st = attribute_scan(prefix, n, elements, attrs);
            st.quote is None && st.in_comment && st.segment_start == b + 4
        }),
    decreases n,
{
    if n > b + 1 {
        lemma_scan_of_comment(prefix, b, comment, elements, attrs, n - 1);
        let at = n - 3;
        if b + 4 <= at && occurs_at(prefix, "-->"@, at) {
            assert(comment.subrange(at - b - 4, at - b - 1) =~= prefix.subrange(at, at + 3));
            assert(occurs_at(comment, "-->"@, at - b - 4));
        }
    }
}

proof fn lemma_marks_are_no_white_space()
    ensures
        !white_space('<') && !white_space('>') && !white_space('"') && !white_space('\'')
            && !white_space('=') && !white_space('!') && !white_space('/'),
{
}

proof fn lemma_comment_starts_with_bracket(prefix: Seq<char>, i: int)
    requires
        0 <= i < prefix.len(),
    ensures
        occurs_at(prefix, "<!--"@, i) ==> prefix[i] == '<' && i + 1 < prefix.len() && prefix[i + 1]
            == '!',
{
    reveal_strlit("<!--");
    if occurs_at(prefix, "<!--"@, i) {
        assert(prefix.subrange(i, i + 4)[0] == "<!--"@[0]);
        assert(prefix.subrange(i, i + 4)[1] == "<!--"@[1]);
    }
}

proof fn lemma_scan_of_plain_text(
    before: Seq<char>,
    rest: Seq<char>,
    elements: Seq<Seq<char>>,
    attrs: Seq<Seq<char>>,
    n: int,
)
    requires
        !before.contains('<'),
        0 <= n <= before.len(),
    ensures
        attribute_scan(before + rest, n, elements, attrs) == attribute_scan_start(),
    decreases n,
{
    if n > 0 {
        lemma_scan_of_plain_text(before, rest, elements, attrs, n - 1);
        assert(before.contains(before[n - 1]));
        lemma_comment_starts_with_bracket(before + rest, n - 1);
    }
}

proof fn lemma_scan_in_tag(
    prefix: Seq<char>,
    elements: Seq<Seq<char>>,
    attrs: Seq<Seq<char>>,
    from: int,
    to: int,
)
    requires
        0 <= from <= to <= prefix.len(),
        ({
            let st = attribute_scan(prefix, from, elements, attrs);
            st.quote is None && !st.in_comment
        }),
        forall|i: int|
            from <= i < to ==> {
                let c = #[trigger] prefix[i];
                c != '<' && c != '>' && c != '"' && c != '\''
            },
    ensures
        attribute_scan(prefix, to, elements, attrs) == attribute_scan(
            prefix,
            from,
            elements,
            attrs,
        ),
    decreases to - from,
{
    if from < to {
        lemma_scan_in_tag(prefix, elements, attrs, from, to - 1);
        let c = prefix[to - 1];
        assert(c != '<' && c != '>' && c != '"' && c != '\'');
        lemma_comment_starts_with_bracket(prefix, to - 1);
    }
}

proof fn lemma_scan_without_quotes(
    prefix: Seq<char>,
    elements: Seq<Seq<char>>,
    attrs: Seq<Seq<char>>,
    from: int,
    to: int,
)
    requires
        0 <= from <= to <= prefix.len(),
        ({
            let st = attribute_scan(prefix, from, elements, attrs);
            st.quote is None && !st.in_comment
        }),
        forall|i: int|
            from <= i < to ==> #[trigger] prefix[i] != '"' && prefix[i] != '\'' && prefix[i]
                != '<',
    ensures
        ({
            let st = attribute_scan(prefix, to, elements, attrs);
            st.quote is None && !st.in_comment
        }),
    decreases to - from,
{
    if from < to {
        lemma_scan_without_quotes(prefix, elements, attrs, from, to - 1);
        assert(prefix[to - 1] != '"' && prefix[to - 1] != '\'' && prefix[to - 1] != '<');
        lemma_comment_starts_with_bracket(prefix, to - 1);
    }
}

proof fn lemma_scan_in_quotes(
    prefix: Seq<char>,
    elements: Seq<Seq<char>>,
    attrs: Seq<Seq<char>>,
    from: int,
    to: int,
)
    requires
        0 <= from <= to <= prefix.len(),
        attribute_scan(prefix, from, elements, attrs).quote matches Some(q) && forall|i: int|
            from <= i < to ==> #[trigger] prefix[i] != q,
    ensures
        attribute_scan(prefix, to, elements, attrs) == attribute_scan(
            prefix,
            from,
            elements,
            attrs,
        ),
    decreases to - from,
{
    if from < to {
        lemma_scan_in_quotes(prefix, elements, attrs, from, to - 1);
        let q = attribute_scan(prefix, from, elements, attrs).quote->0;
        assert(prefix[to - 1] != q);
    }
}

proof fn lemma_attribute_name(
    head: Seq<char>,
    attr: Seq<char>,
    gap_before: Seq<char>,
    gap_behind: Seq<char>,
)
    requires
        head.len() > 0 && white_space(head.last()),
        plain_name(attr),
        blank(gap_before) && blank(gap_behind),
    ensures
        attribute_name(head + attr + gap_before + seq!['='] + gap_behind) == attr,
{
    lemma_marks_are_no_white_space();
    let named = head + attr;
    let spaced = named + gap_before;
    let core = spaced + seq!['='];
    assert(core.last() == '=');
    lemma_trim_end_of(core, gap_behind);
    assert(core.drop_last() =~= spaced);
    assert(!white_space(attr[attr.len() - 1]));
    assert(named.last() == attr.last());
    lemma_trim_end_of(named, gap_before);
    let k = head.len() as int;
    assert forall|j: int| k <= j < named.len() implies !white_space(#[trigger] named[j]) by {
        assert(named[j] == attr[j - k]);
    }
    assert(named[k - 1] == head.last());
    lemma_word_at_end(named, k);
    assert(named.skip(k) =~= attr);
}

/// Where the scan stands behind the quote that opens an attribute's value.
#[verifier::spinoff_prover]
proof fn lemma_scan_to_quote(
    before: Seq<char>,
    element: Seq<char>,
    gap: Seq<char>,
    attr: Seq<char>,
    gap_before: Seq<char>,
    gap_behind: Seq<char>,
    quote: char,
    rest: Seq<char>,
    elements: Seq<Seq<char>>,
    attrs: Seq<Seq<char>>,
)
    requires
        ({
            let tag = seq!['<'] + element + gap + attr + gap_before + seq!['='] + gap_behind;
            let st = attribute_scan(
                before + tag + seq![quote] + rest,
                before.len() as int,
                elements,
                attrs,
            );
            st.quote is None && !st.in_comment
        }),
        plain_name(element) && plain_name(attr),
        gap.len() > 0,
        blank(gap) && blank(gap_before) && blank(gap_behind),
        quote == '"' || quote == '\'',
    ensures
        ({
            let tag = seq!['<'] + element + gap + attr + gap_before + seq!['='] + gap_behind;
            let prefix = before + tag + seq![quote] + rest;
            let at = (before.len() + tag.len()) as int;
            let st = attribute_scan(prefix, at + 1, elements, attrs);
            &&& st.quote == Some(quote)
            &&& st.value_start == at + 1
            &&& st.wanted == (elements.contains(element) && attrs.contains(attr))
            &&& st.element == element
            &&& st.tag_open
            &&& !st.in_comment
        }),
{
    lemma_marks_are_no_white_space();
    let inside = element + gap + attr + gap_before + seq!['='] + gap_behind;
    let tag = seq!['<'] + element + gap + attr + gap_before + seq!['='] + gap_behind;
    assert(tag =~= seq!['<'] + inside);
    let prefix = before + tag + seq![quote] + rest;
    let b = before.len() as int;
    let at = b + tag.len();
    assert(prefix[b] == '<');
    assert(prefix[b + 1] == element[0]);
    lemma_comment_starts_with_bracket(prefix, b);
    let behind = prefix.skip(b + 1);
    assert forall|j: int| 0 <= j < element.len() implies !ends_element_name()(
        #[trigger] behind[j],
    ) by {
        assert(behind[j] == element[j]);
    }
    assert(behind[element.len() as int] == gap[0]);
    assert(white_space(gap[0]));
    lemma_until(behind, ends_element_name(), element.len() as int);
    assert(behind.take(element.len() as int) =~= element);
    assert forall|i: int| b < i < at implies ({
        let c = #[trigger] prefix[i];
        c != '<' && c != '>' && c != '"' && c != '\''
    }) by {
        let d = i - b - 1;
        let e1 = element.len() as int;
        let e2 = e1 + gap.len();
        let e3 = e2 + attr.len();
        let e4 = e3 + gap_before.len();
        assert(prefix[i] == inside[d]);
        if d < e1 {
            assert(inside[d] == element[d]);
        } else if d < e2 {
            assert(inside[d] == gap[d - e1]);
        } else if d < e3 {
            assert(inside[d] == attr[d - e2]);
        } else if d < e4 {
            assert(inside[d] == gap_before[d - e3]);
        } else if d > e4 {
            assert(inside[d] == gap_behind[d - e4 - 1]);
        }
    }
    lemma_scan_in_tag(prefix, elements, attrs, b + 1, at);
    assert(prefix[at] == quote);
    lemma_comment_starts_with_bracket(prefix, at);
    assert(prefix.subrange(b + 1, at) =~= inside);
    let head = element + gap;
    assert(head.last() == gap.last());
    assert(white_space(gap[gap.len() - 1]));
    lemma_attribute_name(head, attr, gap_before, gap_behind);
}

/// Where the scan stands behind the quote that closes an attribute's value.
#[verifier::spinoff_prover]
proof fn lemma_scan_past_value(
    before: Seq<char>,
    element: Seq<char>,
    gap: Seq<char>,
    attr: Seq<char>,
    quote: char,
    value: Seq<char>,
    rest: Seq<char>,
    elements: Seq<Seq<char>>,
    attrs: Seq<Seq<char>>,
)
    requires
        !before.contains('<'),
        plain_name(element) && plain_name(attr),
        gap.len() > 0,
        blank(gap),
        quote == '"' || quote == '\'',
        !value.contains(quote),
    ensures
        ({
            let tag = seq!['<'] + element + gap + attr + seq!['='];
            let prefix = before + tag + seq![quote] + value + seq![quote] + rest;
            let close = (before.len() + tag.len() + 1 + value.len()) as int;
            let st = attribute_scan(prefix, close + 1, elements, attrs);
            &&& st.quote is None
            &&& st.segment_start == close + 1
            &&& st.element == element
            &&& st.tag_open
            &&& !st.in_comment
        }),
{
    let none = Seq::<char>::empty();
    let tag = seq!['<'] + element + gap + attr + seq!['='];
    assert(tag =~= seq!['<'] + element + gap + attr + none + seq!['='] + none);
    let prefix = before + tag + seq![quote] + value + seq![quote] + rest;
    let at = (before.len() + tag.len()) as int;
    let close = at + 1 + value.len();
    let behind = value + seq![quote] + rest;
    assert(before + tag + seq![quote] + behind =~= prefix);
    assert(before + (tag + seq![quote] + behind) =~= prefix);
    lemma_scan_of_plain_text(
        before,
        tag + seq![quote] + behind,
        elements,
        attrs,
        before.len() as int,
    );
    lemma_scan_to_quote(
        before,
        element,
        gap,
        attr,
        none,
        none,
        quote,
        behind,
        elements,
        attrs,
    );
    assert forall|i: int| at + 1 <= i < close implies #[trigger] prefix[i] != quote by {
        assert(value.contains(value[i - at - 1]));
    }
    lemma_scan_in_quotes(prefix, elements, attrs, at + 1, close);
    assert(prefix[close] == quote);
}

/// The value ends for completion at a quote of the other kind as well: what stands behind that is
/// not being typed.
#[verifier::spinoff_prover]
pub proof fn law_other_quote_ends_the_value(
    before: Seq<char>,
    element: Seq<char>,
    gap: Seq<char>,
    attr: Seq<char>,
    quote: char,
    other: char,
    value: Seq<char>,
    more: Seq<char>,
    elements: Seq<Seq<char>>,
    attrs: Seq<Seq<char>>,
)
    requires
        !before.contains('<'),
        plain_name(element) && plain_name(attr),
        gap.len() > 0,
        forall|i: int| 0 <= i < gap.len() ==> white_space(#[trigger] gap[i]),
        quote == '"' && other == '\'' || quote == '\'' && other == '"',
        !value.contains('"') && !value.contains('\''),
        !more.contains(quote),
        elements.contains(element) && attrs.contains(attr),
    ensures
        ({
            let tag = seq!['<'] + element + gap + attr + seq!['='];
            let typed = value + seq![other] + more;
            open_attribute_value(before + tag + seq![quote] + typed, elements, attrs) == value
        }),
{
    let none = Seq::<char>::empty();
    let tag = seq!['<'] + element + gap + attr + seq!['='];
    assert(tag =~= seq!['<'] + element + gap + attr + none + seq!['='] + none);
    let typed = value + seq![other] + more;
    let prefix = before + tag + seq![quote] + typed;
    let at = (before.len() + tag.len()) as int;
    assert(before + (tag + seq![quote] + typed) =~= prefix);
    lemma_scan_of_plain_text(
        before,
        tag + seq![quote] + typed,
        elements,
        attrs,
        before.len() as int,
    );
    lemma_scan_to_quote(
        before,
        element,
        gap,
        attr,
        none,
        none,
        quote,
        typed,
        elements,
        attrs,
    );
    assert forall|i: int| at < i < prefix.len() implies #[trigger] prefix[i] != quote by {
        let d = i - at - 1;
        assert(prefix[i] == typed[d]);
        if d < value.len() {
            assert(value.contains(value[d]));
        } else if d > value.len() {
            assert(more.contains(more[d - value.len() - 1]));
        }
    }
    lemma_scan_in_quotes(prefix, elements, attrs, at + 1, prefix.len() as int);
    let shown = prefix.skip(at + 1);
    assert(shown =~= typed);
    assert forall|j: int| 0 <= j < value.len() implies !is_quote()(#[trigger] shown[j]) by {
        assert(value.contains(value[j]));
    }
    assert(shown[value.len() as int] == other);
    lemma_until(shown, is_quote(), value.len() as int);
    assert(shown.take(value.len() as int) =~= value);
}

/// A comment that has ended is passed over, whatever it held: behind it a wanted attribute's value
/// is extracted as anywhere else.
#[verifier::spinoff_prover]
pub proof fn law_ended_comment_is_passed_over(
    before: Seq<char>,
    comment: Seq<char>,
    element: Seq<char>,
    gap: Seq<char>,
    attr: Seq<char>,
    quote: char,
    value: Seq<char>,
    elements: Seq<Seq<char>>,
    attrs: Seq<Seq<char>>,
)
    requires
        !before.contains('<'),
        !comment.contains('>'),
        plain_name(element) && plain_name(attr),
        gap.len() > 0,
        forall|i: int| 0 <= i < gap.len() ==> white_space(#[trigger] gap[i]),
        quote == '"' || quote == '\'',
        !value.contains('"') && !value.contains('\''),
        elements.contains(element) && attrs.contains(attr),
    ensures
        ({
            let passed = before + seq!['<', '!', '-', '-'] + comment + seq!['-', '-', '>'];
            let tag = seq!['<'] + element + gap + attr + seq!['='];
            open_attribute_value(passed + tag + seq![quote] + value, elements, attrs) == value
        }),
{
    let none = Seq::<char>::empty();
    let passed = before + seq!['<', '!', '-', '-'] + comment + seq!['-', '-', '>'];
    let tag = seq!['<'] + element + gap + attr + seq!['='];
    assert(tag =~= seq!['<'] + element + gap + attr + none + seq!['='] + none);
    let prefix = passed + tag + seq![quote] + value;
    let at = (passed.len() + tag.len()) as int;
    lemma_scan_behind_comment(before, comment, tag + seq![quote] + value, elements, attrs);
    assert(passed + (tag + seq![quote] + value) =~= prefix);
    lemma_scan_to_quote(
        passed,
        element,
        gap,
        attr,
        none,
        none,
        quote,
        value,
        elements,
        attrs,
    );
    assert forall|i: int| at < i < prefix.len() implies prefix[i] != '"' && prefix[i] != '\'' by {
        assert(value.contains(value[i - at - 1]));
    }
    lemma_scan_in_quotes(prefix, elements, attrs, at + 1, prefix.len() as int);
    lemma_typed_value(prefix, at, value);
}

proof fn lemma_scan_behind_comment(
    before: Seq<char>,
    comment: Seq<char>,
    rest: Seq<char>,
    elements: Seq<Seq<char>>,
    attrs: Seq<Seq<char>>,
)
    requires
        !before.contains('<'),
        !comment.contains('>'),
    ensures
        ({
            let passed = before + seq!['<', '!', '-', '-'] + comment + seq!['-', '-', '>'];
            let st = attribute_scan(passed + rest, passed.len() as int, elements, attrs);
            st.quote is None && !st.in_comment
        }),
{
    reveal_strlit("<!--");
    reveal_strlit("-->");
    assert("<!--"@ =~= seq!['<', '!', '-', '-']);
    assert("-->"@ =~= seq!['-', '-', '>']);
    let passed = before + seq!['<', '!', '-', '-'] + comment + seq!['-', '-', '>'];
    let prefix = passed + rest;
    let b = before.len() as int;
    let tail = seq!['<', '!', '-', '-'] + comment + seq!['-', '-', '>'] + rest;
    assert(before + tail =~= prefix);
    lemma_scan_of_plain_text(before, tail, elements, attrs, b);
    assert(prefix.subrange(b, b + 4) =~= "<!--"@);
    let last = passed.len() - 1;
    assert(prefix[b] == '<');
    let st = attribute_scan(prefix, b + 1, elements, attrs);
    assert(st.quote is None && st.in_comment && st.segment_start == b + 4);
    assert forall|i: int| b < i < last implies #[trigger] prefix[i] != '>' by {
        if b + 4 <= i < b + 4 + comment.len() {
            assert(comment.contains(comment[i - b - 4]));
        }
    }
    lemma_comment_goes_on(prefix, b, elements, attrs, last);
    assert(prefix.subrange(last - 2, last + 1) =~= "-->"@);
    assert(occurs_at(prefix, "-->"@, last - 2));
}

proof fn lemma_comment_goes_on(
    prefix: Seq<char>,
    b: int,
    elements: Seq<Seq<char>>,
    attrs: Seq<Seq<char>>,
    n: int,
)
    requires
        0 <= b < n <= prefix.len(),
        ({
            let st = attribute_scan(prefix, b + 1, elements, attrs);
            st.quote is None && st.in_comment && st.segment_start == b + 4
        }),
        forall|i: int| b < i < n ==> #[trigger] prefix[i] != '>',
    ensures
        ({
            let st = attribute_scan(prefix, n, elements, attrs);
            st.quote is None && st.in_comment && st.segment_start == b + 4
        }),
    decreases n,
{
    if n > b + 1 {
        lemma_comment_goes_on(prefix, b, elements, attrs, n - 1);
        reveal_strlit("-->");
        if occurs_at(prefix, "-->"@, n - 3) {
            assert(prefix.subrange(n - 3, n)[2] == "-->"@[2]);
            assert(prefix[n - 1] == '>');
        }
    }
}

/// A line beyond the end of the text lies in no section.
pub proof fn law_no_line_no_section(text: Seq<Seq<char>>, keys: Seq<Seq<char>>, n: int)
    requires
        n < 0 || n >= text.len(),
    ensures
        !in_json_dependencies(text, keys, n),
{
}

/// Where no tag is open there is no attribute: neither before the first tag nor behind the `>`
/// that ends one is anything extracted, however much the text looks like an attribute.
#[verifier::spinoff_prover]
pub proof fn law_no_attribute_outside_of_tags(
    before: Seq<char>,
    inside: Seq<char>,
    content: Seq<char>,
    elements: Seq<Seq<char>>,
    attrs: Seq<Seq<char>>,
)
    requires
        !before.contains('<'),
        inside.len() > 0 && inside[0] != '!',
        forall|i: int|
            0 <= i < inside.len() ==> {
                let c = #[trigger] inside[i];
                c != '<' && c != '>' && c != '"' && c != '\''
            },
        !content.contains('<'),
    ensures
        open_attribute_value(before, elements, attrs).len() == 0,
        open_attribute_value(
            before + seq!['<'] + inside + seq!['>'] + content,
            elements,
            attrs,
        ).len() == 0,
{
    let none = Seq::<char>::empty();
    let b = before.len() as int;
    assert(before + none =~= before);
    lemma_scan_of_plain_text(before, none, elements, attrs, b);
    let prefix = before + seq!['<'] + inside + seq!['>'] + content;
    let tail = seq!['<'] + inside + seq!['>'] + content;
    assert(before + tail =~= prefix);
    lemma_scan_of_plain_text(before, tail, elements, attrs, b);
    assert(prefix[b] == '<');
    assert(prefix[b + 1] == inside[0]);
    reveal_strlit("<!--");
    if occurs_at(prefix, "<!--"@, b) {
        assert(prefix.subrange(b, b + 4)[1] == "<!--"@[1]);
        assert(prefix[b + 1] == '!');
    }
    let at = b + 1 + inside.len();
    assert forall|i: int| b + 1 <= i < at implies {
        let c = #[trigger] prefix[i];
        c != '<' && c != '>' && c != '"' && c != '\''
    } by {
        assert(prefix[i] == inside[i - b - 1]);
    }
    lemma_scan_in_tag(prefix, elements, attrs, b + 1, at);
    assert(prefix[at] == '>');
    lemma_comment_starts_with_bracket(prefix, at);
    assert forall|i: int| at < i < prefix.len() implies #[trigger] prefix[i] != '<' by {
        assert(content.contains(content[i - at - 1]));
    }
    lemma_scan_outside_of_tags(prefix, elements, attrs, at + 1, prefix.len() as int);
}

proof fn lemma_scan_outside_of_tags(
    prefix: Seq<char>,
    elements: Seq<Seq<char>>,
    attrs: Seq<Seq<char>>,
    from: int,
    to: int,
)
    requires
        0 <= from <= to <= prefix.len(),
        ({
            let st = attribute_scan(prefix, from, elements, attrs);
            st.quote is None && !st.in_comment && !st.tag_open
        }),
        forall|i: int| from <= i < to ==> #[trigger] prefix[i] != '<',
    ensures
        attribute_scan(prefix, to, elements, attrs) == attribute_scan(
            prefix,
            from,
            elements,
            attrs,
        ),
    decreases to - from,
{
    if from < to {
        lemma_scan_outside_of_tags(prefix, elements, attrs, from, to - 1);
        assert(prefix[to - 1] != '<');
        lemma_comment_starts_with_bracket(prefix, to - 1);
    }
}

} // verus!
