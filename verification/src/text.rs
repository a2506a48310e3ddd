//! Text primitives on character sequences.
//!
//! A string is modelled by its sequence of characters. The functions here are the small
//! building blocks (trimming, splitting, searching) that the manifest scanners, the version
//! parsers and the identity checks are written with.

use vstd::prelude::*;

verus! {

/// Appends one character (`String::push`): the text grows by exactly that character.
pub assume_specification[ String::push ](s: &mut String, c: char)
    ensures
        final(s)@ == old(s)@.push(c),
;

/// Unicode `White_Space`, the property that trimming and word splitting go by.
pub open spec fn white_space(c: char) -> bool {
    ||| 0x09 <= c as u32 <= 0x0d
    ||| c as u32 == 0x20
    ||| c as u32 == 0x85
    ||| c as u32 == 0xa0
    ||| c as u32 == 0x1680
    ||| 0x2000 <= c as u32 <= 0x200a
    ||| c as u32 == 0x2028
    ||| c as u32 == 0x2029
    ||| c as u32 == 0x202f
    ||| c as u32 == 0x205f
    ||| c as u32 == 0x3000
}

/// Whether `c` is white space.
pub fn is_white_space(c: char) -> (r: bool)
    ensures
        r == white_space(c),
{
    let u: u32 = c as u32;
    (0x09 <= u && u <= 0x0d) || u == 0x20 || u == 0x85 || u == 0xa0 || u == 0x1680 || (0x2000 <= u
        && u <= 0x200a) || u == 0x2028 || u == 0x2029 || u == 0x202f || u == 0x205f || u == 0x3000
}

/// An ASCII decimal digit.
pub open spec fn ascii_digit(c: char) -> bool {
    0x30 <= c as u32 <= 0x39
}

/// An ASCII letter or digit.
pub open spec fn ascii_alphanumeric(c: char) -> bool {
    ||| 0x30 <= c as u32 <= 0x39
    ||| 0x41 <= c as u32 <= 0x5a
    ||| 0x61 <= c as u32 <= 0x7a
}

/// An ASCII hexadecimal digit, in either case.
pub open spec fn ascii_hex_digit(c: char) -> bool {
    ||| 0x30 <= c as u32 <= 0x39
    ||| 0x41 <= c as u32 <= 0x46
    ||| 0x61 <= c as u32 <= 0x66
}

/// Whether `c` is an ASCII decimal digit.
pub fn is_ascii_digit(c: char) -> (r: bool)
    ensures
        r == ascii_digit(c),
{
    let u: u32 = c as u32;
    0x30 <= u && u <= 0x39
}

/// Whether `c` is an ASCII letter or digit.
pub fn is_ascii_alphanumeric(c: char) -> (r: bool)
    ensures
        r == ascii_alphanumeric(c),
{
    let u: u32 = c as u32;
    (0x30 <= u && u <= 0x39) || (0x41 <= u && u <= 0x5a) || (0x61 <= u && u <= 0x7a)
}

/// Whether `c` is an ASCII hexadecimal digit.
pub fn is_ascii_hex_digit(c: char) -> (r: bool)
    ensures
        r == ascii_hex_digit(c),
{
    let u: u32 = c as u32;
    (0x30 <= u && u <= 0x39) || (0x41 <= u && u <= 0x46) || (0x61 <= u && u <= 0x66)
}

/// The characters of `s`.
pub fn chars_of(s: &str) -> (v: Vec<char>)
    ensures
        v@ == s@,
{
    let mut v: Vec<char> = Vec::new();
    for c in it: s.chars()
        invariant
            v@ == s@.take(it.index()),
            it.seq() == s@,
    {
        v.push(c);
    }
    v
}

/// The string made of `chars`.
pub fn string_of(chars: &[char]) -> (s: String)
    ensures
        s@ == chars@,
{
    let mut s = String::new();
    let mut i: usize = 0;
    while i < chars.len()
        invariant
            i <= chars@.len(),
            s@ == chars@.take(i as int),
        decreases chars@.len() - i,
    {
        s.push(chars[i]);
        i += 1;
    }
    assert(chars@.take(i as int) == chars@);
    s
}

/// Whether two strings hold the same characters.
pub fn same_text(a: &str, b: &str) -> (r: bool)
    ensures
        r == (a@ == b@),
{
    let x = a.to_owned();
    let y = b.to_owned();
    x == y
}

// ---------------------------------------------------------------------------
// Trimming
// ---------------------------------------------------------------------------

/// `s` without its leading white space.
pub open spec fn trim_start(s: Seq<char>) -> Seq<char>
    decreases s.len(),
{
    if s.len() > 0 && white_space(s[0]) {
        trim_start(s.drop_first())
    } else {
        s
    }
}

/// `s` without its trailing white space.
pub open spec fn trim_end(s: Seq<char>) -> Seq<char>
    decreases s.len(),
{
    if s.len() > 0 && white_space(s.last()) {
        trim_end(s.drop_last())
    } else {
        s
    }
}

/// `s` without the white space at either end.
pub open spec fn trimmed(s: Seq<char>) -> Seq<char> {
    trim_end(trim_start(s))
}

/// The end of `s` once trailing white space is dropped.
pub fn trimmed_end_of(s: &[char]) -> (hi: usize)
    ensures
        hi <= s@.len(),
        s@.take(hi as int) == trim_end(s@),
{
    let mut hi: usize = s.len();
    proof {
        assert(s@.take(hi as int) == s@);
    }
    while hi > 0 && is_white_space(s[hi - 1])
        invariant
            hi <= s@.len(),
            trim_end(s@.take(hi as int)) == trim_end(s@),
        decreases hi,
    {
        proof {
            assert(s@.take(hi as int).drop_last() == s@.take(hi - 1));
            assert(s@.take(hi as int).last() == s@[hi - 1]);
        }
        hi -= 1;
    }
    proof {
        if hi > 0 {
            assert(s@.take(hi as int).last() == s@[hi - 1]);
        }
    }
    hi
}

/// The part of `s` that trimming keeps, as a half-open range.
pub fn trim_range(s: &[char]) -> (r: (usize, usize))
    ensures
        r.0 <= r.1 <= s@.len(),
        s@.subrange(r.0 as int, r.1 as int) == trimmed(s@),
{
    let mut lo: usize = 0;
    proof {
        assert(s@.skip(0) == s@);
    }
    while lo < s.len() && is_white_space(s[lo])
        invariant
            lo <= s@.len(),
            trim_start(s@.skip(lo as int)) == trim_start(s@),
        decreases s@.len() - lo,
    {
        proof {
            assert(s@.skip(lo as int).drop_first() == s@.skip(lo + 1));
            assert(s@.skip(lo as int)[0] == s@[lo as int]);
        }
        lo += 1;
    }
    proof {
        if lo < s@.len() {
            assert(s@.skip(lo as int)[0] == s@[lo as int]);
        }
    }
    let rest = &s[lo..s.len()];
    proof {
        assert(rest@ == s@.skip(lo as int));
    }
    let len: usize = trimmed_end_of(rest);
    proof {
        assert(s@.subrange(lo as int, lo + len) == rest@.take(len as int));
    }
    (lo, lo + len)
}

/// `s` without the white space at either end.
pub fn trim(s: &str) -> (r: &str)
    ensures
        r@ == trimmed(s@),
{
    let chars = chars_of(s);
    let (lo, hi) = trim_range(chars.as_slice());
    s.substring_char(lo, hi)
}

/// `s` without any of its white space.
pub open spec fn without_white_space(s: Seq<char>) -> Seq<char> {
    s.filter(|c: char| !white_space(c))
}

/// `s` without any of its white space.
pub fn strip_whitespace(s: &str) -> (r: Vec<char>)
    ensures
        r@ == without_white_space(s@),
{
    let chars = chars_of(s);
    let mut out: Vec<char> = Vec::new();
    let mut i: usize = 0;
    proof {
        assert(s@.take(0) == Seq::<char>::empty());
        reveal(Seq::filter);
    }
    while i < chars.len()
        invariant
            i <= chars@.len(),
            chars@ == s@,
            out@ == without_white_space(s@.take(i as int)),
        decreases chars@.len() - i,
    {
        proof {
            assert(s@.take(i + 1).drop_last() == s@.take(i as int));
            reveal(Seq::filter);
        }
        if !is_white_space(chars[i]) {
            out.push(chars[i]);
        }
        i += 1;
    }
    proof {
        assert(s@.take(i as int) == s@);
    }
    out
}

// ---------------------------------------------------------------------------
// Searching
// ---------------------------------------------------------------------------

/// The first index at which `c` stands in `s`.
pub fn find_char(s: &[char], c: char) -> (r: Option<usize>)
    ensures
        match r {
            Some(i) => i < s.len() && s@[i as int] == c && forall|j: int|
                0 <= j < i ==> s@[j] != c,
            None => !s@.contains(c),
        },
{
    let mut i: usize = 0;
    while i < s.len()
        invariant
            i <= s@.len(),
            forall|j: int| 0 <= j < i ==> s@[j] != c,
        decreases s@.len() - i,
    {
        if s[i] == c {
            return Some(i);
        }
        i += 1;
    }
    None
}

/// The last index at which `c` stands in `s`.
pub fn rfind_char(s: &[char], c: char) -> (r: Option<usize>)
    ensures
        match r {
            Some(i) => i < s.len() && s@[i as int] == c && forall|j: int|
                i < j < s@.len() ==> s@[j] != c,
            None => !s@.contains(c),
        },
{
    let mut i: usize = s.len();
    while i > 0
        invariant
            i <= s@.len(),
            forall|j: int| i <= j < s@.len() ==> s@[j] != c,
        decreases i,
    {
        i -= 1;
        if s[i] == c {
            return Some(i);
        }
    }
    None
}

/// Whether `needle` stands in `s` at position `at`.
pub open spec fn occurs_at(s: Seq<char>, needle: Seq<char>, at: int) -> bool {
    0 <= at && at + needle.len() <= s.len() && s.subrange(at, at + needle.len()) == needle
}

/// Whether `needle` stands anywhere in `s`.
pub open spec fn contains_text(s: Seq<char>, needle: Seq<char>) -> bool {
    exists|at: int| occurs_at(s, needle, at)
}

/// Whether `needle` stands in `s` at position `at`.
pub fn is_at(s: &[char], needle: &[char], at: usize) -> (r: bool)
    ensures
        r == occurs_at(s@, needle@, at as int),
{
    if at > s.len() || needle.len() > s.len() - at {
        return false;
    }
    let mut k: usize = 0;
    while k < needle.len()
        invariant
            k <= needle@.len(),
            at + needle@.len() <= s.len(),
            forall|j: int| 0 <= j < k ==> s@[at + j] == needle@[j],
        decreases needle@.len() - k,
    {
        if s[at + k] != needle[k] {
            proof {
                assert(s@.subrange(at as int, at + needle@.len())[k as int] != needle@[k as int]);
            }
            return false;
        }
        k += 1;
    }
    proof {
        assert(s@.subrange(at as int, at + needle@.len()) =~= needle@);
    }
    true
}

/// Whether `needle` stands anywhere in `s`.
pub fn contains(s: &[char], needle: &[char]) -> (r: bool)
    ensures
        r == contains_text(s@, needle@),
{
    let mut at: usize = 0;
    while at < s.len()
        invariant
            at <= s@.len(),
            forall|j: int| 0 <= j < at ==> !occurs_at(s@, needle@, j),
        decreases s@.len() - at,
    {
        if is_at(s, needle, at) {
            return true;
        }
        at += 1;
    }
    let r = is_at(s, needle, at);
    proof {
        if r {
            assert(occurs_at(s@, needle@, at as int));
        }
    }
    r
}

/// Whether `s` begins with `needle`.
pub fn starts_with(s: &[char], needle: &[char]) -> (r: bool)
    ensures
        r == needle@.is_prefix_of(s@),
{
    let r = is_at(s, needle, 0);
    proof {
        if needle@.len() <= s@.len() {
            assert(s@.subrange(0, needle@.len() as int) =~= s@.take(needle@.len() as int));
        }
    }
    r
}

/// Whether two character slices are equal.
pub fn same_chars(a: &[char], b: &[char]) -> (r: bool)
    ensures
        r == (a@ == b@),
{
    if a.len() != b.len() {
        return false;
    }
    let r = is_at(a, b, 0);
    proof {
        assert(a@.subrange(0, a@.len() as int) =~= a@);
    }
    r
}

/// How often `needle` stands in `s`, counted from the left without overlaps.
pub open spec fn occurrences(s: Seq<char>, needle: Seq<char>) -> nat
    decreases s.len(),
{
    if needle.len() == 0 || s.len() < needle.len() {
        0
    } else if needle.is_prefix_of(s) {
        1 + occurrences(s.skip(needle.len() as int), needle)
    } else {
        occurrences(s.drop_first(), needle)
    }
}

/// How often `needle` stands in `s`, counted from the left without overlaps.
pub fn count_occurrences(s: &[char], needle: &[char]) -> (r: usize)
    requires
        needle@.len() > 0,
    ensures
        r == occurrences(s@, needle@),
        r <= s@.len(),
{
    let mut at: usize = 0;
    let mut n: usize = 0;
    proof {
        assert(s@.skip(0) == s@);
    }
    while at < s.len()
        invariant
            needle@.len() > 0,
            at <= s@.len(),
            n <= at,
            n + occurrences(s@.skip(at as int), needle@) == occurrences(s@, needle@),
        decreases s@.len() - at,
    {
        let ghost rest = s@.skip(at as int);
        if is_at(s, needle, at) {
            proof {
                assert(s@.subrange(at as int, at + needle@.len()) =~= rest.take(
                    needle@.len() as int,
                ));
                assert(rest.subrange(0, needle@.len() as int) =~= needle@);
                assert(rest.skip(needle@.len() as int) =~= s@.skip(at + needle@.len()));
            }
            at += needle.len();
            n += 1;
        } else {
            proof {
                if needle@.len() <= rest.len() && needle@.is_prefix_of(rest) {
                    assert(s@.subrange(at as int, at + needle@.len()) =~= rest.take(
                        needle@.len() as int,
                    ));
                    assert(rest.subrange(0, needle@.len() as int) =~= rest.take(
                        needle@.len() as int,
                    ));
                    assert(false);
                }
                assert(rest.drop_first() =~= s@.skip(at + 1));
                if rest.len() < needle@.len() {
                    assert(occurrences(rest.drop_first(), needle@) == 0);
                }
            }
            at += 1;
        }
    }
    n
}

// ---------------------------------------------------------------------------
// Splitting
// ---------------------------------------------------------------------------

/// The pieces of `s` between the separators `sep`: one more than there are separators.
pub open spec fn split_on(s: Seq<char>, sep: char) -> Seq<Seq<char>>
    decreases s.len(),
{
    if s.len() == 0 {
        seq![Seq::<char>::empty()]
    } else {
        let before = split_on(s.drop_last(), sep);
        if s.last() == sep {
            before.push(Seq::<char>::empty())
        } else {
            before.drop_last().push(before.last().push(s.last()))
        }
    }
}

/// The texts of a list of character vectors.
pub open spec fn texts(v: Seq<Vec<char>>) -> Seq<Seq<char>> {
    v.map_values(|l: Vec<char>| l@)
}

/// The texts of a list of strings.
pub open spec fn string_texts(v: Seq<String>) -> Seq<Seq<char>> {
    v.map_values(|l: String| l@)
}

/// The texts of a list of string slices.
pub open spec fn str_texts(v: Seq<&str>) -> Seq<Seq<char>> {
    v.map_values(|l: &str| l@)
}

/// The summed length of the pieces.
pub open spec fn total_len(pieces: Seq<Seq<char>>) -> nat
    decreases pieces.len(),
{
    if pieces.len() == 0 {
        0
    } else {
        total_len(pieces.drop_last()) + pieces.last().len()
    }
}

proof fn lemma_split_on_nonempty(s: Seq<char>, sep: char)
    ensures
        split_on(s, sep).len() >= 1,
    decreases s.len(),
{
    if s.len() > 0 {
        lemma_split_on_nonempty(s.drop_last(), sep);
    }
}

proof fn lemma_split_on_total_len(s: Seq<char>, sep: char)
    ensures
        total_len(split_on(s, sep)) <= s.len(),
    decreases s.len(),
{
    let pieces = split_on(s, sep);
    if s.len() == 0 {
        assert(pieces.drop_last() =~= Seq::<Seq<char>>::empty());
        assert(total_len(pieces.drop_last()) == 0);
    } else {
        lemma_split_on_nonempty(s.drop_last(), sep);
        lemma_split_on_total_len(s.drop_last(), sep);
        let before = split_on(s.drop_last(), sep);
        if s.last() == sep {
            assert(pieces.drop_last() =~= before);
        } else {
            assert(pieces.drop_last() =~= before.drop_last());
        }
    }
}

/// The pieces of `s` between the separators `sep`.
pub fn split(s: &[char], sep: char) -> (r: Vec<Vec<char>>)
    ensures
        texts(r@) == split_on(s@, sep),
        r@.len() >= 1,
{
    let mut pieces: Vec<Vec<char>> = Vec::new();
    let mut current: Vec<char> = Vec::new();
    let mut i: usize = 0;
    proof {
        assert(s@.take(0) =~= Seq::<char>::empty());
        assert(texts(pieces@).push(current@) =~= split_on(s@.take(0), sep));
    }
    while i < s.len()
        invariant
            i <= s@.len(),
            texts(pieces@).push(current@) == split_on(s@.take(i as int), sep),
        decreases s@.len() - i,
    {
        let ghost before = texts(pieces@).push(current@);
        let ghost done = pieces@;
        let ghost cur = current@;
        proof {
            assert(s@.take(i + 1).drop_last() =~= s@.take(i as int));
            assert(s@.take(i + 1).last() == s@[i as int]);
            assert(before.drop_last() =~= texts(done));
        }
        let c = s[i];
        if c == sep {
            pieces.push(current);
            current = Vec::new();
            proof {
                assert(texts(pieces@) =~= texts(done).push(cur));
                assert(texts(pieces@).push(current@) =~= before.push(Seq::<char>::empty()));
            }
        } else {
            current.push(c);
        }
        i += 1;
    }
    proof {
        assert(s@.take(i as int) =~= s@);
    }
    let ghost done = pieces@;
    let ghost cur = current@;
    pieces.push(current);
    proof {
        assert(texts(pieces@) =~= texts(done).push(cur));
    }
    pieces
}

/// A line without the carriage return that ends it, if one does.
pub open spec fn without_carriage_return(line: Seq<char>) -> Seq<char> {
    if line.len() > 0 && line.last() == '\r' {
        line.drop_last()
    } else {
        line
    }
}

/// The lines of `s`: a line ends at `\n` or `\r\n`, and a last line without an ending counts
/// when it is not empty.
pub open spec fn lines(s: Seq<char>) -> Seq<Seq<char>> {
    let pieces = split_on(s, '\n');
    let ended = pieces.drop_last().map_values(|l: Seq<char>| without_carriage_return(l));
    if pieces.last().len() == 0 {
        ended
    } else {
        ended.push(pieces.last())
    }
}

proof fn lemma_total_len_pointwise(a: Seq<Seq<char>>, b: Seq<Seq<char>>)
    requires
        a.len() == b.len(),
        forall|i: int| 0 <= i < a.len() ==> a[i].len() <= b[i].len(),
    ensures
        total_len(a) <= total_len(b),
    decreases a.len(),
{
    if a.len() > 0 {
        assert forall|i: int| 0 <= i < a.len() - 1 implies a.drop_last()[i].len()
            <= b.drop_last()[i].len() by {
            assert(a[i].len() <= b[i].len());
        }
        lemma_total_len_pointwise(a.drop_last(), b.drop_last());
    }
}

/// The lines of a text hold no more characters than the text.
pub proof fn lemma_lines_total_len(s: Seq<char>)
    ensures
        total_len(lines(s)) <= s.len(),
{
    let pieces = split_on(s, '\n');
    lemma_split_on_nonempty(s, '\n');
    lemma_split_on_total_len(s, '\n');
    let ended = pieces.drop_last().map_values(|l: Seq<char>| without_carriage_return(l));
    lemma_total_len_pointwise(ended, pieces.drop_last());
    if pieces.last().len() != 0 {
        assert(lines(s).drop_last() =~= ended);
    }
}

/// The first lines of a text hold no more characters than all of them.
pub proof fn lemma_total_len_prefix(pieces: Seq<Seq<char>>, n: int)
    requires
        0 <= n <= pieces.len(),
    ensures
        total_len(pieces.take(n)) <= total_len(pieces),
    decreases pieces.len(),
{
    if n < pieces.len() {
        lemma_total_len_prefix(pieces.drop_last(), n);
        assert(pieces.drop_last().take(n) =~= pieces.take(n));
    } else {
        assert(pieces.take(n) =~= pieces);
    }
}

/// The lines of `s`.
pub fn lines_of(s: &str) -> (r: Vec<Vec<char>>)
    ensures
        texts(r@) == lines(s@),
{
    let chars = chars_of(s);
    let mut pieces = split(chars.as_slice(), '\n');
    let ghost all = split_on(s@, '\n');
    let last = pieces.pop().unwrap();
    proof {
        assert(texts(pieces@) =~= all.drop_last());
        assert(last@ == all.last());
    }
    let mut out: Vec<Vec<char>> = Vec::new();
    let mut i: usize = 0;
    while i < pieces.len()
        invariant
            i <= pieces@.len(),
            texts(pieces@) == all.drop_last(),
            out@.len() == i,
            forall|k: int|
                0 <= k < i ==> #[trigger] out@[k]@ == without_carriage_return(all.drop_last()[k]),
        decreases pieces@.len() - i,
    {
        let mut line = pieces[i].clone();
        proof {
            assert(line@ =~= pieces@[i as int]@);
            assert(texts(pieces@)[i as int] == pieces@[i as int]@);
        }
        if line.len() > 0 && line[line.len() - 1] == '\r' {
            line.pop();
            proof {
                assert(line@ =~= all.drop_last()[i as int].drop_last());
            }
        }
        out.push(line);
        i += 1;
    }
    let ghost ended = all.drop_last().map_values(|l: Seq<char>| without_carriage_return(l));
    proof {
        assert(all.drop_last().len() == pieces@.len());
        assert(texts(out@) =~= ended);
    }
    let ghost before = out@;
    if last.len() > 0 {
        out.push(last);
        proof {
            assert(texts(out@) =~= ended.push(all.last()));
        }
    }
    out
}

/// Where piece `i` of a split text begins: behind the earlier pieces and their separators.
pub open spec fn piece_start(pieces: Seq<Seq<char>>, i: int) -> int {
    total_len(pieces.take(i)) + i
}

/// A piece is the part of the text that begins at its start.
pub proof fn lemma_piece_is_subrange(s: Seq<char>, sep: char, i: int)
    requires
        0 <= i < split_on(s, sep).len(),
    ensures
        0 <= piece_start(split_on(s, sep), i),
        piece_start(split_on(s, sep), i) + split_on(s, sep)[i].len() <= s.len(),
        s.subrange(
            piece_start(split_on(s, sep), i),
            piece_start(split_on(s, sep), i) + split_on(s, sep)[i].len(),
        ) == split_on(s, sep)[i],
        i == split_on(s, sep).len() - 1 ==> piece_start(split_on(s, sep), i) + split_on(s, sep)[i].len()
            == s.len(),
    decreases s.len(),
{
    let pieces = split_on(s, sep);
    let from = piece_start(pieces, i);
    if s.len() == 0 {
        assert(pieces.take(0) =~= Seq::<Seq<char>>::empty());
        assert(s.subrange(0, 0) =~= pieces[0]);
    } else {
        let t = s.drop_last();
        let before = split_on(t, sep);
        lemma_split_on_nonempty(t, sep);
        if i < before.len() - 1 || (s.last() == sep && i == before.len() - 1) {
            lemma_piece_is_subrange(t, sep, i);
            assert(pieces.take(i) =~= before.take(i));
            assert(s.subrange(from, from + pieces[i].len()) =~= t.subrange(
                from,
                from + pieces[i].len(),
            ));
        } else if s.last() == sep {
            let k = before.len() - 1;
            lemma_piece_is_subrange(t, sep, k);
            assert(pieces.take(i) =~= before);
            assert(before.drop_last() =~= before.take(k));
            assert(s.subrange(from, from) =~= pieces[i]);
        } else {
            lemma_piece_is_subrange(t, sep, i);
            assert(pieces.take(i) =~= before.take(i));
            assert(s.subrange(from, s.len() as int) =~= t.subrange(from, t.len() as int).push(
                s.last(),
            ));
        }
    }
}

/// The part of `s` before the first character at which `stop` holds.
pub open spec fn until(s: Seq<char>, stop: spec_fn(char) -> bool) -> Seq<char>
    decreases s.len(),
{
    if s.len() == 0 || stop(s[0]) {
        Seq::empty()
    } else {
        seq![s[0]] + until(s.drop_first(), stop)
    }
}

/// The part before the first stop is the prefix of that length.
pub proof fn lemma_until(s: Seq<char>, stop: spec_fn(char) -> bool, n: int)
    requires
        0 <= n <= s.len(),
        forall|j: int| 0 <= j < n ==> !stop(#[trigger] s[j]),
        n < s.len() ==> stop(s[n]),
    ensures
        until(s, stop) == s.take(n),
    decreases s.len(),
{
    if s.len() == 0 || n == 0 {
        assert(until(s, stop) =~= s.take(n));
    } else {
        let t = s.drop_first();
        assert forall|j: int| 0 <= j < n - 1 implies !stop(#[trigger] t[j]) by {
            assert(!stop(s[j + 1]));
        }
        if n < s.len() {
            assert(t[n - 1] == s[n]);
        }
        lemma_until(t, stop, n - 1);
        assert(!stop(s[0]));
        assert(seq![s[0]] + t.take(n - 1) =~= s.take(n));
    }
}

/// The last index at which `c` stands in `s`, -1 where it does not.
pub open spec fn last_index(s: Seq<char>, c: char) -> int
    decreases s.len(),
{
    if s.len() == 0 {
        -1
    } else if s.last() == c {
        s.len() - 1
    } else {
        last_index(s.drop_last(), c)
    }
}

/// What the last index of a character is.
pub proof fn lemma_last_index(s: Seq<char>, c: char)
    ensures
        -1 <= last_index(s, c) < s.len(),
        last_index(s, c) >= 0 ==> s[last_index(s, c)] == c,
        forall|j: int| last_index(s, c) < j < s.len() ==> s[j] != c,
    decreases s.len(),
{
    if s.len() > 0 && s.last() != c {
        lemma_last_index(s.drop_last(), c);
        assert forall|j: int| last_index(s, c) < j < s.len() implies s[j] != c by {
            if j < s.len() - 1 {
                assert(s.drop_last()[j] == s[j]);
            }
        }
    }
}

// ---------------------------------------------------------------------------
// Rewriting and numbers
// ---------------------------------------------------------------------------

/// `s` with every occurrence of `from`, found from the left without overlaps, replaced by
/// `to`.
pub open spec fn replaced(s: Seq<char>, from: Seq<char>, to: Seq<char>) -> Seq<char>
    decreases s.len(),
{
    if from.len() == 0 || s.len() < from.len() {
        s
    } else if from.is_prefix_of(s) {
        to + replaced(s.skip(from.len() as int), from, to)
    } else {
        seq![s[0]] + replaced(s.drop_first(), from, to)
    }
}

/// `s` with every occurrence of `from` replaced by `to`.
pub fn replace(s: &str, from: &str, to: &str) -> (r: String)
    requires
        from@.len() > 0,
    ensures
        r@ == replaced(s@, from@, to@),
{
    let chars = chars_of(s);
    let needle = chars_of(from);
    let mut out = String::new();
    let mut at: usize = 0;
    proof {
        assert(s@.skip(0) =~= s@);
        assert(out@ + replaced(s@, from@, to@) =~= replaced(s@, from@, to@));
    }
    while at < chars.len()
        invariant
            chars@ == s@,
            needle@ == from@,
            needle@.len() > 0,
            at <= s@.len(),
            out@ + replaced(s@.skip(at as int), from@, to@) == replaced(s@, from@, to@),
        decreases s@.len() - at,
    {
        let ghost rest = s@.skip(at as int);
        let ghost so_far = out@;
        if is_at(chars.as_slice(), needle.as_slice(), at) {
            proof {
                assert(s@.subrange(at as int, at + from@.len()) =~= rest.subrange(
                    0,
                    from@.len() as int,
                ));
                assert(rest.skip(from@.len() as int) =~= s@.skip(at + from@.len()));
            }
            out.append(to);
            proof {
                assert(out@ + replaced(s@.skip(at + from@.len()), from@, to@) =~= so_far + (to@
                    + replaced(s@.skip(at + from@.len()), from@, to@)));
            }
            at += needle.len();
        } else {
            proof {
                if rest.len() >= from@.len() && from@.is_prefix_of(rest) {
                    assert(s@.subrange(at as int, at + from@.len()) =~= rest.subrange(
                        0,
                        from@.len() as int,
                    ));
                    assert(false);
                }
                assert(rest.drop_first() =~= s@.skip(at + 1));
            }
            out.push(chars[at]);
            proof {
                if rest.len() < from@.len() {
                    assert(out@ + rest.drop_first() =~= so_far + rest);
                } else {
                    assert(out@ + replaced(rest.drop_first(), from@, to@) =~= so_far + (seq![
                        rest[0],
                    ] + replaced(rest.drop_first(), from@, to@)));
                }
            }
            at += 1;
        }
    }
    proof {
        assert(s@.skip(at as int) =~= Seq::<char>::empty());
        assert(out@ + Seq::<char>::empty() =~= out@);
    }
    out
}

/// The decimal digit `d`, for `d < 10`.
pub open spec fn digit_char(d: nat) -> char {
    (0x30 + d) as u8 as char
}

/// `n` in decimal, without leading zeros.
pub open spec fn decimal(n: nat) -> Seq<char>
    decreases n,
{
    if n < 10 {
        seq![digit_char(n)]
    } else {
        decimal(n / 10).push(digit_char(n % 10))
    }
}

/// `n` in decimal.
pub fn wide_decimal_of(n: u128) -> (s: String)
    ensures
        s@ == decimal(n as nat),
    decreases n,
{
    let digit = (0x30u8 + (n % 10) as u8) as char;
    if n < 10 {
        let mut s = String::new();
        s.push(digit);
        proof {
            assert(s@ =~= decimal(n as nat));
        }
        s
    } else {
        let mut s = wide_decimal_of(n / 10);
        s.push(digit);
        s
    }
}

/// `n` in decimal.
pub fn decimal_of(n: u64) -> (s: String)
    ensures
        s@ == decimal(n as nat),
{
    wide_decimal_of(n as u128)
}

/// The number that a run of decimal digits denotes.
pub open spec fn digits_value(s: Seq<char>) -> nat
    decreases s.len(),
{
    if s.len() == 0 {
        0
    } else {
        digits_value(s.drop_last()) * 10 + (s.last() as u32 - 0x30) as nat
    }
}

/// Whether every character of `s` is a decimal digit.
pub open spec fn all_digits(s: Seq<char>) -> bool {
    forall|i: int| 0 <= i < s.len() ==> ascii_digit(#[trigger] s[i])
}

/// The number that `s` denotes: `None` unless `s` is a non-empty run of decimal digits whose
/// value fits.
pub fn parse_number(s: &[char]) -> (r: Option<u64>)
    ensures
        r == (if s@.len() > 0 && all_digits(s@) && digits_value(s@) <= u64::MAX {
            Some(digits_value(s@) as u64)
        } else {
            None
        }),
{
    if s.len() == 0 {
        return None;
    }
    let mut i: usize = 0;
    let mut n: u64 = 0;
    let mut fits = true;
    proof {
        assert(s@.take(0) =~= Seq::<char>::empty());
    }
    while i < s.len()
        invariant
            i <= s@.len(),
            forall|j: int| 0 <= j < i ==> ascii_digit(#[trigger] s@[j]),
            fits ==> n == digits_value(s@.take(i as int)),
            !fits ==> digits_value(s@.take(i as int)) > u64::MAX,
        decreases s@.len() - i,
    {
        proof {
            assert(s@.take(i + 1).drop_last() =~= s@.take(i as int));
            assert(s@.take(i + 1).last() == s@[i as int]);
        }
        if !is_ascii_digit(s[i]) {
            return None;
        }
        let d: u64 = (s[i] as u32 - 0x30) as u64;
        if fits {
            match n.checked_mul(10) {
                Some(m) => match m.checked_add(d) {
                    Some(v) => {
                        n = v;
                    },
                    None => {
                        fits = false;
                    },
                },
                None => {
                    fits = false;
                },
            }
        }
        i += 1;
    }
    proof {
        assert(s@.take(i as int) =~= s@);
    }
    if fits {
        Some(n)
    } else {
        None
    }
}

// ---------------------------------------------------------------------------
// Case and order
// ---------------------------------------------------------------------------

/// The lower-case form of a text.
pub uninterp spec fn lowercase_text(s: Seq<char>) -> Seq<char>;

/// `str::to_lowercase`: the Unicode lower-case form, a function of the text alone.
pub assume_specification[ str::to_lowercase ](s: &str) -> (r: String)
    ensures
        r@ == lowercase_text(s@),
;

/// Whether `a` stands before `b` in the order of strings, or is equal to it.
pub open spec fn text_le(a: Seq<char>, b: Seq<char>) -> bool
    decreases a.len(),
{
    if a.len() == 0 {
        true
    } else if b.len() == 0 {
        false
    } else if a[0] == b[0] {
        text_le(a.drop_first(), b.drop_first())
    } else {
        (a[0] as u32) < (b[0] as u32)
    }
}

/// The order of strings is total, transitive, and tells different strings apart.
pub proof fn lemma_text_le_order(a: Seq<char>, b: Seq<char>, c: Seq<char>)
    ensures
        text_le(a, b) || text_le(b, a),
        text_le(a, b) && text_le(b, a) ==> a == b,
        text_le(a, b) && text_le(b, c) ==> text_le(a, c),
    decreases a.len(), b.len(), c.len(),
{
    if a.len() > 0 && b.len() > 0 {
        lemma_text_le_pair(a, b);
        if c.len() > 0 {
            lemma_text_le_order(a.drop_first(), b.drop_first(), c.drop_first());
        }
    } else {
        lemma_text_le_pair(a, b);
    }
}

proof fn lemma_char_code(x: char, y: char)
    ensures
        x as u32 == y as u32 ==> x == y,
{
}

proof fn lemma_text_le_pair(a: Seq<char>, b: Seq<char>)
    ensures
        text_le(a, b) || text_le(b, a),
        text_le(a, b) && text_le(b, a) ==> a == b,
    decreases a.len(),
{
    if a.len() > 0 && b.len() > 0 {
        lemma_text_le_pair(a.drop_first(), b.drop_first());
        lemma_char_code(a[0], b[0]);
        if a[0] == b[0] && a.drop_first() == b.drop_first() {
            assert(a =~= seq![a[0]] + a.drop_first());
            assert(b =~= seq![b[0]] + b.drop_first());
        }
    } else if text_le(a, b) && text_le(b, a) {
        assert(a =~= b);
    }
}

/// Whether `a` stands before `b` in the order of strings, or is equal to it.
pub fn is_text_le(a: &[char], b: &[char]) -> (r: bool)
    ensures
        r == text_le(a@, b@),
{
    let mut i: usize = 0;
    proof {
        assert(a@.skip(0) =~= a@);
        assert(b@.skip(0) =~= b@);
    }
    while i < a.len() && i < b.len() && a[i] == b[i]
        invariant
            i <= a@.len(),
            i <= b@.len(),
            text_le(a@.skip(i as int), b@.skip(i as int)) == text_le(a@, b@),
        decreases a@.len() - i,
    {
        proof {
            assert(a@.skip(i as int).drop_first() =~= a@.skip(i + 1));
            assert(b@.skip(i as int).drop_first() =~= b@.skip(i + 1));
        }
        i += 1;
    }
    if i >= a.len() {
        true
    } else if i >= b.len() {
        false
    } else {
        (a[i] as u32) < (b[i] as u32)
    }
}

// ---------------------------------------------------------------------------
// Laws
// ---------------------------------------------------------------------------

/// A text without the separator is its own only piece.
pub proof fn law_split_without_separator(s: Seq<char>, sep: char)
    requires
        !s.contains(sep),
    ensures
        split_on(s, sep) == seq![s],
    decreases s.len(),
{
    if s.len() == 0 {
        assert(s =~= Seq::<char>::empty());
        assert(split_on(s, sep) =~= seq![s]);
    } else {
        let t = s.drop_last();
        assert forall|i: int| 0 <= i < t.len() implies t[i] != sep by {
            assert(s.contains(s[i]));
        }
        assert(s.contains(s.last()));
        law_split_without_separator(t, sep);
        assert(t.push(s.last()) =~= s);
        assert(split_on(s, sep) =~= seq![s]);
    }
}

/// A separator parts the pieces before it from the pieces behind it.
pub proof fn law_split_at_separator(a: Seq<char>, sep: char, b: Seq<char>)
    ensures
        split_on(a + seq![sep] + b, sep) == split_on(a, sep) + split_on(b, sep),
    decreases b.len(),
{
    let s = a + seq![sep] + b;
    if b.len() == 0 {
        assert(s =~= a.push(sep));
        assert(s.drop_last() =~= a);
        assert(b =~= Seq::<char>::empty());
        assert(split_on(s, sep) =~= split_on(a, sep) + split_on(b, sep));
    } else {
        let t = b.drop_last();
        law_split_at_separator(a, sep, t);
        assert(s.drop_last() =~= a + seq![sep] + t);
        lemma_split_on_nonempty(t, sep);
        let left = split_on(a, sep);
        let right = split_on(t, sep);
        assert((left + right).drop_last() =~= left + right.drop_last());
        assert((left + right).last() == right.last());
        assert(split_on(s, sep) =~= left + split_on(b, sep));
    }
}

/// A text has one piece more than there are separators in it: it has one only without any.
pub proof fn law_split_counts_separators(s: Seq<char>, sep: char)
    ensures
        split_on(s, sep).len() == s.filter(|c: char| c == sep).len() + 1,
    decreases s.len(),
{
    reveal(Seq::filter);
    if s.len() > 0 {
        law_split_counts_separators(s.drop_last(), sep);
    }
}

/// No piece holds the separator.
pub proof fn law_pieces_hold_no_separator(s: Seq<char>, sep: char, i: int)
    requires
        0 <= i < split_on(s, sep).len(),
    ensures
        !split_on(s, sep)[i].contains(sep),
    decreases s.len(),
{
    if s.len() > 0 {
        let t = s.drop_last();
        let before = split_on(t, sep);
        lemma_split_on_nonempty(t, sep);
        if s.last() == sep {
            if i < before.len() {
                law_pieces_hold_no_separator(t, sep, i);
            }
        } else {
            law_pieces_hold_no_separator(t, sep, i);
            if i == before.len() - 1 {
                let piece = split_on(s, sep)[i];
                assert forall|k: int| 0 <= k < piece.len() implies piece[k] != sep by {
                    if k < before.last().len() {
                        assert(before[i].contains(before[i][k]));
                    }
                }
            }
        }
    }
}

/// A line ends at its line feed, a carriage return before it included; the lines behind it are
/// those of the rest.
pub proof fn law_lines_end_at_line_feeds(line: Seq<char>, rest: Seq<char>)
    requires
        !line.contains('\n'),
    ensures
        lines(line + seq!['\n'] + rest) == seq![without_carriage_return(line)] + lines(rest),
{
    law_split_at_separator(line, '\n', rest);
    law_split_without_separator(line, '\n');
    lemma_split_on_nonempty(rest, '\n');
    let behind = split_on(rest, '\n');
    let all = seq![line] + behind;
    assert(all.drop_last() =~= seq![line] + behind.drop_last());
    assert(all.last() == behind.last());
    assert(lines(line + seq!['\n'] + rest) =~= seq![without_carriage_return(line)] + lines(rest));
}

/// A text without a line feed is one line, or none where it is empty.
pub proof fn law_last_line_needs_no_ending(line: Seq<char>)
    requires
        !line.contains('\n'),
    ensures
        lines(line) == (if line.len() == 0 {
            Seq::empty()
        } else {
            seq![line]
        }),
{
    law_split_without_separator(line, '\n');
    assert(seq![line].drop_last() =~= Seq::<Seq<char>>::empty());
    assert(lines(line) =~= (if line.len() == 0 {
        Seq::empty()
    } else {
        seq![line]
    }));
}

/// A carriage return belongs to the line's ending, and to nothing else.
pub proof fn law_carriage_return_ends_a_line(line: Seq<char>)
    ensures
        without_carriage_return(line.push('\r')) == line,
        line.len() == 0 || line.last() != '\r' ==> without_carriage_return(line) == line,
{
    assert(line.push('\r').drop_last() =~= line);
}

/// Trimming drops the white space at both ends and nothing else.
pub proof fn law_trimming(before: Seq<char>, core: Seq<char>, after: Seq<char>)
    requires
        forall|i: int| 0 <= i < before.len() ==> white_space(#[trigger] before[i]),
        forall|i: int| 0 <= i < after.len() ==> white_space(#[trigger] after[i]),
        core.len() > 0 ==> !white_space(core[0]) && !white_space(core.last()),
    ensures
        trimmed(before + core + after) == core,
    decreases before.len() + after.len(),
{
    let s = before + core + after;
    if before.len() > 0 {
        let rest = before.drop_first();
        assert forall|i: int| 0 <= i < rest.len() implies white_space(#[trigger] rest[i]) by {
            assert(white_space(before[i + 1]));
        }
        law_trimming(rest, core, after);
        assert(s.drop_first() =~= rest + core + after);
        assert(white_space(before[0]));
        assert(s[0] == before[0]);
    } else if core.len() == 0 {
        lemma_all_white(s);
    } else {
        assert(s =~= core + after);
        assert(s[0] == core[0]);
        lemma_trim_end_of(core, after);
    }
}

proof fn lemma_all_white(s: Seq<char>)
    requires
        forall|i: int| 0 <= i < s.len() ==> white_space(#[trigger] s[i]),
    ensures
        trimmed(s) == Seq::<char>::empty(),
    decreases s.len(),
{
    if s.len() > 0 {
        let t = s.drop_first();
        assert(white_space(s[0]));
        assert forall|i: int| 0 <= i < t.len() implies white_space(#[trigger] t[i]) by {
            assert(white_space(s[i + 1]));
        }
        lemma_all_white(t);
    } else {
        assert(s =~= Seq::<char>::empty());
    }
}

/// White space at the end is dropped, up to what is none.
pub proof fn lemma_trim_end_of(core: Seq<char>, after: Seq<char>)
    requires
        core.len() > 0,
        !white_space(core.last()),
        forall|i: int| 0 <= i < after.len() ==> white_space(#[trigger] after[i]),
    ensures
        trim_end(core + after) == core,
    decreases after.len(),
{
    let s = core + after;
    if after.len() > 0 {
        assert(white_space(after[after.len() - 1]));
        assert(s.drop_last() =~= core + after.drop_last());
        assert forall|i: int| 0 <= i < after.len() - 1 implies white_space(
            #[trigger] after.drop_last()[i],
        ) by {
            assert(white_space(after[i]));
        }
        lemma_trim_end_of(core, after.drop_last());
    } else {
        assert(s =~= core);
    }
}

/// Reading a number back from its decimal digits gives the number.
pub proof fn law_decimal_round_trips(n: nat)
    ensures
        decimal(n).len() > 0,
        all_digits(decimal(n)),
        digits_value(decimal(n)) == n,
        n > 0 ==> decimal(n)[0] != '0',
    decreases n,
{
    if n < 10 {
        assert(decimal(n).drop_last() =~= Seq::<char>::empty());
        assert(digits_value(decimal(n).drop_last()) == 0);
    } else {
        law_decimal_round_trips(n / 10);
        let before = decimal(n / 10);
        assert(decimal(n).drop_last() =~= before);
        assert(decimal(n)[0] == before[0]);
        assert forall|i: int| 0 <= i < decimal(n).len() implies ascii_digit(
            #[trigger] decimal(n)[i],
        ) by {
            if i < before.len() {
                assert(ascii_digit(before[i]));
            }
        }
    }
}

/// A digit that is appended counts once, and what stood before it ten times.
pub proof fn law_digits_are_decimal(run: Seq<char>, digit: char)
    requires
        ascii_digit(digit),
    ensures
        digits_value(Seq::empty()) == 0,
        digits_value(run.push(digit)) == digits_value(run) * 10 + (digit as u32 - '0' as u32),
{
    assert(run.push(digit).drop_last() =~= run);
}

/// An occurrence behind the first character is one of the rest.
proof fn lemma_occurs_behind_first(s: Seq<char>, needle: Seq<char>, at: int)
    requires
        s.len() > 0,
        at >= 0,
    ensures
        occurs_at(s.drop_first(), needle, at) == occurs_at(s, needle, at + 1),
{
    if at + 1 + needle.len() <= s.len() {
        assert(s.drop_first().subrange(at, at + needle.len()) =~= s.subrange(
            at + 1,
            at + 1 + needle.len(),
        ));
    }
}

/// A prefix is an occurrence at the start.
proof fn lemma_occurs_at_start(s: Seq<char>, needle: Seq<char>)
    ensures
        needle.is_prefix_of(s) == occurs_at(s, needle, 0),
{
    if needle.len() <= s.len() {
        assert(s.subrange(0, needle.len() as int) =~= s.take(needle.len() as int));
    }
}

/// Counting is additive over an occurrence: what stands before it, holding none, adds nothing.
pub proof fn law_occurrences_are_counted(before: Seq<char>, needle: Seq<char>, after: Seq<char>)
    requires
        needle.len() > 0,
        forall|at: int| 0 <= at < before.len() ==> !occurs_at(before + needle + after, needle, at),
    ensures
        occurrences(before + needle + after, needle) == 1 + occurrences(after, needle),
    decreases before.len(),
{
    let s = before + needle + after;
    if before.len() == 0 {
        assert(s.take(needle.len() as int) =~= needle);
        assert(needle.is_prefix_of(s));
        assert(s.skip(needle.len() as int) =~= after);
    } else {
        let rest = before.drop_first();
        assert(s.drop_first() =~= rest + needle + after);
        assert(!occurs_at(s, needle, 0));
        lemma_occurs_at_start(s, needle);
        assert forall|at: int| 0 <= at < rest.len() implies !occurs_at(
            rest + needle + after,
            needle,
            at,
        ) by {
            assert(!occurs_at(s, needle, at + 1));
            lemma_occurs_behind_first(s, needle, at);
        }
        law_occurrences_are_counted(rest, needle, after);
    }
}

/// A text that does not hold the needle has no occurrence of it.
pub proof fn law_no_occurrence_counts_nothing(s: Seq<char>, needle: Seq<char>)
    requires
        !contains_text(s, needle),
    ensures
        occurrences(s, needle) == 0,
    decreases s.len(),
{
    if needle.len() > 0 && s.len() >= needle.len() {
        let t = s.drop_first();
        lemma_occurs_at_start(s, needle);
        assert(!occurs_at(s, needle, 0));
        assert forall|at: int| !occurs_at(t, needle, at) by {
            if at >= 0 {
                lemma_occurs_behind_first(s, needle, at);
                assert(!occurs_at(s, needle, at + 1));
            }
        }
        law_no_occurrence_counts_nothing(t, needle);
    }
}

/// The first occurrence is replaced, and what follows it as if it stood alone; a text without an
/// occurrence stays.
pub proof fn law_replacing(before: Seq<char>, from: Seq<char>, after: Seq<char>, to: Seq<char>)
    requires
        from.len() > 0,
        forall|at: int| 0 <= at < before.len() ==> !occurs_at(before + from + after, from, at),
    ensures
        replaced(before + from + after, from, to) == before + to + replaced(after, from, to),
    decreases before.len(),
{
    let s = before + from + after;
    if before.len() == 0 {
        assert(s.take(from.len() as int) =~= from);
        assert(from.is_prefix_of(s));
        assert(s.skip(from.len() as int) =~= after);
        assert(before + to + replaced(after, from, to) =~= to + replaced(after, from, to));
    } else {
        let rest = before.drop_first();
        assert(s.drop_first() =~= rest + from + after);
        assert(!occurs_at(s, from, 0));
        lemma_occurs_at_start(s, from);
        assert forall|at: int| 0 <= at < rest.len() implies !occurs_at(
            rest + from + after,
            from,
            at,
        ) by {
            assert(!occurs_at(s, from, at + 1));
            lemma_occurs_behind_first(s, from, at);
        }
        law_replacing(rest, from, after, to);
        assert(seq![s[0]] + (rest + to + replaced(after, from, to)) =~= before + to + replaced(
            after,
            from,
            to,
        ));
    }
}

/// A text that does not hold `from` is not changed.
pub proof fn law_replacing_nothing(s: Seq<char>, from: Seq<char>, to: Seq<char>)
    requires
        !contains_text(s, from),
    ensures
        replaced(s, from, to) == s,
    decreases s.len(),
{
    if from.len() > 0 && s.len() >= from.len() {
        let t = s.drop_first();
        lemma_occurs_at_start(s, from);
        assert(!occurs_at(s, from, 0));
        assert forall|at: int| !occurs_at(t, from, at) by {
            if at >= 0 {
                lemma_occurs_behind_first(s, from, at);
                assert(!occurs_at(s, from, at + 1));
            }
        }
        law_replacing_nothing(t, from, to);
        assert(seq![s[0]] + t =~= s);
    }
}

/// Texts are ordered by their first difference, and a text before what continues it.
pub proof fn law_texts_are_ordered_by_their_first_difference(
    common: Seq<char>,
    x: char,
    y: char,
    a: Seq<char>,
    b: Seq<char>,
)
    requires
        (x as u32) < (y as u32),
    ensures
        text_le(common + seq![x] + a, common + seq![y] + b),
        !text_le(common + seq![y] + b, common + seq![x] + a),
        text_le(common, common + a),
        a.len() > 0 ==> !text_le(common + a, common),
    decreases common.len(),
{
    let s = common + seq![x] + a;
    let t = common + seq![y] + b;
    if common.len() == 0 {
        assert(s[0] == x && t[0] == y);
        assert(common + a =~= a);
    } else {
        let rest = common.drop_first();
        law_texts_are_ordered_by_their_first_difference(rest, x, y, a, b);
        assert(s.drop_first() =~= rest + seq![x] + a);
        assert(t.drop_first() =~= rest + seq![y] + b);
        assert((common + a).drop_first() =~= rest + a);
        assert((common + a)[0] == common[0]);
        assert(s[0] == common[0] && t[0] == common[0]);
    }
}

/// The texts of a list are those of its strings, each in its own place.
pub proof fn law_texts_of_a_list(owned: Seq<String>, slices: Seq<&str>, i: int)
    ensures
        string_texts(owned).len() == owned.len(),
        0 <= i < owned.len() ==> string_texts(owned)[i] == owned[i]@,
        str_texts(slices).len() == slices.len(),
        0 <= i < slices.len() ==> str_texts(slices)[i] == slices[i]@,
{
}

} // verus!
