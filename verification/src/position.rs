//! Positions in a document, counted in lines and UTF-16 code units.

use crate::text::{
    chars_of, law_split_at_separator, law_split_counts_separators, law_split_without_separator,
    lemma_total_len_prefix, split, split_on, texts, total_len,
};
use vstd::prelude::*;

verus! {

/// A zero-based position: a line, and a UTF-16 code unit count within it.
#[derive(Debug, Clone, Copy, PartialEq, Eq, Hash, Structural)]
pub struct Position {
    /// Zero-based line.
    pub line: u32,
    /// Zero-based UTF-16 code unit offset within the line.
    pub character: u32,
}

impl Position {
    /// The position at `line` and `character`.
    pub fn new(line: u32, character: u32) -> (r: Self)
        ensures
            r == (Position { line, character }),
    {
        Position { line, character }
    }
}

impl Default for Position {
    fn default() -> (r: Self)
        ensures
            r == (Position { line: 0, character: 0 }),
    {
        Position { line: 0, character: 0 }
    }
}

/// A span between two positions: `start` inclusive, `end` exclusive.
#[derive(Debug, Clone, Copy, PartialEq, Eq, Hash, Structural)]
pub struct Range {
    /// The inclusive start.
    pub start: Position,
    /// The exclusive end.
    pub end: Position,
}

impl Range {
    /// The span from `start` to `end`.
    pub fn new(start: Position, end: Position) -> (r: Self)
        ensures
            r == (Range { start, end }),
    {
        Range { start, end }
    }
}

impl Default for Range {
    fn default() -> (r: Self)
        ensures
            r == (Range {
                start: Position { line: 0, character: 0 },
                end: Position { line: 0, character: 0 },
            }),
    {
        Range { start: Position::new(0, 0), end: Position::new(0, 0) }
    }
}

/// How many UTF-16 code units `c` takes.
pub open spec fn utf16_width(c: char) -> nat {
    if c as u32 >= 0x10000 {
        2
    } else {
        1
    }
}

/// The number of characters of `line` that lie before the UTF-16 column `column`: the shortest
/// prefix that covers the column, or the whole line when the column lies beyond it.
pub open spec fn column_offset(line: Seq<char>, column: nat) -> nat
    decreases line.len(),
{
    if column == 0 || line.len() == 0 {
        0
    } else if column <= utf16_width(line[0]) {
        1
    } else {
        1 + column_offset(line.drop_first(), (column - utf16_width(line[0])) as nat)
    }
}

/// A column lies within its line.
pub proof fn lemma_column_offset_bound(line: Seq<char>, column: nat)
    ensures
        column_offset(line, column) <= line.len(),
    decreases line.len(),
{
    if column > 0 && line.len() > 0 && column > utf16_width(line[0]) {
        lemma_column_offset_bound(line.drop_first(), (column - utf16_width(line[0])) as nat);
    }
}

/// The number of characters of `line` before the UTF-16 column `column`.
pub fn utf16_column_offset(line: &[char], column: u32) -> (r: usize)
    ensures
        r == column_offset(line@, column as nat),
        r <= line@.len(),
{
    let mut left: u32 = column;
    let mut i: usize = 0;
    proof {
        assert(line@.skip(0) =~= line@);
    }
    while i < line.len() && left > 0
        invariant
            i <= line@.len(),
            i + column_offset(line@.skip(i as int), left as nat) == column_offset(
                line@,
                column as nat,
            ),
        decreases line@.len() - i,
    {
        proof {
            assert(line@.skip(i as int)[0] == line@[i as int]);
            assert(line@.skip(i as int).drop_first() =~= line@.skip(i + 1));
        }
        let width: u32 = if line[i] as u32 >= 0x10000 {
            2
        } else {
            1
        };
        if left <= width {
            left = 0;
        } else {
            left -= width;
        }
        i += 1;
    }
    i
}

/// Where `position` lies in `content`, as a number of characters. A line beyond the last one
/// stands for the end of the document, a column beyond its line for the end of that line.
pub open spec fn position_offset(content: Seq<char>, position: Position) -> nat {
    let pieces = split_on(content, '\n');
    if position.line < pieces.len() {
        (total_len(pieces.take(position.line as int)) + position.line + column_offset(
            pieces[position.line as int],
            position.character as nat,
        )) as nat
    } else {
        content.len()
    }
}

proof fn lemma_split_on_exact_len(s: Seq<char>, sep: char)
    ensures
        split_on(s, sep).len() >= 1,
        total_len(split_on(s, sep)) + split_on(s, sep).len() == s.len() + 1,
    decreases s.len(),
{
    let pieces = split_on(s, sep);
    if s.len() == 0 {
        assert(pieces.drop_last() =~= Seq::<Seq<char>>::empty());
        assert(total_len(pieces.drop_last()) == 0);
    } else {
        lemma_split_on_exact_len(s.drop_last(), sep);
        let before = split_on(s.drop_last(), sep);
        if s.last() == sep {
            assert(pieces.drop_last() =~= before);
        } else {
            assert(pieces.drop_last() =~= before.drop_last());
        }
    }
}

proof fn lemma_total_len_step(pieces: Seq<Seq<char>>, n: int)
    requires
        0 <= n < pieces.len(),
    ensures
        total_len(pieces.take(n + 1)) == total_len(pieces.take(n)) + pieces[n].len(),
        total_len(pieces.take(n)) + pieces[n].len() + (pieces.len() - n - 1) <= total_len(pieces)
            + pieces.len() - n - 1,
{
    assert(pieces.take(n + 1).drop_last() =~= pieces.take(n));
    lemma_total_len_prefix(pieces, n + 1);
}

/// Every position lies within the document.
pub proof fn lemma_position_offset_bound(content: Seq<char>, position: Position)
    ensures
        position_offset(content, position) <= content.len(),
{
    let pieces = split_on(content, '\n');
    if position.line < pieces.len() {
        lemma_split_on_exact_len(content, '\n');
        lemma_total_len_step(pieces, position.line as int);
        lemma_column_offset_bound(pieces[position.line as int], position.character as nat);
    }
}

proof fn lemma_column_offset_monotone(line: Seq<char>, a: nat, b: nat)
    requires
        a <= b,
    ensures
        column_offset(line, a) <= column_offset(line, b),
    decreases line.len(),
{
    if a > 0 && line.len() > 0 && a > utf16_width(line[0]) {
        let w = utf16_width(line[0]);
        lemma_column_offset_monotone(line.drop_first(), (a - w) as nat, (b - w) as nat);
    }
}

proof fn lemma_total_len_monotone(pieces: Seq<Seq<char>>, m: int, n: int)
    requires
        0 <= m <= n <= pieces.len(),
    ensures
        total_len(pieces.take(m)) <= total_len(pieces.take(n)),
{
    lemma_total_len_prefix(pieces.take(n), m);
    assert(pieces.take(n).take(m) =~= pieces.take(m));
}

/// A later position never lies before an earlier one.
pub proof fn lemma_position_offset_monotone(content: Seq<char>, p: Position, q: Position)
    requires
        p.line < q.line || (p.line == q.line && p.character <= q.character),
    ensures
        position_offset(content, p) <= position_offset(content, q),
{
    let pieces = split_on(content, '\n');
    lemma_position_offset_bound(content, p);
    if q.line < pieces.len() {
        let line = pieces[p.line as int];
        if p.line == q.line {
            lemma_column_offset_monotone(line, p.character as nat, q.character as nat);
        } else {
            lemma_column_offset_bound(line, p.character as nat);
            lemma_total_len_step(pieces, p.line as int);
            lemma_total_len_monotone(pieces, p.line + 1, q.line as int);
        }
    }
}

/// The line starts of one document, computed once and used for every position in it.
pub struct LineOffsetTable {
    pieces: Vec<Vec<char>>,
    starts: Vec<usize>,
    len: usize,
    content: Ghost<Seq<char>>,
}

impl LineOffsetTable {
    /// The document whose positions this table resolves.
    pub closed spec fn content(&self) -> Seq<char> {
        self.content@
    }

    /// The recorded line starts are those of the document.
    #[verifier::type_invariant]
    spec fn line_starts_recorded(&self) -> bool {
        &&& texts(self.pieces@) == split_on(self.content@, '\n')
        &&& self.starts@.len() == self.pieces@.len()
        &&& self.len == self.content@.len()
        &&& forall|i: int|
            0 <= i < self.starts@.len() ==> #[trigger] self.starts@[i] == total_len(
                split_on(self.content@, '\n').take(i),
            ) + i
    }

    /// The table of `content`.
    pub fn new(content: &str) -> (r: Self)
        ensures
            r.content() == content@,
    {
        let chars = chars_of(content);
        let pieces = split(chars.as_slice(), '\n');
        let ghost parts = split_on(content@, '\n');
        let mut starts: Vec<usize> = Vec::new();
        let mut next: usize = 0;
        let mut i: usize = 0;
        proof {
            lemma_split_on_exact_len(content@, '\n');
            assert(parts.take(0) =~= Seq::<Seq<char>>::empty());
            assert(chars.len() == content@.len());
        }
        while i < pieces.len()
            invariant
                chars@ == content@,
                i <= pieces@.len(),
                parts == split_on(content@, '\n'),
                texts(pieces@) == parts,
                total_len(parts) + parts.len() == content@.len() + 1,
                starts@.len() == i,
                i < pieces@.len() ==> next == total_len(parts.take(i as int)) + i,
                forall|k: int|
                    0 <= k < i ==> #[trigger] starts@[k] == total_len(parts.take(k)) + k,
            decreases pieces@.len() - i,
        {
            starts.push(next);
            proof {
                assert(parts[i as int] == pieces@[i as int]@);
                lemma_total_len_step(parts, i as int);
                assert(chars.len() == content@.len());
            }
            if i + 1 < pieces.len() {
                proof {
                    lemma_total_len_prefix(parts, i + 1);
                }
                next = next + pieces[i].len() + 1;
            }
            i += 1;
        }
        LineOffsetTable { pieces, starts, len: chars.len(), content: Ghost(content@) }
    }

    /// The character offset of `position`.
    pub fn position_to_offset(&self, position: Position) -> (r: usize)
        ensures
            r == position_offset(self.content(), position),
            r <= self.content().len(),
    {
        proof {
            use_type_invariant(self);
            lemma_position_offset_bound(self.content@, position);
        }
        let line: usize = position.line as usize;
        if line < self.pieces.len() {
            let column: usize = utf16_column_offset(
                self.pieces[line].as_slice(),
                position.character,
            );
            proof {
                assert(texts(self.pieces@)[line as int] == self.pieces@[line as int]@);
            }
            self.starts[line] + column
        } else {
            self.len
        }
    }
}

// ---------------------------------------------------------------------------
// Laws
// ---------------------------------------------------------------------------

/// How many UTF-16 code units a text takes: two for each character beyond the basic plane, one
/// for every other.
pub open spec fn utf16_len(s: Seq<char>) -> nat
    decreases s.len(),
{
    if s.len() == 0 {
        0
    } else if s[0] as u32 > 0xffff {
        2 + utf16_len(s.drop_first())
    } else {
        1 + utf16_len(s.drop_first())
    }
}

/// A column counts the UTF-16 code units before it. One within a character lies behind it, and
/// one beyond the line at its end.
pub proof fn law_columns_count_utf16_units(before: Seq<char>, after: Seq<char>, beyond: nat)
    ensures
        column_offset(before + after, utf16_len(before)) == before.len(),
        after.len() > 0 ==> column_offset(before + after, utf16_len(before) + 1) == before.len()
            + 1,
        column_offset(before, utf16_len(before) + beyond) == before.len(),
    decreases before.len(),
{
    let line = before + after;
    if before.len() > 0 {
        let rest = before.drop_first();
        law_columns_count_utf16_units(rest, after, beyond);
        assert(line.drop_first() =~= rest + after);
        assert(line[0] == before[0]);
        lemma_no_units_no_text(rest);
    } else {
        assert(line =~= after);
    }
}

proof fn lemma_no_units_no_text(s: Seq<char>)
    ensures
        utf16_len(s) == 0 <==> s.len() == 0,
{
}

/// A position lies in its line: behind the lines before it, each with its line feed, and as many
/// characters into the line as its column says. A line beyond the last one stands for the end.
pub proof fn law_position_lies_in_its_line(
    before: Seq<char>,
    line: Seq<char>,
    after: Seq<char>,
    position: Position,
)
    requires
        !line.contains('\n'),
        after.len() > 0 ==> after[0] == '\n',
    ensures
        ({
            let feeds = before.filter(|c: char| c == '\n').len();
            let content = before + seq!['\n'] + line + after;
            &&& position.line == feeds + 1 ==> position_offset(content, position) == before.len()
                + 1 + column_offset(line, position.character as nat)
        }),
        position.line == 0 ==> position_offset(line + after, position) == column_offset(
            line,
            position.character as nat,
        ),
        position.line > before.filter(|c: char| c == '\n').len() ==> position_offset(
            before,
            position,
        ) == before.len(),
{
    let content = before + seq!['\n'] + line + after;
    lemma_first_piece(line, after);
    law_split_at_separator(before, '\n', line + after);
    assert(content =~= before + seq!['\n'] + (line + after));
    law_split_counts_separators(before, '\n');
    let above = split_on(before, '\n');
    let below = split_on(line + after, '\n');
    let pieces = split_on(content, '\n');
    assert(pieces =~= above + below);
    let n = above.len() as int;
    assert(pieces.take(n) =~= above);
    lemma_split_on_exact_len(before, '\n');
    assert(pieces[n] == below[0]);
    assert(below.take(0) =~= Seq::<Seq<char>>::empty());
    assert(total_len(below.take(0)) == 0);
}

proof fn lemma_first_piece(line: Seq<char>, after: Seq<char>)
    requires
        !line.contains('\n'),
        after.len() > 0 ==> after[0] == '\n',
    ensures
        split_on(line + after, '\n').len() > 0,
        split_on(line + after, '\n')[0] == line,
{
    law_split_without_separator(line, '\n');
    if after.len() > 0 {
        let rest = after.drop_first();
        assert(line + after =~= line + seq!['\n'] + rest);
        law_split_at_separator(line, '\n', rest);
    } else {
        assert(line + after =~= line);
    }
}

} // verus!
