//! Classification of a version bump by its leading dotted-numeric segment.

use crate::text::{
    all_digits, ascii_digit, ascii_hex_digit, chars_of, decimal, digits_value, is_ascii_digit,
    is_ascii_hex_digit, law_decimal_round_trips, law_split_at_separator,
    law_split_counts_separators, law_split_without_separator, parse_number, split, split_on, texts,
};
use vstd::prelude::*;

verus! {

/// The magnitude of a version bump, by comparison of the leading numeric segments.
#[derive(Debug, Clone, Copy, PartialEq, Eq, Structural)]
pub enum UpdateKind {
    /// The leading numeric segment (major) differs.
    Major,
    /// Major is equal, minor differs.
    Minor,
    /// Major and minor are equal (only patch, or nothing, differs).
    Patch,
    /// The two versions could not both be classified as a version with an unambiguous leading
    /// dotted-numeric segment (a SHA pin, a Go pseudo-version, a range, `*`, `latest`, ...).
    Unknown,
}

/// `s` without one leading `v` or `V`.
pub open spec fn without_v(s: Seq<char>) -> Seq<char> {
    if s.len() > 0 && (s[0] == 'v' || s[0] == 'V') {
        s.drop_first()
    } else {
        s
    }
}

/// `s` without one leading `0.`.
pub open spec fn without_zero_dot(s: Seq<char>) -> Seq<char> {
    if s.len() >= 2 && s[0] == '0' && s[1] == '.' {
        s.skip(2)
    } else {
        s
    }
}

/// Whether `s` has the shape of a Go pseudo-version: after an optional `v`, at least three
/// hyphen-separated pieces, of which the last is a commit hash of 12 hexadecimal digits and the
/// one before it a timestamp of 14 digits, with or without a leading `0.`.
pub open spec fn go_pseudo_version(s: Seq<char>) -> bool {
    let pieces = split_on(without_v(s), '-');
    &&& pieces.len() >= 3
    &&& pieces.last().len() == 12
    &&& forall|i: int| 0 <= i < 12 ==> ascii_hex_digit(#[trigger] pieces.last()[i])
    &&& without_zero_dot(pieces[pieces.len() - 2]).len() == 14
    &&& all_digits(without_zero_dot(pieces[pieces.len() - 2]))
}

/// The part of `s` before its first `-` or `+`.
pub open spec fn before_suffix(s: Seq<char>) -> Seq<char>
    decreases s.len(),
{
    if s.len() == 0 || s[0] == '-' || s[0] == '+' {
        Seq::empty()
    } else {
        seq![s[0]] + before_suffix(s.drop_first())
    }
}

/// Whether `piece` is a number that fits 64 bits: a non-empty run of digits.
pub open spec fn version_component(piece: Seq<char>) -> bool {
    piece.len() > 0 && all_digits(piece) && digits_value(piece) <= u64::MAX
}

/// The number at position `i` of a dotted version, 0 where it has no such component.
pub open spec fn component_value(pieces: Seq<Seq<char>>, i: int) -> u64 {
    if i < pieces.len() {
        digits_value(pieces[i]) as u64
    } else {
        0
    }
}

/// The leading `(major, minor, patch)` segment of `s`: `None` for a Go pseudo-version, and
/// unless every dot-separated component before the first `-` or `+` is a number.
pub open spec fn leading_dotted_numeric(s: Seq<char>) -> Option<(u64, u64, u64)> {
    let pieces = split_on(before_suffix(without_v(s)), '.');
    if !go_pseudo_version(s) && forall|i: int|
        0 <= i < pieces.len() ==> version_component(#[trigger] pieces[i]) {
        Some((component_value(pieces, 0), component_value(pieces, 1), component_value(pieces, 2)))
    } else {
        None
    }
}

/// The kind of the bump from `from` to `to`.
pub open spec fn update_kind(from: Seq<char>, to: Seq<char>) -> UpdateKind {
    match (leading_dotted_numeric(from), leading_dotted_numeric(to)) {
        (Some(f), Some(t)) => if f.0 != t.0 {
            UpdateKind::Major
        } else if f.1 != t.1 {
            UpdateKind::Minor
        } else {
            UpdateKind::Patch
        },
        _ => UpdateKind::Unknown,
    }
}

/// Classifies the version bump from `from` to `to`.
///
/// Returns [`UpdateKind::Unknown`] unless both strings have an unambiguous leading
/// dotted-numeric segment: an optional `v`/`V` prefix, then one or more all-digit dot-separated
/// components, then either nothing or a `-`/`+` suffix. A Go pseudo-version
/// (`v0.0.0-20210101000000-abcdef123456`) would otherwise parse as `0.0.0` by accident, so it is
/// rejected by its shape first.
#[must_use]
pub fn classify_update(from: &str, to: &str) -> (r: UpdateKind)
    ensures
        r == update_kind(from@, to@),
        leading_dotted_numeric(from@) matches Some(f) ==> leading_dotted_numeric(to@) matches Some(
            t,
        ) ==> {
            &&& (r is Major) <==> f.0 != t.0
            &&& (r is Minor) <==> f.0 == t.0 && f.1 != t.1
            &&& (r is Patch) <==> f.0 == t.0 && f.1 == t.1
        },
{
    match (parse_leading_dotted_numeric(from), parse_leading_dotted_numeric(to)) {
        (Some(f), Some(t)) => {
            if f.0 != t.0 {
                UpdateKind::Major
            } else if f.1 != t.1 {
                UpdateKind::Minor
            } else {
                UpdateKind::Patch
            }
        },
        _ => UpdateKind::Unknown,
    }
}

/// `chars` without one leading `v` or `V`.
pub(crate) fn strip_v(chars: &[char]) -> (r: &[char])
    ensures
        r@ == without_v(chars@),
{
    if chars.len() > 0 && (chars[0] == 'v' || chars[0] == 'V') {
        let rest = &chars[1..chars.len()];
        proof {
            assert(rest@ =~= chars@.drop_first());
        }
        rest
    } else {
        chars
    }
}

fn is_go_pseudo_version(chars: &[char]) -> (r: bool)
    ensures
        r == go_pseudo_version(chars@),
{
    let body = strip_v(chars);
    let parts = split(body, '-');
    let ghost pieces = split_on(body@, '-');
    if parts.len() < 3 {
        return false;
    }
    let hash = parts[parts.len() - 1].as_slice();
    let stamp = parts[parts.len() - 2].as_slice();
    proof {
        assert(texts(parts@)[parts@.len() - 1] == hash@);
        assert(texts(parts@)[parts@.len() - 2] == stamp@);
    }
    let stamp = if stamp.len() >= 2 && stamp[0] == '0' && stamp[1] == '.' {
        let rest = &stamp[2..stamp.len()];
        proof {
            assert(rest@ =~= stamp@.skip(2));
        }
        rest
    } else {
        stamp
    };
    if hash.len() != 12 || stamp.len() != 14 {
        return false;
    }
    let mut i: usize = 0;
    while i < hash.len()
        invariant
            i <= hash@.len(),
            hash@.len() == 12,
            pieces.last() == hash@,
            pieces == split_on(without_v(chars@), '-'),
            forall|j: int| 0 <= j < i ==> ascii_hex_digit(#[trigger] hash@[j]),
        decreases hash@.len() - i,
    {
        if !is_ascii_hex_digit(hash[i]) {
            proof {
                assert(!ascii_hex_digit(pieces.last()[i as int]));
            }
            return false;
        }
        i += 1;
    }
    let mut k: usize = 0;
    while k < stamp.len()
        invariant
            k <= stamp@.len(),
            pieces.len() >= 3,
            without_zero_dot(pieces[pieces.len() - 2]) == stamp@,
            pieces == split_on(without_v(chars@), '-'),
            forall|j: int| 0 <= j < k ==> ascii_digit(#[trigger] stamp@[j]),
        decreases stamp@.len() - k,
    {
        if !is_ascii_digit(stamp[k]) {
            proof {
                assert(!ascii_digit(stamp@[k as int]));
            }
            return false;
        }
        k += 1;
    }
    true
}

fn core_len(chars: &[char]) -> (n: usize)
    ensures
        n <= chars@.len(),
        chars@.take(n as int) == before_suffix(chars@),
{
    let mut n: usize = 0;
    proof {
        assert(chars@.skip(0) =~= chars@);
        assert(chars@.take(0) + before_suffix(chars@) =~= before_suffix(chars@));
    }
    while n < chars.len() && chars[n] != '-' && chars[n] != '+'
        invariant
            n <= chars@.len(),
            chars@.take(n as int) + before_suffix(chars@.skip(n as int)) == before_suffix(chars@),
        decreases chars@.len() - n,
    {
        proof {
            let rest = chars@.skip(n as int);
            assert(rest[0] == chars@[n as int]);
            assert(rest.drop_first() =~= chars@.skip(n + 1));
            assert(chars@.take(n as int) + (seq![rest[0]] + before_suffix(rest.drop_first()))
                =~= chars@.take(n + 1) + before_suffix(chars@.skip(n + 1)));
        }
        n += 1;
    }
    proof {
        let rest = chars@.skip(n as int);
        assert(before_suffix(rest) =~= Seq::<char>::empty());
        assert(chars@.take(n as int) + Seq::<char>::empty() =~= chars@.take(n as int));
    }
    n
}

/// The leading `(major, minor, patch)` dotted-numeric segment of `s`, or `None` when `s` is not
/// unambiguously one. A component beyond the third must still be a number, but only the first
/// three are returned.
pub fn parse_leading_dotted_numeric(s: &str) -> (r: Option<(u64, u64, u64)>)
    ensures
        r == leading_dotted_numeric(s@),
{
    let chars = chars_of(s);
    if is_go_pseudo_version(chars.as_slice()) {
        return None;
    }
    let stripped = strip_v(chars.as_slice());
    let n: usize = core_len(stripped);
    let core = &stripped[0..n];
    proof {
        assert(core@ =~= before_suffix(without_v(s@)));
    }
    let parts = split(core, '.');
    let ghost pieces = split_on(core@, '.');
    let mut major: u64 = 0;
    let mut minor: u64 = 0;
    let mut patch: u64 = 0;
    let mut count: usize = 0;
    while count < parts.len()
        invariant
            count <= parts@.len(),
            !go_pseudo_version(s@),
            texts(parts@) == pieces,
            pieces == split_on(before_suffix(without_v(s@)), '.'),
            forall|i: int| 0 <= i < count ==> version_component(#[trigger] pieces[i]),
            major == (if count > 0 {
                component_value(pieces, 0)
            } else {
                0
            }),
            minor == (if count > 1 {
                component_value(pieces, 1)
            } else {
                0
            }),
            patch == (if count > 2 {
                component_value(pieces, 2)
            } else {
                0
            }),
        decreases parts@.len() - count,
    {
        proof {
            assert(pieces[count as int] == parts@[count as int]@);
        }
        match parse_number(parts[count].as_slice()) {
            None => {
                proof {
                    assert(!version_component(pieces[count as int]));
                }
                return None;
            },
            Some(n) => {
                if count == 0 {
                    major = n;
                } else if count == 1 {
                    minor = n;
                } else if count == 2 {
                    patch = n;
                }
            },
        }
        count += 1;
    }
    Some((major, minor, patch))
}

// ---------------------------------------------------------------------------
// Laws
// ---------------------------------------------------------------------------

/// A version that classifies at all is a patch away from itself.
pub proof fn law_equal_versions_are_a_patch(v: Seq<char>)
    ensures
        update_kind(v, v) == (if leading_dotted_numeric(v) is Some {
            UpdateKind::Patch
        } else {
            UpdateKind::Unknown
        }),
{
}

/// The kind of a bump does not depend on its direction.
pub proof fn law_update_kind_is_symmetric(from: Seq<char>, to: Seq<char>)
    ensures
        update_kind(from, to) == update_kind(to, from),
{
}

/// A Go pseudo-version classifies as unknown against every version.
pub proof fn law_pseudo_versions_are_unknown(from: Seq<char>, to: Seq<char>)
    requires
        go_pseudo_version(from) || go_pseudo_version(to),
    ensures
        update_kind(from, to) == UpdateKind::Unknown,
{
}

/// An empty version, the stand-in for one that could not be resolved, classifies as unknown
/// against every version.
pub proof fn law_empty_version_is_unknown(from: Seq<char>, to: Seq<char>)
    requires
        from.len() == 0 || to.len() == 0,
    ensures
        update_kind(from, to) == UpdateKind::Unknown,
{
    let empty = Seq::<char>::empty();
    let pieces = split_on(before_suffix(without_v(empty)), '.');
    assert(pieces[0].len() == 0);
    assert(!version_component(pieces[0]));
    if from.len() == 0 {
        assert(from =~= empty);
    } else {
        assert(to =~= empty);
    }
}

/// The bump is major exactly where the major numbers differ, minor exactly where only the minor
/// ones do, and a patch exactly where both agree; it is unknown exactly where one of the
/// versions has no leading dotted-numeric segment.
pub proof fn law_first_difference_decides(from: Seq<char>, to: Seq<char>)
    ensures
        (update_kind(from, to) is Unknown) <==> (leading_dotted_numeric(from) is None
            || leading_dotted_numeric(to) is None),
        leading_dotted_numeric(from) matches Some(f) ==> leading_dotted_numeric(to) matches Some(t)
            ==> {
            &&& (update_kind(from, to) is Major) <==> f.0 != t.0
            &&& (update_kind(from, to) is Minor) <==> f.0 == t.0 && f.1 != t.1
            &&& (update_kind(from, to) is Patch) <==> f.0 == t.0 && f.1 == t.1
        },
{
}

/// A bump of the number at one place of `major.minor.patch` is of that place's kind, whatever
/// the numbers before it, after it, and the prefix and the suffix of either version are.
pub proof fn law_bumps_of_dotted_versions(
    v: Seq<char>,
    f: (nat, nat, nat),
    a: Seq<char>,
    w: Seq<char>,
    t: (nat, nat, nat),
    b: Seq<char>,
)
    requires
        version_prefix(v),
        version_prefix(w),
        version_suffix(a),
        version_suffix(b),
        f.0 <= u64::MAX && f.1 <= u64::MAX && f.2 <= u64::MAX,
        t.0 <= u64::MAX && t.1 <= u64::MAX && t.2 <= u64::MAX,
    ensures
        ({
            let from = v + (decimal(f.0) + seq!['.'] + (decimal(f.1) + seq!['.'] + decimal(f.2)))
                + a;
            let to = w + (decimal(t.0) + seq!['.'] + (decimal(t.1) + seq!['.'] + decimal(t.2))) + b;
            &&& (update_kind(from, to) is Major) <==> f.0 != t.0
            &&& (update_kind(from, to) is Minor) <==> f.0 == t.0 && f.1 != t.1
            &&& (update_kind(from, to) is Patch) <==> f.0 == t.0 && f.1 == t.1
        }),
{
    law_dotted_version_is_read(v, f.0, f.1, f.2, a);
    law_dotted_version_is_read(w, t.0, t.1, t.2, b);
}

/// What may stand before the numbers of a version: nothing, `v` or `V`.
pub open spec fn version_prefix(v: Seq<char>) -> bool {
    v == Seq::<char>::empty() || v == seq!['v'] || v == seq!['V']
}

/// What may stand behind the numbers of an ordinary version: nothing, or a `-` or a `+` and
/// more that holds no further hyphen.
pub open spec fn version_suffix(a: Seq<char>) -> bool {
    a.len() > 0 ==> (a[0] == '-' || a[0] == '+') && !a.drop_first().contains('-')
}

/// The numbers of `major.minor.patch` are the leading segment, after an optional `v` and before
/// an optional suffix.
pub proof fn law_dotted_version_is_read(
    v: Seq<char>,
    major: nat,
    minor: nat,
    patch: nat,
    a: Seq<char>,
)
    requires
        version_prefix(v),
        version_suffix(a),
        major <= u64::MAX,
        minor <= u64::MAX,
        patch <= u64::MAX,
    ensures
        leading_dotted_numeric(
            v + (decimal(major) + seq!['.'] + (decimal(minor) + seq!['.'] + decimal(patch))) + a,
        ) == Some((major as u64, minor as u64, patch as u64)),
{
    let tail = decimal(minor) + seq!['.'] + decimal(patch);
    let core = decimal(major) + seq!['.'] + tail;
    lemma_decimal_is_a_component(major);
    lemma_decimal_is_a_component(minor);
    lemma_decimal_is_a_component(patch);
    law_split_at_separator(decimal(major), '.', tail);
    law_split_at_separator(decimal(minor), '.', decimal(patch));
    let pieces = split_on(core, '.');
    assert(pieces =~= seq![decimal(major), decimal(minor), decimal(patch)]);
    assert(version_component(pieces[0]) && version_component(pieces[1]) && version_component(
        pieces[2],
    ));
    assert forall|i: int| 0 <= i < core.len() implies ascii_digit(#[trigger] core[i]) || core[i]
        == '.' by {
        lemma_dotted_characters(decimal(minor), decimal(patch));
        lemma_dotted_characters(decimal(major), tail);
    }
    assert(core[0] == decimal(major)[0]);
    lemma_core_is_read(v, core, a);
}

/// Numbers that a version does not give are 0: `major` and `major.minor` are `major.0.0` and
/// `major.minor.0`.
pub proof fn law_missing_numbers_are_zero(v: Seq<char>, major: nat, minor: nat, a: Seq<char>)
    requires
        version_prefix(v),
        version_suffix(a),
        major <= u64::MAX,
        minor <= u64::MAX,
    ensures
        leading_dotted_numeric(v + decimal(major) + a) == Some((major as u64, 0u64, 0u64)),
        leading_dotted_numeric(v + (decimal(major) + seq!['.'] + decimal(minor)) + a) == Some(
            (major as u64, minor as u64, 0u64),
        ),
{
    lemma_decimal_is_a_component(major);
    lemma_decimal_is_a_component(minor);
    let one = decimal(major);
    let pieces = split_on(one, '.');
    assert(pieces =~= seq![one]);
    assert(version_component(pieces[0]));
    lemma_core_is_read(v, one, a);
    let two = decimal(major) + seq!['.'] + decimal(minor);
    law_split_at_separator(decimal(major), '.', decimal(minor));
    let both = split_on(two, '.');
    assert(both =~= seq![decimal(major), decimal(minor)]);
    assert(version_component(both[0]) && version_component(both[1]));
    lemma_dotted_characters(decimal(major), decimal(minor));
    assert(two[0] == decimal(major)[0]);
    lemma_core_is_read(v, two, a);
}

/// A version with anything but digits and dots before its suffix has no leading segment, and
/// neither has one whose suffix follows a dot or nothing at all, nor one with two dots in a row.
pub proof fn law_other_text_is_no_version(core: Seq<char>, a: Seq<char>, at: int)
    requires
        a.len() > 0 ==> a[0] == '-' || a[0] == '+',
        !core.contains('-') && !core.contains('+'),
        0 <= at <= core.len(),
        ({
            ||| at < core.len() && !ascii_digit(core[at]) && core[at] != '.' && (at > 0
                || core[at] != 'v' && core[at] != 'V')
            ||| (at == 0 || core[at - 1] == '.') && (at == core.len() || core[at] == '.')
        }),
    ensures
        leading_dotted_numeric(core + a) is None,
{
    let s = core + a;
    if s.len() > 0 && (s[0] == 'v' || s[0] == 'V') {
        let rest = core.drop_first();
        assert(core.len() > 0);
        assert(s.drop_first() =~= rest + a);
        assert forall|i: int| 0 <= i < rest.len() implies rest[i] != '-' && rest[i] != '+' by {
            assert(core.contains(core[i + 1]));
        }
        assert(at > 0);
        lemma_before_suffix(rest, a);
        if at == 1 && (at == core.len() || core[at] == '.') {
            lemma_bad_piece(rest, 0);
        } else {
            lemma_bad_piece(rest, at - 1);
        }
    } else {
        lemma_before_suffix(core, a);
        lemma_bad_piece(core, at);
    }
}

/// A version of at least three hyphen-separated pieces, with an optional `v` before it, is a Go
/// pseudo-version exactly where its last piece is a commit hash of 12 hexadecimal digits and the
/// piece before it a timestamp of 14 digits, with or without a leading `0.`.
pub proof fn law_shape_of_a_pseudo_version(
    v: Seq<char>,
    base: Seq<char>,
    middle: Seq<char>,
    commit: Seq<char>,
)
    requires
        version_prefix(v),
        v.len() == 0 ==> base.len() > 0 ==> base[0] != 'v' && base[0] != 'V',
        !middle.contains('-'),
        !commit.contains('-'),
    ensures
        go_pseudo_version(v + (base + seq!['-'] + (middle + seq!['-'] + commit))) <==> {
            &&& commit.len() == 12
            &&& forall|i: int| 0 <= i < 12 ==> ascii_hex_digit(#[trigger] commit[i])
            &&& {
                ||| middle.len() == 14 && all_digits(middle)
                ||| middle.len() == 16 && middle[0] == '0' && middle[1] == '.' && all_digits(
                    middle.skip(2),
                )
            }
        },
{
    let s = v + (base + seq!['-'] + (middle + seq!['-'] + commit));
    let rest = base + seq!['-'] + (middle + seq!['-'] + commit);
    if v.len() > 0 {
        assert(s.drop_first() =~= rest);
    } else {
        assert(s =~= rest);
    }
    assert(without_v(s) == rest);
    law_split_at_separator(base, '-', middle + seq!['-'] + commit);
    law_split_at_separator(middle, '-', commit);
    law_split_without_separator(middle, '-');
    law_split_without_separator(commit, '-');
    law_split_counts_separators(base, '-');
    let pieces = split_on(rest, '-');
    assert(pieces =~= split_on(base, '-') + seq![middle, commit]);
    assert(pieces.last() == commit);
    assert(pieces[pieces.len() - 2] == middle);
    if middle.len() == 14 && all_digits(middle) {
        assert(ascii_digit(middle[1]));
    }
    if middle.len() >= 2 && middle[0] == '0' && middle[1] == '.' {
        assert(!ascii_digit(middle[1]));
    }
}

/// A text with fewer than two hyphens is no Go pseudo-version.
pub proof fn law_other_text_is_no_pseudo_version(s: Seq<char>)
    requires
        s.filter(|c: char| c == '-').len() < 2,
    ensures
        !go_pseudo_version(s),
{
    let t = without_v(s);
    law_split_counts_separators(t, '-');
    law_split_counts_separators(s, '-');
    if t != s {
        law_split_without_separator(seq![s[0]], '-');
        assert(s =~= seq![s[0]] + t);
        lemma_hyphens_of_prefixed(s[0], t);
    }
}

proof fn lemma_hyphens_of_prefixed(c: char, t: Seq<char>)
    requires
        c != '-',
    ensures
        split_on(seq![c] + t, '-').len() == split_on(t, '-').len(),
    decreases t.len(),
{
    let s = seq![c] + t;
    if t.len() > 0 {
        assert(s.drop_last() =~= seq![c] + t.drop_last());
        lemma_hyphens_of_prefixed(c, t.drop_last());
        law_split_counts_separators(t.drop_last(), '-');
        law_split_counts_separators(s.drop_last(), '-');
    } else {
        assert(s.drop_last() =~= t);
        law_split_counts_separators(t, '-');
    }
}

proof fn lemma_decimal_is_a_component(n: nat)
    requires
        n <= u64::MAX,
    ensures
        decimal(n).len() > 0,
        all_digits(decimal(n)),
        ascii_digit(decimal(n)[0]),
        digits_value(decimal(n)) == n,
        version_component(decimal(n)),
        split_on(decimal(n), '.') == seq![decimal(n)],
{
    law_decimal_round_trips(n);
    assert(ascii_digit(decimal(n)[0]));
    assert forall|i: int| 0 <= i < decimal(n).len() implies decimal(n)[i] != '.' by {
        assert(ascii_digit(decimal(n)[i]));
    }
    law_split_without_separator(decimal(n), '.');
}

proof fn lemma_dotted_characters(a: Seq<char>, b: Seq<char>)
    requires
        all_digits(a),
        forall|i: int| 0 <= i < b.len() ==> ascii_digit(#[trigger] b[i]) || b[i] == '.',
    ensures
        ({
            let s = a + seq!['.'] + b;
            forall|i: int| 0 <= i < s.len() ==> ascii_digit(#[trigger] s[i]) || s[i] == '.'
        }),
{
    let s = a + seq!['.'] + b;
    assert forall|i: int| 0 <= i < s.len() implies ascii_digit(#[trigger] s[i]) || s[i] == '.' by {
        if i < a.len() {
            assert(ascii_digit(a[i]));
        } else if i > a.len() {
            assert(ascii_digit(b[i - a.len() - 1]) || b[i - a.len() - 1] == '.');
        }
    }
}

/// What stands before the first `-` or `+`.
proof fn lemma_before_suffix(core: Seq<char>, a: Seq<char>)
    requires
        forall|i: int| 0 <= i < core.len() ==> #[trigger] core[i] != '-' && core[i] != '+',
        a.len() > 0 ==> a[0] == '-' || a[0] == '+',
    ensures
        before_suffix(core + a) == core,
    decreases core.len(),
{
    let s = core + a;
    if core.len() > 0 {
        let rest = core.drop_first();
        assert(s.drop_first() =~= rest + a);
        assert(s[0] == core[0]);
        lemma_before_suffix(rest, a);
        assert(seq![core[0]] + rest =~= core);
    } else {
        assert(s =~= a);
    }
}

proof fn lemma_core_is_read(v: Seq<char>, core: Seq<char>, a: Seq<char>)
    requires
        version_prefix(v),
        version_suffix(a),
        core.len() > 0,
        ascii_digit(core[0]),
        forall|i: int| 0 <= i < core.len() ==> ascii_digit(#[trigger] core[i]) || core[i] == '.',
    ensures
        before_suffix(without_v(v + core + a)) == core,
        !go_pseudo_version(v + core + a),
{
    let s = v + core + a;
    if v.len() > 0 {
        assert(s.drop_first() =~= core + a);
    } else {
        assert(s =~= core + a);
        assert(s[0] == core[0]);
    }
    lemma_before_suffix(core, a);
    assert forall|i: int| 0 <= i < core.len() implies core[i] != '-' by {
        assert(ascii_digit(core[i]) || core[i] == '.');
    }
    if a.len() > 0 && a[0] == '-' {
        assert(core + a =~= core + seq!['-'] + a.drop_first());
        law_split_at_separator(core, '-', a.drop_first());
        law_split_without_separator(core, '-');
        law_split_without_separator(a.drop_first(), '-');
    } else {
        assert forall|i: int| 0 <= i < (core + a).len() implies (core + a)[i] != '-' by {
            if i > core.len() {
                assert(a.drop_first().contains(a.drop_first()[i - core.len() - 1]));
            }
        }
        law_split_without_separator(core + a, '-');
    }
}

/// A piece of a dotted text that holds something else than digits, or nothing.
proof fn lemma_bad_piece(core: Seq<char>, at: int)
    requires
        0 <= at <= core.len(),
        ({
            ||| at < core.len() && !ascii_digit(core[at]) && core[at] != '.'
            ||| (at == 0 || core[at - 1] == '.') && (at == core.len() || core[at] == '.')
        }),
    ensures
        exists|i: int|
            0 <= i < split_on(core, '.').len() && !version_component(
                #[trigger] split_on(core, '.')[i],
            ),
    decreases core.len(),
{
    if core.contains('.') {
        let dot = choose|dot: int| 0 <= dot < core.len() && core[dot] == '.';
        let a = core.take(dot);
        let b = core.skip(dot + 1);
        assert(core =~= a + seq!['.'] + b);
        law_split_at_separator(a, '.', b);
        let left = split_on(a, '.');
        let right = split_on(b, '.');
        if at <= dot {
            lemma_bad_piece(a, at);
            let i = choose|i: int| 0 <= i < left.len() && !version_component(#[trigger] left[i]);
            assert((left + right)[i] == left[i]);
        } else {
            lemma_bad_piece(b, at - dot - 1);
            let i = choose|i: int|
                0 <= i < right.len() && !version_component(#[trigger] right[i]);
            assert((left + right)[left.len() + i] == right[i]);
        }
    } else {
        law_split_without_separator(core, '.');
        let pieces = split_on(core, '.');
        assert(pieces[0] == core);
        if at < core.len() && core[at] != '.' && !ascii_digit(core[at]) {
            if all_digits(core) {
                assert(ascii_digit(core[at]));
            }
        } else {
            if at > 0 {
                assert(core.contains(core[at - 1]));
            }
            if at < core.len() {
                assert(core.contains(core[at]));
            }
            assert(core.len() == 0);
        }
        assert(!version_component(pieces[0]));
    }
}

} // verus!
