//! `owner/repo` identities and tag names.

use crate::edit::classify::without_v;
use crate::error::DepsError;
use crate::text::{
    ascii_alphanumeric, chars_of, is_ascii_alphanumeric, law_split_at_separator,
    law_split_counts_separators, law_split_without_separator, split, split_on, texts,
};
use vstd::prelude::*;

verus! {

/// Whether a path segment would be resolved away: `.` or `..`.
pub open spec fn dot_segment(s: Seq<char>) -> bool {
    s == seq!['.'] || s == seq!['.', '.']
}

/// Whether a path segment would be resolved away.
pub fn is_dot_segment(s: &[char]) -> (r: bool)
    ensures
        r == dot_segment(s@),
{
    if s.len() == 1 && s[0] == '.' {
        proof {
            assert(s@ =~= seq!['.']);
        }
        return true;
    }
    if s.len() == 2 && s[0] == '.' && s[1] == '.' {
        proof {
            assert(s@ =~= seq!['.', '.']);
        }
        return true;
    }
    proof {
        if s@ == seq!['.'] {
            assert(s@[0] == '.');
        }
        if s@ == seq!['.', '.'] {
            assert(s@[0] == '.' && s@[1] == '.');
        }
    }
    false
}

/// A character of an owner or repository name.
pub open spec fn identity_char(c: char) -> bool {
    ascii_alphanumeric(c) || c == '.' || c == '_' || c == '-'
}

/// Whether `s` can be an owner or a repository name.
pub open spec fn identity_half(s: Seq<char>) -> bool {
    &&& s.len() > 0
    &&& forall|i: int| 0 <= i < s.len() ==> identity_char(#[trigger] s[i])
    &&& !dot_segment(s)
}

/// Whether `name` has the shape `owner/repo`.
pub open spec fn github_identity(name: Seq<char>) -> bool {
    let halves = split_on(name, '/');
    halves.len() == 2 && identity_half(halves[0]) && identity_half(halves[1])
}

/// Whether every character of `s` can stand in a name of identity characters.
pub(crate) fn has_identity_chars(s: &[char]) -> (r: bool)
    ensures
        r == (forall|i: int| 0 <= i < s@.len() ==> identity_char(#[trigger] s@[i])),
{
    let mut i: usize = 0;
    while i < s.len()
        invariant
            i <= s@.len(),
            forall|k: int| 0 <= k < i ==> identity_char(#[trigger] s@[k]),
        decreases s@.len() - i,
    {
        let c = s[i];
        if !(is_ascii_alphanumeric(c) || c == '.' || c == '_' || c == '-') {
            proof {
                assert(!identity_char(s@[i as int]));
            }
            return false;
        }
        i += 1;
    }
    true
}

fn is_identity_half(s: &[char]) -> (r: bool)
    ensures
        r == identity_half(s@),
{
    s.len() > 0 && has_identity_chars(s) && !is_dot_segment(s)
}

/// Whether `name` matches the `owner/repo` GitHub identifier shape: two names of letters,
/// digits, `.`, `_` and `-`, neither of them exactly `.` or `..`.
#[must_use]
pub fn is_valid_github_identity(name: &str) -> (r: bool)
    ensures
        r == github_identity(name@),
{
    let chars = chars_of(name);
    let halves = split(chars.as_slice(), '/');
    if halves.len() != 2 {
        return false;
    }
    proof {
        assert(texts(halves@)[0] == halves@[0]@);
        assert(texts(halves@)[1] == halves@[1]@);
    }
    is_identity_half(halves[0].as_slice()) && is_identity_half(halves[1].as_slice())
}

/// Validates that `name` is a valid `owner/repo` GitHub identifier before it is put into a
/// request path, where a `..` would retarget the request.
///
/// # Errors
///
/// [`DepsError::InvalidUri`] when `name` is not a valid identifier.
pub fn validate_owner_repo(name: &str) -> (r: Result<(), DepsError>)
    ensures
        match r {
            Ok(_) => github_identity(name@),
            Err(e) => !github_identity(name@) && (e matches DepsError::InvalidUri(text) && text@
                == "invalid owner/repo format: '"@ + name@ + "'"@),
        },
{
    if is_valid_github_identity(name) {
        return Ok(());
    }
    let mut text = "invalid owner/repo format: '".to_owned();
    text.append(name);
    text.append("'");
    Err(DepsError::InvalidUri(text))
}

/// Strips a leading `v`/`V` tag prefix.
///
/// Shared by everything that joins a release's tag against a version: both cases are real tag
/// conventions (`v2.62.0`, `V2.62.0`).
#[must_use]
pub fn normalize_tag(name: &str) -> (r: &str)
    ensures
        r@ == without_v(name@),
{
    let chars = chars_of(name);
    if chars.len() > 0 && (chars[0] == 'v' || chars[0] == 'V') {
        let r = name.substring_char(1, chars.len());
        proof {
            assert(r@ =~= name@.drop_first());
        }
        r
    } else {
        name
    }
}

// ---------------------------------------------------------------------------
// Laws
// ---------------------------------------------------------------------------

/// The segments of a valid identity never retarget a request path: neither is empty, `.` or
/// `..`, and neither holds a character with a meaning in a URL.
pub proof fn law_identity_cannot_retarget_a_path(name: Seq<char>, half: int)
    requires
        github_identity(name),
        half == 0 || half == 1,
    ensures
        ({
            let s = split_on(name, '/')[half];
            &&& s.len() > 0
            &&& !dot_segment(s)
            &&& !s.contains('/') && !s.contains('?') && !s.contains('#')
            &&& !s.contains('%') && !s.contains(':') && !s.contains('@')
        }),
{
    let s = split_on(name, '/')[half];
    assert forall|i: int| 0 <= i < s.len() implies identity_char(#[trigger] s[i]) by {
    }
}

/// An identity is an owner and a repository with one slash between them, each of them a name on
/// its own.
pub proof fn law_identity_joins_owner_and_repository(
    owner: Seq<char>,
    repo: Seq<char>,
    more: Seq<char>,
)
    requires
        !owner.contains('/') && !repo.contains('/'),
    ensures
        github_identity(owner + seq!['/'] + repo) <==> identity_half(owner) && identity_half(repo),
        !github_identity(owner),
        !github_identity(owner + seq!['/'] + (repo + seq!['/'] + more)),
{
    law_split_without_separator(owner, '/');
    law_split_without_separator(repo, '/');
    law_split_at_separator(owner, '/', repo);
    law_split_at_separator(repo, '/', more);
    law_split_at_separator(owner, '/', repo + seq!['/'] + more);
    law_split_counts_separators(more, '/');
    let halves = split_on(owner + seq!['/'] + repo, '/');
    assert(halves =~= seq![owner, repo]);
    assert(halves[0] == owner && halves[1] == repo);
}

/// A name is made of letters, digits, dots, underscores and hyphens; `.` and `..`, which a path
/// would resolve away, are none.
pub proof fn law_characters_of_a_name(s: Seq<char>)
    ensures
        identity_half(s) <==> s.len() > 0 && s != seq!['.'] && s != seq!['.', '.'] && forall|i: int|
            0 <= i < s.len() ==> (ascii_alphanumeric(#[trigger] s[i]) || s[i] == '.' || s[i] == '_'
                || s[i] == '-'),
{
    if forall|i: int|
        0 <= i < s.len() ==> (ascii_alphanumeric(#[trigger] s[i]) || s[i] == '.' || s[i] == '_'
            || s[i] == '-') {
        assert forall|i: int| 0 <= i < s.len() implies identity_char(#[trigger] s[i]) by {
            assert(ascii_alphanumeric(s[i]) || s[i] == '.' || s[i] == '_' || s[i] == '-');
        }
    }
}

/// A tag loses one leading `v`, in either case, and nothing else.
pub proof fn law_tags_lose_one_v(name: Seq<char>)
    ensures
        without_v(seq!['v'] + name) == name,
        without_v(seq!['V'] + name) == name,
        name.len() == 0 || name[0] != 'v' && name[0] != 'V' ==> without_v(name) == name,
{
    assert((seq!['v'] + name).drop_first() =~= name);
    assert((seq!['V'] + name).drop_first() =~= name);
}

} // verus!
