//! What of a request URL may reach a log line or a message.

use crate::text::{chars_of, is_at, occurs_at, string_of};
use vstd::prelude::*;

verus! {

/// The part of `s` before its query string or fragment.
pub open spec fn before_query(s: Seq<char>) -> Seq<char>
    decreases s.len(),
{
    if s.len() == 0 || s[0] == '?' || s[0] == '#' {
        Seq::empty()
    } else {
        seq![s[0]] + before_query(s.drop_first())
    }
}

/// The text between a URL's scheme and its authority.
pub open spec fn scheme_separator() -> Seq<char> {
    seq![':', '/', '/']
}

/// Where the authority of `s` begins, searched from `from` on: behind the first `://`, or at
/// the start where there is none.
pub open spec fn authority_start(s: Seq<char>, from: int) -> int
    decreases s.len() - from,
{
    if from < 0 || from >= s.len() {
        0
    } else if occurs_at(s, scheme_separator(), from) {
        from + 3
    } else {
        authority_start(s, from + 1)
    }
}

/// Where the authority that begins `s` ends: before the first `/`.
pub open spec fn authority_len(s: Seq<char>) -> nat
    decreases s.len(),
{
    if s.len() == 0 || s[0] == '/' {
        0
    } else {
        1 + authority_len(s.drop_first())
    }
}

/// The length of the user information of an authority: what stands before its last `@`.
pub open spec fn userinfo_len(authority: Seq<char>) -> nat
    decreases authority.len(),
{
    if authority.len() == 0 {
        0
    } else if authority.last() == '@' {
        (authority.len() - 1) as nat
    } else {
        userinfo_len(authority.drop_last())
    }
}

/// `***`, which stands for user information.
pub open spec fn mask() -> Seq<char> {
    seq!['*', '*', '*']
}

/// `url` without its query string and fragment, and with its user information masked. A text
/// that holds none of these, such as a package name, stays as it is.
pub open spec fn redacted(url: Seq<char>) -> Seq<char> {
    let base = before_query(url);
    let a = authority_start(base, 0);
    let rest = base.skip(a);
    let k = userinfo_len(rest.take(authority_len(rest) as int)) as int;
    if k > 0 {
        base.take(a) + mask() + rest.skip(k)
    } else {
        base
    }
}

fn query_start(chars: &[char]) -> (n: usize)
    ensures
        n <= chars@.len(),
        chars@.take(n as int) == before_query(chars@),
{
    let mut n: usize = 0;
    proof {
        assert(chars@.skip(0) =~= chars@);
        assert(chars@.take(0) + before_query(chars@) =~= before_query(chars@));
    }
    while n < chars.len() && chars[n] != '?' && chars[n] != '#'
        invariant
            n <= chars@.len(),
            chars@.take(n as int) + before_query(chars@.skip(n as int)) == before_query(chars@),
        decreases chars@.len() - n,
    {
        proof {
            let rest = chars@.skip(n as int);
            assert(rest[0] == chars@[n as int]);
            assert(rest.drop_first() =~= chars@.skip(n + 1));
            assert(chars@.take(n as int) + (seq![rest[0]] + before_query(rest.drop_first()))
                =~= chars@.take(n + 1) + before_query(chars@.skip(n + 1)));
        }
        n += 1;
    }
    proof {
        let rest = chars@.skip(n as int);
        assert(before_query(rest) =~= Seq::<char>::empty());
        assert(chars@.take(n as int) + Seq::<char>::empty() =~= chars@.take(n as int));
    }
    n
}

fn find_authority(chars: &[char]) -> (a: usize)
    ensures
        a == authority_start(chars@, 0),
        a <= chars@.len(),
{
    let separator = vec![':', '/', '/'];
    let mut i: usize = 0;
    proof {
        assert(separator@ =~= scheme_separator());
    }
    while i < chars.len()
        invariant
            i <= chars@.len(),
            separator@ == scheme_separator(),
            authority_start(chars@, i as int) == authority_start(chars@, 0),
        decreases chars@.len() - i,
    {
        if is_at(chars, separator.as_slice(), i) {
            return i + 3;
        }
        i += 1;
    }
    0
}

fn find_authority_end(chars: &[char]) -> (n: usize)
    ensures
        n == authority_len(chars@),
        n <= chars@.len(),
{
    let mut n: usize = 0;
    proof {
        assert(chars@.skip(0) =~= chars@);
    }
    while n < chars.len() && chars[n] != '/'
        invariant
            n <= chars@.len(),
            n + authority_len(chars@.skip(n as int)) == authority_len(chars@),
        decreases chars@.len() - n,
    {
        proof {
            assert(chars@.skip(n as int)[0] == chars@[n as int]);
            assert(chars@.skip(n as int).drop_first() =~= chars@.skip(n + 1));
        }
        n += 1;
    }
    n
}

fn find_userinfo_end(chars: &[char]) -> (k: usize)
    ensures
        k == userinfo_len(chars@),
        k <= chars@.len(),
{
    let mut n: usize = chars.len();
    proof {
        assert(chars@.take(n as int) =~= chars@);
    }
    while n > 0
        invariant
            n <= chars@.len(),
            userinfo_len(chars@.take(n as int)) == userinfo_len(chars@),
        decreases n,
    {
        proof {
            assert(chars@.take(n as int).last() == chars@[n - 1]);
            assert(chars@.take(n as int).drop_last() =~= chars@.take(n - 1));
        }
        if chars[n - 1] == '@' {
            return n - 1;
        }
        n -= 1;
    }
    0
}

/// `url` as it may appear in a message or a log line: without query string and fragment, with
/// user information masked. A package name, also a scoped one such as `@types/node`, comes
/// through unchanged.
pub fn url_for_tracing(url: &str) -> (r: String)
    ensures
        r@ == redacted(url@),
{
    let chars = chars_of(url);
    let n: usize = query_start(chars.as_slice());
    let base = &chars.as_slice()[0..n];
    proof {
        assert(base@ =~= before_query(url@));
    }
    let a: usize = find_authority(base);
    let rest = &base[a..base.len()];
    proof {
        assert(rest@ =~= base@.skip(a as int));
    }
    let m: usize = find_authority_end(rest);
    let authority = &rest[0..m];
    proof {
        assert(authority@ =~= rest@.take(authority_len(rest@) as int));
    }
    let k: usize = find_userinfo_end(authority);
    if k > 0 {
        let mut out = string_of(&base[0..a]);
        proof {
            assert(out@ =~= base@.take(a as int));
        }
        out.append("***");
        let tail = string_of(&rest[k..rest.len()]);
        proof {
            reveal_strlit("***");
            assert("***"@ =~= mask());
            assert(tail@ =~= rest@.skip(k as int));
        }
        out.append(tail.as_str());
        out
    } else {
        string_of(base)
    }
}

// ---------------------------------------------------------------------------
// Laws
// ---------------------------------------------------------------------------

proof fn lemma_before_query_clean(s: Seq<char>)
    ensures
        forall|i: int|
            0 <= i < before_query(s).len() ==> #[trigger] before_query(s)[i] != '?' && before_query(
                s,
            )[i] != '#',
        before_query(s).len() <= s.len(),
    decreases s.len(),
{
    if s.len() > 0 && s[0] != '?' && s[0] != '#' {
        lemma_before_query_clean(s.drop_first());
    }
}

proof fn lemma_before_query_cut(a: Seq<char>, q: Seq<char>)
    requires
        q.len() > 0,
        q[0] == '?' || q[0] == '#',
    ensures
        before_query(a + q) == before_query(a),
    decreases a.len(),
{
    if a.len() == 0 {
        assert(a + q =~= q);
        assert(before_query(a) =~= before_query(q));
    } else {
        assert((a + q).drop_first() =~= a.drop_first() + q);
        lemma_before_query_cut(a.drop_first(), q);
    }
}

proof fn lemma_authority_bounds(base: Seq<char>, from: int)
    requires
        0 <= from,
    ensures
        0 <= authority_start(base, from) <= base.len(),
    decreases base.len() - from,
{
    if from < base.len() && !occurs_at(base, scheme_separator(), from) {
        lemma_authority_bounds(base, from + 1);
    }
}

proof fn lemma_userinfo_bound(s: Seq<char>)
    ensures
        userinfo_len(s) <= s.len(),
    decreases s.len(),
{
    if s.len() > 0 && s.last() != '@' {
        lemma_userinfo_bound(s.drop_last());
    }
}

/// A redacted URL holds neither a query string nor a fragment.
pub proof fn law_redacted_has_no_query(url: Seq<char>)
    ensures
        !redacted(url).contains('?'),
        !redacted(url).contains('#'),
{
    let base = before_query(url);
    lemma_before_query_clean(url);
    lemma_authority_bounds(base, 0);
    let a = authority_start(base, 0);
    let rest = base.skip(a);
    let k = userinfo_len(rest.take(authority_len(rest) as int)) as int;
    lemma_authority_len_bound(rest);
    lemma_userinfo_bound(rest.take(authority_len(rest) as int));
    let r = redacted(url);
    assert forall|i: int| 0 <= i < r.len() implies r[i] != '?' && r[i] != '#' by {
        if k > 0 {
            if i < a {
                assert(r[i] == base[i]);
            } else if i >= a + 3 {
                assert(r[i] == rest[k + (i - a - 3)]);
                assert(rest[k + (i - a - 3)] == base[a + k + (i - a - 3)]);
            }
        } else {
            assert(r[i] == base[i]);
        }
    }
}

proof fn lemma_authority_len_bound(s: Seq<char>)
    ensures
        authority_len(s) <= s.len(),
    decreases s.len(),
{
    if s.len() > 0 && s[0] != '/' {
        lemma_authority_len_bound(s.drop_first());
    }
}

/// What a query string or fragment holds never shows: two URLs that differ only there are
/// redacted to the same text.
pub proof fn law_query_never_shows(url: Seq<char>, query: Seq<char>)
    requires
        query.len() > 0,
        query[0] == '?' || query[0] == '#',
    ensures
        redacted(url + query) == redacted(url),
{
    lemma_before_query_cut(url, query);
}

/// A text without query string and fragment, and with no `@` but at its start, comes through
/// unchanged: a package name, scoped or not.
pub proof fn law_plain_text_is_unchanged(name: Seq<char>)
    requires
        !name.contains('?'),
        !name.contains('#'),
        forall|i: int| 0 < i < name.len() ==> name[i] != '@',
    ensures
        redacted(name) == name,
{
    lemma_before_query_whole(name);
    let a = authority_start(name, 0);
    lemma_authority_bounds(name, 0);
    let rest = name.skip(a);
    lemma_authority_len_bound(rest);
    let authority = rest.take(authority_len(rest) as int);
    assert forall|i: int| 0 < i < authority.len() implies authority[i] != '@' by {
        assert(authority[i] == name[a + i]);
    }
    lemma_no_userinfo(authority);
}

proof fn lemma_before_query_whole(s: Seq<char>)
    requires
        !s.contains('?'),
        !s.contains('#'),
    ensures
        before_query(s) == s,
    decreases s.len(),
{
    if s.len() > 0 {
        assert(s.contains(s[0]));
        let t = s.drop_first();
        assert forall|i: int| 0 <= i < t.len() implies t[i] != '?' && t[i] != '#' by {
            assert(s.contains(s[i + 1]));
        }
        lemma_before_query_whole(t);
        assert(seq![s[0]] + t =~= s);
    } else {
        assert(before_query(s) =~= s);
    }
}

proof fn lemma_no_userinfo(s: Seq<char>)
    requires
        forall|i: int| 0 < i < s.len() ==> s[i] != '@',
    ensures
        userinfo_len(s) == 0,
    decreases s.len(),
{
    if s.len() > 0 && s.last() != '@' {
        let t = s.drop_last();
        assert forall|i: int| 0 < i < t.len() implies t[i] != '@' by {
            assert(s[i] != '@');
        }
        lemma_no_userinfo(t);
    }
}

proof fn lemma_before_query_prefix(a: Seq<char>, b: Seq<char>)
    requires
        !a.contains('?'),
        !a.contains('#'),
    ensures
        before_query(a + b) == a + before_query(b),
    decreases a.len(),
{
    if a.len() == 0 {
        assert(a + b =~= b);
        assert(a + before_query(b) =~= before_query(b));
    } else {
        assert(a.contains(a[0]));
        let t = a.drop_first();
        assert forall|i: int| 0 <= i < t.len() implies t[i] != '?' && t[i] != '#' by {
            assert(a.contains(a[i + 1]));
        }
        lemma_before_query_prefix(t, b);
        assert((a + b).drop_first() =~= t + b);
        assert(seq![a[0]] + (t + before_query(b)) =~= a + before_query(b));
    }
}

proof fn lemma_authority_after_scheme(scheme: Seq<char>, rest: Seq<char>, from: int)
    requires
        !scheme.contains(':'),
        0 <= from <= scheme.len(),
    ensures
        authority_start(scheme + scheme_separator() + rest, from) == scheme.len() + 3,
    decreases scheme.len() - from,
{
    let s = scheme + scheme_separator() + rest;
    if from < scheme.len() {
        if occurs_at(s, scheme_separator(), from) {
            assert(s.subrange(from, from + 3)[0] == ':');
            assert(scheme.contains(scheme[from]));
        }
        lemma_authority_after_scheme(scheme, rest, from + 1);
    } else {
        assert(s.subrange(from, from + 3) =~= scheme_separator());
    }
}

proof fn lemma_authority_len_prefix(a: Seq<char>, b: Seq<char>)
    requires
        !a.contains('/'),
    ensures
        authority_len(a + b) == a.len() + authority_len(b),
    decreases a.len(),
{
    if a.len() == 0 {
        assert(a + b =~= b);
    } else {
        assert(a.contains(a[0]));
        let t = a.drop_first();
        assert forall|i: int| 0 <= i < t.len() implies t[i] != '/' by {
            assert(a.contains(a[i + 1]));
        }
        lemma_authority_len_prefix(t, b);
        assert((a + b).drop_first() =~= t + b);
    }
}

proof fn lemma_userinfo_before_host(u: Seq<char>, host: Seq<char>)
    requires
        !host.contains('@'),
    ensures
        userinfo_len(u.push('@') + host) == u.len(),
    decreases host.len(),
{
    let s = u.push('@') + host;
    if host.len() == 0 {
        assert(s =~= u.push('@'));
    } else {
        assert(host.contains(host.last()));
        let t = host.drop_last();
        assert forall|i: int| 0 <= i < t.len() implies t[i] != '@' by {
            assert(host.contains(host[i]));
        }
        lemma_userinfo_before_host(u, t);
        assert(s.drop_last() =~= u.push('@') + t);
    }
}

/// What the user information of a URL holds never shows: it is replaced by `***`.
pub proof fn law_userinfo_never_shows(scheme: Seq<char>, userinfo: Seq<char>, host: Seq<char>)
    requires
        !scheme.contains(':'),
        !scheme.contains('?'),
        !scheme.contains('#'),
        userinfo.len() > 0,
        !userinfo.contains('/'),
        !userinfo.contains('?'),
        !userinfo.contains('#'),
        !host.contains('@'),
    ensures
        redacted(scheme + scheme_separator() + userinfo.push('@') + host) == scheme
            + scheme_separator() + mask() + seq!['@'] + before_query(host),
{
    let head = scheme + scheme_separator();
    let user = userinfo.push('@');
    let url = head + user + host;
    let tail = before_query(host);
    assert forall|i: int| 0 <= i < (head + user).len() implies (head + user)[i] != '?' && (head
        + user)[i] != '#' by {
        if i < scheme.len() {
            assert(scheme.contains(scheme[i]));
        } else if i >= head.len() && i < head.len() + userinfo.len() {
            assert(userinfo.contains(userinfo[i - head.len()]));
        }
    }
    lemma_before_query_prefix(head + user, host);
    let base = before_query(url);
    assert(base =~= head + (user + tail));
    lemma_authority_after_scheme(scheme, user + tail, 0);
    let a = authority_start(base, 0);
    let rest = base.skip(a);
    assert(rest =~= user + tail);
    assert forall|i: int| 0 <= i < user.len() implies user[i] != '/' by {
        if i < userinfo.len() {
            assert(userinfo.contains(userinfo[i]));
        }
    }
    lemma_authority_len_prefix(user, tail);
    lemma_authority_len_bound(tail);
    let m = authority_len(tail) as int;
    assert(rest.take(authority_len(rest) as int) =~= user + tail.take(m));
    lemma_before_query_chars(host);
    assert forall|i: int| 0 <= i < m implies tail.take(m)[i] != '@' by {
        assert(host.contains(tail[i]));
    }
    lemma_userinfo_before_host(userinfo, tail.take(m));
    assert(rest.skip(userinfo.len() as int) =~= seq!['@'] + tail);
    assert(base.take(a) =~= head);
    assert(redacted(url) =~= head + mask() + seq!['@'] + tail);
}

proof fn lemma_before_query_chars(s: Seq<char>)
    ensures
        before_query(s).len() <= s.len(),
        forall|i: int| 0 <= i < before_query(s).len() ==> s.contains(#[trigger] before_query(s)[i]),
    decreases s.len(),
{
    if s.len() > 0 && s[0] != '?' && s[0] != '#' {
        let t = s.drop_first();
        lemma_before_query_chars(t);
        let q = before_query(s);
        assert forall|i: int| 0 <= i < q.len() implies s.contains(#[trigger] q[i]) by {
            if i == 0 {
                assert(s[0] == q[0]);
            } else {
                assert(t.contains(before_query(t)[i - 1]));
                let k = choose|k: int| 0 <= k < t.len() && t[k] == before_query(t)[i - 1];
                assert(s[k + 1] == q[i]);
            }
        }
    }
}

/// The query string and the fragment go, and what stands before them stays; user information is
/// shown as three asterisks.
pub proof fn law_what_redaction_cuts(s: Seq<char>, query: Seq<char>)
    requires
        !s.contains('?'),
        !s.contains('#'),
        query.len() > 0 ==> query[0] == '?' || query[0] == '#',
    ensures
        before_query(s + query) == s,
        mask() == seq!['*', '*', '*'],
        scheme_separator() == seq![':', '/', '/'],
    decreases s.len(),
{
    if s.len() > 0 {
        let rest = s.drop_first();
        assert(s.contains(s[0]));
        assert forall|i: int| 0 <= i < rest.len() implies rest[i] != '?' && rest[i] != '#' by {
            assert(s.contains(s[i + 1]));
        }
        law_what_redaction_cuts(rest, query);
        assert((s + query).drop_first() =~= rest + query);
        assert(seq![s[0]] + rest =~= s);
    } else {
        assert(s + query =~= query);
        assert(before_query(query) =~= s);
    }
}

/// A URL without user information comes through unchanged up to its query string, also where its
/// path holds an `@`.
pub proof fn law_url_without_userinfo_is_unchanged(
    scheme: Seq<char>,
    host: Seq<char>,
    path: Seq<char>,
    query: Seq<char>,
)
    requires
        !scheme.contains(':') && !scheme.contains('?') && !scheme.contains('#'),
        !host.contains('/') && !host.contains('@') && !host.contains('?') && !host.contains('#'),
        !path.contains('?') && !path.contains('#'),
        path.len() > 0 ==> path[0] == '/',
        query.len() > 0 ==> query[0] == '?' || query[0] == '#',
    ensures
        redacted(scheme + seq![':', '/', '/'] + (host + path) + query) == scheme + seq![
            ':',
            '/',
            '/',
        ] + (host + path),
{
    let base = scheme + scheme_separator() + (host + path);
    let n = scheme.len() as int;
    assert forall|i: int| 0 <= i < base.len() implies base[i] != '?' && base[i] != '#' by {
        if i < n {
            assert(scheme.contains(scheme[i]));
        } else if i >= n + 3 && i < n + 3 + host.len() {
            assert(host.contains(host[i - n - 3]));
        } else if i >= n + 3 + host.len() {
            assert(path.contains(path[i - n - 3 - host.len()]));
        }
    }
    law_what_redaction_cuts(base, query);
    lemma_authority_after_scheme(scheme, host + path, 0);
    let rest = base.skip(authority_start(base, 0));
    assert(rest =~= host + path);
    assert forall|i: int| 0 <= i < host.len() implies host[i] != '/' by {
        assert(host.contains(host[i]));
    }
    lemma_authority_len_prefix(host, path);
    assert(authority_len(path) == 0);
    assert(rest.take(authority_len(rest) as int) =~= host);
    assert forall|i: int| 0 < i < host.len() implies host[i] != '@' by {
        assert(host.contains(host[i]));
    }
    lemma_no_userinfo(host);
}

} // verus!
