//! Service discovery: a pure transformation from accumulated service-stack
//! output to a discovered-services record.
//!
//! Three patterns are extracted from the text:
//! - `Now listening on:` followed by whitespace and a URL sets the dashboard;
//! - `Login to the dashboard at` followed by whitespace and a URL overrides it;
//! - `"<name>" is listening on <url>` adds one service entry per match,
//!   scanning left to right without overlap, a later match of the same name
//!   winning.
//!
//! A URL is a maximal run of non-whitespace characters beginning with
//! `http://` or `https://` and extending past the scheme. A service name
//! starts with an ASCII letter followed by at least one more word, dot or
//! dash character.

use vstd::prelude::*;

verus! {

use crate::models::{opt_str, pairs_map, DiscoveredServices};
use crate::text::{chars_of, is_match_at, match_at, string_from_chars, sub_chars};

/// Whitespace, as the patterns skip it.
pub open spec fn is_ws(c: char) -> bool {
    c == ' ' || c == '\t' || c == '\n' || c == '\r' || c == '\u{0b}' || c == '\u{0c}'
}

/// An ASCII letter.
pub open spec fn is_alpha(c: char) -> bool {
    ('A' <= c && c <= 'Z') || ('a' <= c && c <= 'z')
}

/// A character a service name may contain after its first letter.
pub open spec fn is_name_char(c: char) -> bool {
    is_alpha(c) || ('0' <= c && c <= '9') || c == '_' || c == '.' || c == '-'
}

/// The end of the maximal whitespace run starting at `j`.
pub open spec fn ws_end(s: Seq<char>, j: int) -> int
    decreases s.len() - j,
{
    if 0 <= j < s.len() && is_ws(s[j]) {
        ws_end(s, j + 1)
    } else {
        j
    }
}

/// The end of the maximal non-whitespace run starting at `j`.
pub open spec fn nonws_end(s: Seq<char>, j: int) -> int
    decreases s.len() - j,
{
    if 0 <= j < s.len() && !is_ws(s[j]) {
        nonws_end(s, j + 1)
    } else {
        j
    }
}

/// The end of the maximal service-name-character run starting at `j`.
pub open spec fn name_end(s: Seq<char>, j: int) -> int
    decreases s.len() - j,
{
    if 0 <= j < s.len() && is_name_char(s[j]) {
        name_end(s, j + 1)
    } else {
        j
    }
}

/// A URL token stands at `j`: a maximal non-whitespace run that starts with
/// a scheme and extends past it.
pub open spec fn url_ok(s: Seq<char>, j: int) -> bool {
    ||| (match_at(s, "https://"@, j) && nonws_end(s, j) > j + 8)
    ||| (match_at(s, "http://"@, j) && nonws_end(s, j) > j + 7)
}

/// The URL token at `j`.
pub open spec fn url_of(s: Seq<char>, j: int) -> Seq<char> {
    s.subrange(j, nonws_end(s, j))
}

/// The literal at `i`, then at least one whitespace character, then a URL:
/// the URL and the position past it, or nothing.
pub open spec fn lit_url_at(s: Seq<char>, lit: Seq<char>, i: int) -> Option<(Seq<char>, int)> {
    let a = i + lit.len() as int;
    let w = ws_end(s, a);
    if match_at(s, lit, i) && w > a && url_ok(s, w) {
        Some((url_of(s, w), nonws_end(s, w)))
    } else {
        None
    }
}

/// The URL of the first match of the literal pattern at or after `i`.
pub open spec fn lit_url_from(s: Seq<char>, lit: Seq<char>, i: int) -> Option<Seq<char>>
    decreases s.len() - i,
{
    if i >= s.len() || i < 0 {
        None
    } else {
        match lit_url_at(s, lit, i) {
            Some(t) => Some(t.0),
            None => lit_url_from(s, lit, i + 1),
        }
    }
}

/// A service match at `i`: the quoted name, the URL, and the position past
/// the match, or nothing.
pub open spec fn svc_at(s: Seq<char>, i: int) -> Option<(Seq<char>, Seq<char>, int)> {
    let j = i + 1;
    let k = name_end(s, j);
    let w1 = ws_end(s, k + 1);
    let l2 = w1 + 15;
    let w2 = ws_end(s, l2);
    let e = nonws_end(s, w2);
    if 0 <= i && i < s.len() && s[i] == '"' && j < s.len() && is_alpha(s[j]) && k >= j + 2 && k
        < s.len() && s[k] == '"' && w1 > k + 1 && match_at(s, "is listening on"@, w1) && w2 > l2
        && url_ok(s, w2) && e <= s.len() {
        Some((s.subrange(j, k), url_of(s, w2), e))
    } else {
        None
    }
}

/// All service matches at or after `i`, in scan order.
pub open spec fn svc_matches_from(s: Seq<char>, i: int) -> Seq<(Seq<char>, Seq<char>)>
    decreases s.len() - i,
{
    if i >= s.len() || i < 0 {
        Seq::empty()
    } else {
        match svc_at(s, i) {
            Some(t) => seq![(t.0, t.1)] + svc_matches_from(s, t.2),
            None => svc_matches_from(s, i + 1),
        }
    }
}

/// The dashboard URL of the text: the first login match, else the first
/// plain listening match.
pub open spec fn dashboard_of(s: Seq<char>) -> Option<Seq<char>> {
    match lit_url_from(s, "Login to the dashboard at"@, 0) {
        Some(u) => Some(u),
        None => lit_url_from(s, "Now listening on:"@, 0),
    }
}

/// A service-name character is never whitespace.
proof fn lemma_name_char_not_ws(c: char)
    requires
        is_name_char(c),
    ensures
        !is_ws(c),
{
}

/// In a text whose last character is whitespace, a non-whitespace run that
/// starts inside the text ends inside it, and appending more text does not
/// change it.
proof fn lemma_nonws_end_stable(s1: Seq<char>, s2: Seq<char>, j: int)
    requires
        s1.len() > 0,
        is_ws(s1.last()),
        0 <= j < s1.len(),
    ensures
        nonws_end(s1 + s2, j) == nonws_end(s1, j),
        nonws_end(s1, j) < s1.len(),
    decreases s1.len() - j,
{
    let s = s1 + s2;
    assert(s[j] == s1[j]);
    if !is_ws(s1[j]) {
        assert(j < s1.len() - 1);
        lemma_nonws_end_stable(s1, s2, j + 1);
    }
}

/// The same, for a run of service-name characters.
proof fn lemma_name_end_stable(s1: Seq<char>, s2: Seq<char>, j: int)
    requires
        s1.len() > 0,
        is_ws(s1.last()),
        0 <= j < s1.len(),
    ensures
        name_end(s1 + s2, j) == name_end(s1, j),
        name_end(s1, j) < s1.len(),
    decreases s1.len() - j,
{
    let s = s1 + s2;
    assert(s[j] == s1[j]);
    if is_name_char(s1[j]) {
        lemma_name_char_not_ws(s1[j]);
        assert(j < s1.len() - 1);
        lemma_name_end_stable(s1, s2, j + 1);
    }
}

/// A whitespace run that ends inside the text is unchanged by appending.
proof fn lemma_ws_end_stable(s1: Seq<char>, s2: Seq<char>, j: int)
    requires
        0 <= j <= s1.len(),
        ws_end(s1, j) < s1.len(),
    ensures
        ws_end(s1 + s2, j) == ws_end(s1, j),
    decreases s1.len() - j,
{
    let s = s1 + s2;
    if j < s1.len() {
        assert(s[j] == s1[j]);
        if is_ws(s1[j]) {
            lemma_ws_end_stable(s1, s2, j + 1);
        }
    }
}

/// A pattern match inside the text is unchanged by appending.
proof fn lemma_match_at_stable(s1: Seq<char>, s2: Seq<char>, lit: Seq<char>, i: int)
    requires
        match_at(s1, lit, i),
    ensures
        match_at(s1 + s2, lit, i),
{
    let s = s1 + s2;
    assert((s1 + s2).subrange(i, i + lit.len() as int) =~= s1.subrange(i, i + lit.len() as int));
}

/// A complete service match in a whitespace-terminated text survives an
/// appended continuation unchanged.
proof fn lemma_svc_at_stable(s1: Seq<char>, s2: Seq<char>, i: int)
    requires
        s1.len() > 0,
        is_ws(s1.last()),
        0 <= i,
        svc_at(s1, i) is Some,
    ensures
        svc_at(s1 + s2, i) == svc_at(s1, i),
        (svc_at(s1, i)->0).2 < s1.len(),
        i < (svc_at(s1, i)->0).2,
{
    let s = s1 + s2;
    let j = i + 1;
    let k = name_end(s1, j);
    lemma_name_end_stable(s1, s2, j);
    let w1 = ws_end(s1, k + 1);
    assert(match_at(s1, "is listening on"@, w1));
    assert(w1 < s1.len()) by {
        reveal_strlit("is listening on");
    }
    lemma_ws_end_stable(s1, s2, k + 1);
    let l2 = w1 + 15;
    let w2 = ws_end(s1, l2);
    assert(w2 < s1.len()) by {
        if match_at(s1, "https://"@, w2) {
            reveal_strlit("https://");
        } else {
            reveal_strlit("http://");
        }
    }
    lemma_ws_end_stable(s1, s2, l2);
    lemma_nonws_end_stable(s1, s2, w2);
    assert(s[i] == s1[i]);
    assert(s[j] == s1[j]);
    assert(s[k] == s1[k]);
    if match_at(s1, "https://"@, w2) {
        lemma_match_at_stable(s1, s2, "https://"@, w2);
    }
    if match_at(s1, "http://"@, w2) {
        lemma_match_at_stable(s1, s2, "http://"@, w2);
    }
    lemma_match_at_stable(s1, s2, "is listening on"@, w1);
    assert(s1.subrange(j, k) =~= s.subrange(j, k));
    assert(s1.subrange(w2, nonws_end(s1, w2)) =~= s.subrange(w2, nonws_end(s, w2)));
    assert(svc_at(s, i) == svc_at(s1, i));
}

/// The service matches of a whitespace-terminated text stay in place, in
/// order, when more text arrives; the appended text can only add matches
/// after them.
proof fn lemma_svc_scan_extends(s1: Seq<char>, s2: Seq<char>, i: int)
    requires
        s1.len() > 0,
        is_ws(s1.last()),
        0 <= i,
        forall|q: int|
            0 <= q < s1.len() ==> (svc_at(s1 + s2, q) is Some ==> (#[trigger] svc_at(
                s1,
                q,
            )) is Some),
    ensures
        exists|rest: Seq<(Seq<char>, Seq<char>)>|
            svc_matches_from(s1 + s2, i) == #[trigger] (svc_matches_from(s1, i) + rest),
    decreases s1.len() - i,
{
    let s = s1 + s2;
    if i >= s1.len() {
        let rest = svc_matches_from(s, i);
        assert(svc_matches_from(s1, i) == Seq::<(Seq<char>, Seq<char>)>::empty());
        assert(svc_matches_from(s, i) =~= svc_matches_from(s1, i) + rest);
    } else {
        match svc_at(s1, i) {
            Some(t) => {
                lemma_svc_at_stable(s1, s2, i);
                lemma_svc_scan_extends(s1, s2, t.2);
                let rest = choose|rest: Seq<(Seq<char>, Seq<char>)>|
                    svc_matches_from(s, t.2) == #[trigger] (svc_matches_from(s1, t.2) + rest);
                assert(svc_matches_from(s, i) == seq![(t.0, t.1)] + (svc_matches_from(s1, t.2)
                    + rest));
                assert(seq![(t.0, t.1)] + (svc_matches_from(s1, t.2) + rest) =~= (seq![
                    (t.0, t.1),
                ] + svc_matches_from(s1, t.2)) + rest);
                assert(svc_matches_from(s, i) == svc_matches_from(s1, i) + rest);
            },
            None => {
                assert(svc_at(s, i) is None);
                lemma_svc_scan_extends(s1, s2, i + 1);
                let rest = choose|rest: Seq<(Seq<char>, Seq<char>)>|
                    svc_matches_from(s, i + 1) == #[trigger] (svc_matches_from(s1, i + 1) + rest);
                assert(svc_matches_from(s, i) == svc_matches_from(s1, i) + rest);
            },
        }
    }
}

/// Keys of a pair list survive appending more pairs, and their values
/// survive when the appended pairs use other keys.
proof fn lemma_pairs_map_extends(l1: Seq<(Seq<char>, Seq<char>)>, l2: Seq<(Seq<char>, Seq<char>)>)
    ensures
        forall|k: Seq<char>|
            pairs_map(l1).contains_key(k) ==> #[trigger] pairs_map(l1 + l2).contains_key(k),
        forall|k: Seq<char>|
            (pairs_map(l1).contains_key(k) && (forall|j: int|
                0 <= j < l2.len() ==> (#[trigger] l2[j]).0 != k)) ==> #[trigger] pairs_map(
                l1 + l2,
            )[k] == pairs_map(l1)[k],
    decreases l2.len(),
{
    if l2.len() == 0 {
        assert(l1 + l2 =~= l1);
    } else {
        lemma_pairs_map_extends(l1, l2.drop_last());
        assert((l1 + l2).drop_last() =~= l1 + l2.drop_last());
        assert((l1 + l2).last() == l2.last());
        assert(pairs_map(l1 + l2) == pairs_map(l1 + l2.drop_last()).insert(
            l2.last().0,
            l2.last().1,
        ));
        assert forall|k: Seq<char>| pairs_map(l1).contains_key(k) implies #[trigger] pairs_map(
            l1 + l2,
        ).contains_key(k) by {
            assert(pairs_map(l1 + l2.drop_last()).contains_key(k));
        }
        assert forall|k: Seq<char>|
            (pairs_map(l1).contains_key(k) && (forall|j: int|
                0 <= j < l2.len() ==> (#[trigger] l2[j]).0 != k)) implies #[trigger] pairs_map(
            l1 + l2,
        )[k] == pairs_map(l1)[k] by {
            assert(forall|j: int|
                0 <= j < l2.drop_last().len() ==> (#[trigger] l2.drop_last()[j]).0 != k) by {
                assert(forall|j: int|
                    0 <= j < l2.drop_last().len() ==> l2.drop_last()[j] == l2[j]);
            }
            assert(pairs_map(l1 + l2.drop_last())[k] == pairs_map(l1)[k]);
            assert(l2.last().0 != k) by {
                assert(l2[l2.len() - 1] == l2.last());
            }
        }
    }
}

/// A complete literal-pattern match in a whitespace-terminated text
/// survives an appended continuation unchanged.
proof fn lemma_lit_url_at_stable(s1: Seq<char>, s2: Seq<char>, lit: Seq<char>, i: int)
    requires
        s1.len() > 0,
        is_ws(s1.last()),
        0 <= i,
        lit.len() > 0,
        lit_url_at(s1, lit, i) is Some,
    ensures
        lit_url_at(s1 + s2, lit, i) == lit_url_at(s1, lit, i),
{
    let s = s1 + s2;
    let a = i + lit.len() as int;
    let w = ws_end(s1, a);
    assert(url_ok(s1, w));
    assert(w < s1.len()) by {
        if match_at(s1, "https://"@, w) {
            reveal_strlit("https://");
        } else {
            reveal_strlit("http://");
        }
    }
    assert(a <= s1.len()) by {
        assert(match_at(s1, lit, i));
    }
    lemma_ws_end_stable(s1, s2, a);
    lemma_nonws_end_stable(s1, s2, w);
    lemma_match_at_stable(s1, s2, lit, i);
    if match_at(s1, "https://"@, w) {
        lemma_match_at_stable(s1, s2, "https://"@, w);
    }
    if match_at(s1, "http://"@, w) {
        lemma_match_at_stable(s1, s2, "http://"@, w);
    }
    assert(s1.subrange(w, nonws_end(s1, w)) =~= s.subrange(w, nonws_end(s, w)));
    assert(lit_url_at(s, lit, i) == lit_url_at(s1, lit, i));
}

/// The first match of a literal pattern survives appending, provided no
/// match of that pattern spans the append boundary.
proof fn lemma_lit_url_from_stable(s1: Seq<char>, s2: Seq<char>, lit: Seq<char>, i: int)
    requires
        s1.len() > 0,
        is_ws(s1.last()),
        0 <= i,
        lit.len() > 0,
        forall|q: int|
            0 <= q < s1.len() ==> (lit_url_at(s1 + s2, lit, q) is Some ==> (
            #[trigger] lit_url_at(s1, lit, q)) is Some),
    ensures
        lit_url_from(s1, lit, i) is Some ==> lit_url_from(s1 + s2, lit, i) == lit_url_from(
            s1,
            lit,
            i,
        ),
    decreases s1.len() - i,
{
    let s = s1 + s2;
    if i >= s1.len() {
    } else {
        match lit_url_at(s1, lit, i) {
            Some(t) => {
                lemma_lit_url_at_stable(s1, s2, lit, i);
            },
            None => {
                assert(lit_url_at(s, lit, i) is None);
                lemma_lit_url_from_stable(s1, s2, lit, i + 1);
            },
        }
    }
}

/// Discovery only grows along a stream: on a log prefix that ends at a
/// line break, every service already discovered keeps its key when more
/// output arrives, and keeps its URL unless a later match reuses its name;
/// a dashboard URL never disappears, and one found through the login
/// pattern never changes. The preconditions rule out a match that spans
/// the append boundary, which is where a longer prefix can rewrite a
/// token it had already cut short.
pub proof fn lemma_discovery_monotonic(s1: Seq<char>, s2: Seq<char>)
    requires
        s1.len() > 0,
        is_ws(s1.last()),
        forall|q: int|
            0 <= q < s1.len() ==> (svc_at(s1 + s2, q) is Some ==> (#[trigger] svc_at(
                s1,
                q,
            )) is Some),
        forall|q: int|
            0 <= q < s1.len() ==> (lit_url_at(s1 + s2, "Login to the dashboard at"@, q) is Some
                ==> (#[trigger] lit_url_at(s1, "Login to the dashboard at"@, q)) is Some),
        forall|q: int|
            0 <= q < s1.len() ==> (lit_url_at(s1 + s2, "Now listening on:"@, q) is Some ==> (
            #[trigger] lit_url_at(s1, "Now listening on:"@, q)) is Some),
    ensures
        exists|rest: Seq<(Seq<char>, Seq<char>)>|
            #![trigger svc_matches_from(s1, 0) + rest]
            {
                &&& svc_matches_from(s1 + s2, 0) == svc_matches_from(s1, 0) + rest
                &&& forall|k: Seq<char>|
                    pairs_map(svc_matches_from(s1, 0)).contains_key(k)
                        ==> #[trigger] pairs_map(svc_matches_from(s1 + s2, 0)).contains_key(k)
                &&& forall|k: Seq<char>|
                    (pairs_map(svc_matches_from(s1, 0)).contains_key(k) && (forall|j: int|
                        0 <= j < rest.len() ==> (#[trigger] rest[j]).0 != k)) ==> pairs_map(
                        svc_matches_from(s1 + s2, 0),
                    )[k] == pairs_map(svc_matches_from(s1, 0))[k]
            },
        dashboard_of(s1) is Some ==> dashboard_of(s1 + s2) is Some,
        lit_url_from(s1, "Login to the dashboard at"@, 0) is Some ==> dashboard_of(s1 + s2)
            == dashboard_of(s1),
        lit_url_from(s1, "Now listening on:"@, 0) matches Some(u) ==> lit_url_from(
            s1 + s2,
            "Now listening on:"@,
            0,
        ) == Some(u),
{
    let s = s1 + s2;
    reveal_strlit("Login to the dashboard at");
    reveal_strlit("Now listening on:");
    lemma_svc_scan_extends(s1, s2, 0);
    let rest = choose|rest: Seq<(Seq<char>, Seq<char>)>|
        svc_matches_from(s, 0) == #[trigger] (svc_matches_from(s1, 0) + rest);
    lemma_pairs_map_extends(svc_matches_from(s1, 0), rest);
    assert(svc_matches_from(s, 0) == svc_matches_from(s1, 0) + rest && (forall|k: Seq<char>|
        pairs_map(svc_matches_from(s1, 0)).contains_key(k) ==> #[trigger] pairs_map(
            svc_matches_from(s, 0),
        ).contains_key(k)) && (forall|k: Seq<char>|
        (pairs_map(svc_matches_from(s1, 0)).contains_key(k) && (forall|j: int|
            0 <= j < rest.len() ==> (#[trigger] rest[j]).0 != k)) ==> pairs_map(
            svc_matches_from(s, 0),
        )[k] == pairs_map(svc_matches_from(s1, 0))[k]));
    lemma_lit_url_from_stable(s1, s2, "Login to the dashboard at"@, 0);
    lemma_lit_url_from_stable(s1, s2, "Now listening on:"@, 0);
}

/// The end of the maximal whitespace run starting at `j`, computed.
fn ws_end_exec(v: &Vec<char>, j: usize) -> (r: usize)
    requires
        j <= v@.len(),
    ensures
        r == ws_end(v@, j as int),
        j <= r <= v@.len(),
{
    let n = v.len();
    let mut i: usize = j;
    while i < n && is_ws_exec(v[i])
        invariant
            j <= i <= n,
            n == v@.len(),
            ws_end(v@, j as int) == ws_end(v@, i as int),
        decreases n - i,
    {
        i += 1;
    }
    i
}

/// The end of the maximal non-whitespace run starting at `j`, computed.
fn nonws_end_exec(v: &Vec<char>, j: usize) -> (r: usize)
    requires
        j <= v@.len(),
    ensures
        r == nonws_end(v@, j as int),
        j <= r <= v@.len(),
{
    let n = v.len();
    let mut i: usize = j;
    while i < n && !is_ws_exec(v[i])
        invariant
            j <= i <= n,
            n == v@.len(),
            nonws_end(v@, j as int) == nonws_end(v@, i as int),
        decreases n - i,
    {
        i += 1;
    }
    i
}

/// The end of the maximal name-character run starting at `j`, computed.
fn name_end_exec(v: &Vec<char>, j: usize) -> (r: usize)
    requires
        j <= v@.len(),
    ensures
        r == name_end(v@, j as int),
        j <= r <= v@.len(),
{
    let n = v.len();
    let mut i: usize = j;
    while i < n && is_name_char_exec(v[i])
        invariant
            j <= i <= n,
            n == v@.len(),
            name_end(v@, j as int) == name_end(v@, i as int),
        decreases n - i,
    {
        i += 1;
    }
    i
}

/// Whether the character counts as whitespace here.
fn is_ws_exec(c: char) -> (r: bool)
    ensures
        r == is_ws(c),
{
    c == ' ' || c == '\t' || c == '\n' || c == '\r' || c == '\u{0b}' || c == '\u{0c}'
}

/// Whether the character is an ASCII letter.
fn is_alpha_exec(c: char) -> (r: bool)
    ensures
        r == is_alpha(c),
{
    (c >= 'A' && c <= 'Z') || (c >= 'a' && c <= 'z')
}

/// Whether the character may stand in a service name.
fn is_name_char_exec(c: char) -> (r: bool)
    ensures
        r == is_name_char(c),
{
    is_alpha_exec(c) || (c >= '0' && c <= '9') || c == '_' || c == '.' || c == '-'
}

/// The end of the URL token at `j`, if a URL stands there.
fn parse_url_at(v: &Vec<char>, j: usize, https: &Vec<char>, http: &Vec<char>) -> (r: Option<usize>)
    requires
        j <= v@.len(),
        https@ == "https://"@,
        http@ == "http://"@,
    ensures
        match r {
            Some(e) => url_ok(v@, j as int) && e == nonws_end(v@, j as int) && j < e <= v@.len(),
            None => !url_ok(v@, j as int),
        },
{
    proof {
        reveal_strlit("https://");
        reveal_strlit("http://");
    }
    let e = nonws_end_exec(v, j);
    if e - j >= 9 && is_match_at(v, https, j) {
        Some(e)
    } else if e - j >= 8 && is_match_at(v, http, j) {
        Some(e)
    } else {
        None
    }
}

/// The URL of the first match of the literal pattern, if any.
fn find_lit_url(v: &Vec<char>, lit: &Vec<char>, https: &Vec<char>, http: &Vec<char>) -> (r: Option<
    String,
>)
    requires
        lit@.len() >= 1,
        https@ == "https://"@,
        http@ == "http://"@,
    ensures
        opt_str(r) == lit_url_from(v@, lit@, 0),
{
    let n = v.len();
    let mut i: usize = 0;
    while i < n
        invariant
            i <= n,
            n == v@.len(),
            lit@.len() >= 1,
            https@ == "https://"@,
            http@ == "http://"@,
            lit_url_from(v@, lit@, 0) == lit_url_from(v@, lit@, i as int),
        decreases n - i,
    {
        if lit.len() <= n - i && is_match_at(v, lit, i) {
            let a = i + lit.len();
            let w = ws_end_exec(v, a);
            if w > a {
                if let Some(e) = parse_url_at(v, w, https, http) {
                    let url = sub_chars(v, w, e);
                    let r = string_from_chars(&url);
                    assert(lit_url_at(v@, lit@, i as int) is Some);
                    return Some(r);
                }
            }
        }
        assert(lit_url_at(v@, lit@, i as int) is None);
        i += 1;
    }
    None
}

/// The service match at `i`, if one stands there: name, URL, and the
/// position past the match.
fn svc_try_at(v: &Vec<char>, i: usize, islit: &Vec<char>, https: &Vec<char>, http: &Vec<char>) -> (
    r: Option<(String, String, usize)>)
    requires
        i < v@.len(),
        islit@ == "is listening on"@,
        https@ == "https://"@,
        http@ == "http://"@,
    ensures
        match r {
            Some(t) => svc_at(v@, i as int) == Some((t.0@, t.1@, t.2 as int)) && i < t.2
                <= v@.len(),
            None => svc_at(v@, i as int) is None,
        },
{
    proof {
        reveal_strlit("is listening on");
    }
    let n = v.len();
    if v[i] != '"' {
        return None;
    }
    let j = i + 1;
    if j >= n {
        return None;
    }
    if !is_alpha_exec(v[j]) {
        return None;
    }
    let k = name_end_exec(v, j);
    if k - j < 2 {
        return None;
    }
    if k >= n {
        return None;
    }
    if v[k] != '"' {
        return None;
    }
    let w1 = ws_end_exec(v, k + 1);
    if w1 == k + 1 {
        return None;
    }
    if 15 > n - w1 {
        return None;
    }
    if !is_match_at(v, islit, w1) {
        return None;
    }
    let l2 = w1 + 15;
    let w2 = ws_end_exec(v, l2);
    if w2 == l2 {
        return None;
    }
    match parse_url_at(v, w2, https, http) {
        Some(e) => {
            let name_cs = sub_chars(v, j, k);
            let url_cs = sub_chars(v, w2, e);
            let name = string_from_chars(&name_cs);
            let url = string_from_chars(&url_cs);
            Some((name, url, e))
        },
        None => None,
    }
}

/// Extract the discovered services from accumulated service-stack output:
/// the dashboard URL the text announces last by rank (login over plain),
/// and one entry per service the text names, a later match winning.
pub fn parse_log_content(log_content: &str) -> (r: DiscoveredServices)
    ensures
        r.keys_unique(),
        opt_str(r.dashboard_url) == dashboard_of(log_content@),
        r.smap() == pairs_map(svc_matches_from(log_content@, 0)),
{
    let v = chars_of(log_content);
    let islit = chars_of("is listening on");
    let https = chars_of("https://");
    let http = chars_of("http://");
    let now_lit = chars_of("Now listening on:");
    let login_lit = chars_of("Login to the dashboard at");
    proof {
        reveal_strlit("is listening on");
        reveal_strlit("https://");
        reveal_strlit("http://");
        reveal_strlit("Now listening on:");
        reveal_strlit("Login to the dashboard at");
    }

    let mut services = DiscoveredServices::new();
    let ghost all = svc_matches_from(v@, 0);
    let ghost mut done: Seq<(Seq<char>, Seq<char>)> = Seq::empty();
    let n = v.len();
    let mut i: usize = 0;
    assert(pairs_map(done) =~= services.smap());
    while i < n
        invariant
            i <= n,
            n == v@.len(),
            islit@ == "is listening on"@,
            https@ == "https://"@,
            http@ == "http://"@,
            services.keys_unique(),
            services.dashboard_url is None,
            services.smap() == pairs_map(done),
            all == done + svc_matches_from(v@, i as int),
            all == svc_matches_from(v@, 0),
        decreases n - i,
    {
        match svc_try_at(&v, i, &islit, &https, &http) {
            Some((name, url, e)) => {
                proof {
                    let t = svc_at(v@, i as int)->0;
                    assert(svc_matches_from(v@, i as int) == seq![(t.0, t.1)]
                        + svc_matches_from(v@, t.2));
                }
                let ghost pair = (name@, url@);
                let ghost done0 = done;
                services.upsert_service(name, url);
                proof {
                    done = done + seq![pair];
                    assert(done.drop_last() =~= done0);
                    assert(done.last() == pair);
                    assert(pairs_map(done) == pairs_map(done0).insert(pair.0, pair.1));
                    assert(all =~= done + svc_matches_from(v@, e as int));
                }
                i = e;
            },
            None => {
                assert(svc_matches_from(v@, i as int) == svc_matches_from(v@, i + 1));
                i += 1;
            },
        }
    }
    assert(svc_matches_from(v@, i as int) == Seq::<(Seq<char>, Seq<char>)>::empty());
    assert(done =~= all);

    let dash = find_lit_url(&v, &now_lit, &https, &http);
    let login = find_lit_url(&v, &login_lit, &https, &http);
    services.dashboard_url = match login {
        Some(u) => Some(u),
        None => dash,
    };
    services
}

} // verus!
