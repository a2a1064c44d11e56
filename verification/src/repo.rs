//! Merging repository candidates discovered by the filesystem scan and by
//! the hosting provider listing: entries with the same name (compared
//! case-insensitively) are combined so they carry both the local path and
//! the remote URL; merged locals come first, remote-only entries after,
//! each group ordered by folded name.

use vstd::prelude::*;

verus! {

use vstd::seq_lib::lemma_multiset_commutative;
use crate::models::RepoCandidate;
use crate::text::{chars_of, lower_seq, to_lower_vec};

/// Lexicographic order on character sequences by code point.
pub open spec fn lex_le(a: Seq<char>, b: Seq<char>) -> bool
    decreases a.len(),
{
    if a.len() == 0 {
        true
    } else if b.len() == 0 {
        false
    } else if a[0] == b[0] {
        lex_le(a.skip(1), b.skip(1))
    } else {
        (a[0] as u32) < (b[0] as u32)
    }
}

/// The order is total.
pub proof fn lemma_lex_total(a: Seq<char>, b: Seq<char>)
    ensures
        lex_le(a, b) || lex_le(b, a),
    decreases a.len(),
{
    if a.len() > 0 && b.len() > 0 {
        if a[0] == b[0] {
            lemma_lex_total(a.skip(1), b.skip(1));
        } else {
            vstd::utf8::char_u32_cast(a[0], a[0] as u32);
            vstd::utf8::char_u32_cast(b[0], b[0] as u32);
        }
    }
}

/// The order is transitive.
pub proof fn lemma_lex_trans(a: Seq<char>, b: Seq<char>, c: Seq<char>)
    requires
        lex_le(a, b),
        lex_le(b, c),
    ensures
        lex_le(a, c),
    decreases a.len(),
{
    if a.len() > 0 && b.len() > 0 && c.len() > 0 && a[0] == b[0] && b[0] == c[0] {
        lemma_lex_trans(a.skip(1), b.skip(1), c.skip(1));
    }
}

/// Candidate order: by case-folded name.
pub open spec fn cand_le(a: RepoCandidate, b: RepoCandidate) -> bool {
    lex_le(lower_seq(a.name@), lower_seq(b.name@))
}

/// Non-decreasing by candidate order.
pub open spec fn sorted_cands(s: Seq<RepoCandidate>) -> bool {
    forall|i: int, j: int| 0 <= i < j < s.len() ==> cand_le(#[trigger] s[i], #[trigger] s[j])
}

/// Compare two character sequences lexicographically.
fn lex_le_exec(a: &Vec<char>, b: &Vec<char>) -> (r: bool)
    ensures
        r == lex_le(a@, b@),
{
    let na = a.len();
    let nb = b.len();
    let mut i: usize = 0;
    proof {
        assert(a@.skip(0) =~= a@);
        assert(b@.skip(0) =~= b@);
    }
    while i < na && i < nb && a[i] == b[i]
        invariant
            i <= na,
            i <= nb,
            na == a@.len(),
            nb == b@.len(),
            lex_le(a@, b@) == lex_le(a@.skip(i as int), b@.skip(i as int)),
            forall|q: int| 0 <= q < i ==> a@[q] == b@[q],
        decreases na - i,
    {
        proof {
            assert(a@.skip(i as int).skip(1) =~= a@.skip(i + 1));
            assert(b@.skip(i as int).skip(1) =~= b@.skip(i + 1));
        }
        i += 1;
    }
    if i >= na {
        assert(a@.skip(i as int).len() == 0);
        true
    } else if i >= nb {
        assert(b@.skip(i as int).len() == 0);
        false
    } else {
        let ca = a[i];
        let cb = b[i];
        assert(a@.skip(i as int)[0] == ca);
        assert(b@.skip(i as int)[0] == cb);
        (ca as u32) < (cb as u32)
    }
}

/// Compare two candidates by folded name.
fn cand_le_exec(a: &RepoCandidate, b: &RepoCandidate) -> (r: bool)
    ensures
        r == cand_le(*a, *b),
{
    let an = chars_of(a.name.as_str());
    let bn = chars_of(b.name.as_str());
    let al = to_lower_vec(&an);
    let bl = to_lower_vec(&bn);
    lex_le_exec(&al, &bl)
}

/// A field-for-field copy of a candidate.
pub fn clone_candidate(c: &RepoCandidate) -> (r: RepoCandidate)
    ensures
        r == *c,
{
    RepoCandidate {
        name: c.name.clone(),
        local_path: match &c.local_path {
            Some(p) => Some(p.clone()),
            None => None,
        },
        remote_url: match &c.remote_url {
            Some(u) => Some(u.clone()),
            None => None,
        },
    }
}

/// Sort candidates by folded name; the result is a reordering of the
/// input.
pub fn sort_candidates(v: Vec<RepoCandidate>) -> (r: Vec<RepoCandidate>)
    ensures
        sorted_cands(r@),
        r@.to_multiset() == v@.to_multiset(),
        r@.len() == v@.len(),
{
    let n = v.len();
    let mut out: Vec<RepoCandidate> = Vec::new();
    let mut i: usize = 0;
    proof {
        assert(v@.subrange(0, 0) =~= out@);
    }
    while i < n
        invariant
            i <= n,
            n == v@.len(),
            out@.len() == i,
            sorted_cands(out@),
            out@.to_multiset() == v@.subrange(0, i as int).to_multiset(),
        decreases n - i,
    {
        let item = clone_candidate(&v[i]);
        let ghost itemv = item;
        let m = out.len();
        let mut p: usize = 0;
        while p < m && cand_le_exec(&out[p], &item)
            invariant
                p <= m,
                m == out@.len(),
                itemv == item,
                forall|q: int| 0 <= q < p ==> cand_le(#[trigger] out@[q], itemv),
            decreases m - p,
        {
            p += 1;
        }
        let ghost out0 = out@;
        out.insert(p, item);
        proof {
            broadcast use vstd::seq_lib::group_to_multiset_ensures;
            broadcast use vstd::multiset::group_multiset_axioms;

            let sub = out0.subrange(0, p as int);
            let tail = out0.skip(p as int);
            assert(out@ =~= sub.push(itemv) + tail);
            lemma_multiset_commutative(sub.push(itemv), tail);
            lemma_multiset_commutative(sub, tail);
            assert(sub + tail =~= out0);
            assert(sub.push(itemv).to_multiset() == sub.to_multiset().insert(itemv));
            assert(out@.to_multiset() =~= out0.to_multiset().insert(itemv));
            let cur = v@.subrange(0, i + 1);
            assert(cur =~= v@.subrange(0, i as int).push(v@[i as int]));
            assert(cur.to_multiset() == v@.subrange(0, i as int).to_multiset().insert(
                v@[i as int],
            ));
            assert forall|x: int, y: int|
                0 <= x < y < out@.len() implies cand_le(#[trigger] out@[x], #[trigger] out@[y]) by {
                if y <= p {
                    if x < p && y < p {
                        assert(out@[x] == out0[x] && out@[y] == out0[y]);
                    } else if y == p {
                        assert(out@[x] == out0[x]);
                        assert(cand_le(out0[x], itemv));
                    }
                } else {
                    assert(out@[y] == out0[y - 1]);
                    if p < m {
                        assert(!cand_le(out0[p as int], itemv));
                        lemma_lex_total(
                            lower_seq(out0[p as int].name@),
                            lower_seq(itemv.name@),
                        );
                        assert(cand_le(itemv, out0[p as int]));
                    }
                    if x == p {
                        assert(out@[x] == itemv);
                        if y - 1 > p {
                            assert(cand_le(out0[p as int], out0[y - 1]));
                            lemma_lex_trans(
                                lower_seq(itemv.name@),
                                lower_seq(out0[p as int].name@),
                                lower_seq(out0[y - 1].name@),
                            );
                        }
                    } else if x < p {
                        assert(out@[x] == out0[x]);
                        assert(cand_le(out0[x], out0[y - 1]) || y - 1 == x);
                        if y - 1 == x {
                            assert(cand_le(out0[x], itemv));
                            lemma_lex_trans(
                                lower_seq(out0[x].name@),
                                lower_seq(itemv.name@),
                                lower_seq(itemv.name@),
                            );
                        }
                    } else {
                        assert(out@[x] == out0[x - 1]);
                        assert(cand_le(out0[x - 1], out0[y - 1]));
                    }
                }
            }
        }
        i += 1;
    }
    proof {
        assert(v@.subrange(0, n as int) =~= v@);
    }
    out
}

/// The index of the last candidate whose folded name matches, if any.
pub open spec fn last_name_match(cands: Seq<RepoCandidate>, key: Seq<char>) -> Option<int>
    decreases cands.len(),
{
    if cands.len() == 0 {
        None
    } else if lower_seq(cands.last().name@) == key {
        Some(cands.len() - 1)
    } else {
        last_name_match(cands.drop_last(), key)
    }
}

/// A candidate after the merge: it keeps its name and local path and
/// gains the URL of the last remote entry with the same folded name, if
/// there is one.
pub open spec fn merged_cand(c: RepoCandidate, remote: Seq<RepoCandidate>) -> RepoCandidate {
    match last_name_match(remote, lower_seq(c.name@)) {
        Some(j) => RepoCandidate { remote_url: remote[j].remote_url, ..c },
        None => c,
    }
}

/// A remote entry no local entry matches.
pub open spec fn remote_only(local: Seq<RepoCandidate>, c: RepoCandidate) -> bool {
    forall|i: int|
        0 <= i < local.len() ==> lower_seq(#[trigger] local[i].name@) != lower_seq(c.name@)
}

/// Build the merged form of one local candidate.
fn merged_cand_exec(c: &RepoCandidate, remote: &Vec<RepoCandidate>) -> (r: RepoCandidate)
    ensures
        r == merged_cand(*c, remote@),
{
    let key_cs = chars_of(c.name.as_str());
    let key = to_lower_vec(&key_cs);
    let rn = remote.len();
    let mut found: Option<usize> = None;
    let mut j: usize = 0;
    while j < rn
        invariant
            j <= rn,
            rn == remote@.len(),
            key@ == lower_seq(c.name@),
            match found {
                Some(f) => f < j && lower_seq(remote@[f as int].name@) == key@
                    && last_name_match(remote@.subrange(0, j as int), key@) == Some(f as int),
                None => last_name_match(remote@.subrange(0, j as int), key@) is None,
            },
        decreases rn - j,
    {
        let rcs = chars_of(remote[j].name.as_str());
        let rlow = to_lower_vec(&rcs);
        let ghost pre = remote@.subrange(0, j as int);
        let same = seq_eq_chars(&rlow, &key);
        proof {
            let cur = remote@.subrange(0, j + 1);
            assert(cur.drop_last() =~= pre);
            assert(cur.last() == remote@[j as int]);
        }
        if same {
            found = Some(j);
        }
        j += 1;
    }
    proof {
        assert(remote@.subrange(0, rn as int) =~= remote@);
    }
    match found {
        Some(f) => {
            let base = clone_candidate(c);
            RepoCandidate {
                name: base.name,
                local_path: base.local_path,
                remote_url: match &remote[f].remote_url {
                    Some(u) => Some(u.clone()),
                    None => None,
                },
            }
        },
        None => clone_candidate(c),
    }
}

/// Merge local and remote candidates: locals are deduplicated by folded
/// name (a later entry replacing an earlier one, as an index keyed by the
/// folded name would), each surviving local gains the URL of the last
/// remote entry with its folded name, and the result is those merged
/// locals sorted by folded name followed by the unmatched remote entries
/// sorted likewise.
pub fn merge_candidates(local: Vec<RepoCandidate>, remote: Vec<RepoCandidate>) -> (r: Vec<
    RepoCandidate,
>)
    ensures
        ({
            let k = r@.len() - remote@.filter(|c: RepoCandidate| remote_only(local@, c)).len();
            &&& r@.len() >= remote@.filter(|c: RepoCandidate| remote_only(local@, c)).len()
            &&& sorted_cands(r@.subrange(0, k as int))
            &&& sorted_cands(r@.skip(k as int))
            &&& r@.skip(k as int).to_multiset() == remote@.filter(
                |c: RepoCandidate| remote_only(local@, c),
            ).to_multiset()
            &&& (forall|a: int, b: int|
                0 <= a < b < k ==> lower_seq(r@[a].name@) != lower_seq(r@[b].name@))
            &&& (forall|c: RepoCandidate|
                #[trigger] r@.subrange(0, k as int).contains(c) ==> exists|x: int|
                    0 <= x < local@.len() && last_name_match(
                        local@,
                        lower_seq(local@[x].name@),
                    ) == Some(x) && c == merged_cand(local@[x], remote@))
            &&& (forall|x: int|
                0 <= x < local@.len() ==> exists|c: RepoCandidate|
                    r@.subrange(0, k as int).contains(c) && lower_seq(c.name@) == lower_seq(
                        (#[trigger] local@[x]).name@,
                    ))
        }),
{
    broadcast use vstd::seq_lib::group_to_multiset_ensures;
    broadcast use vstd::multiset::group_multiset_axioms;

    let ln = local.len();
    let rn = remote.len();

    let mut reps: Vec<RepoCandidate> = Vec::new();
    let mut i: usize = 0;
    while i < ln
        invariant
            i <= ln,
            ln == local@.len(),
            rn == remote@.len(),
            forall|a: int, b: int|
                0 <= a < b < reps@.len() ==> lower_seq(#[trigger] reps@[a].name@) != lower_seq(
                    #[trigger] reps@[b].name@,
                ),
            forall|a: int|
                0 <= a < reps@.len() ==> exists|x: int|
                    0 <= x < i && last_name_match(
                        local@.subrange(0, i as int),
                        lower_seq(local@[x].name@),
                    ) == Some(x) && (#[trigger] reps@[a]) == merged_cand(local@[x], remote@)
                        && lower_seq(reps@[a].name@) == lower_seq(local@[x].name@),
            forall|x: int|
                0 <= x < i ==> exists|a: int|
                    0 <= a < reps@.len() && lower_seq(#[trigger] reps@[a].name@) == lower_seq(
                        (#[trigger] local@[x]).name@,
                    ),
        decreases ln - i,
    {
        let entry = merged_cand_exec(&local[i], &remote);
        let key_cs = chars_of(local[i].name.as_str());
        let key = to_lower_vec(&key_cs);
        proof {
            assert(lower_seq(entry.name@) == key@);
            let prefix = local@.subrange(0, i as int);
            let cur = local@.subrange(0, i + 1);
            assert(cur.drop_last() =~= prefix);
            assert(cur.last() == local@[i as int]);
        }
        let m = reps.len();
        let mut a: usize = 0;
        let mut found: Option<usize> = None;
        while a < m
            invariant
                a <= m,
                m == reps@.len(),
                key@ == lower_seq(local@[i as int].name@),
                match found {
                    Some(f) => f < a && lower_seq(reps@[f as int].name@) == key@,
                    None => forall|q: int|
                        0 <= q < a ==> lower_seq(#[trigger] reps@[q].name@) != key@,
                },
            decreases m - a,
        {
            if found.is_none() {
                let acs = chars_of(reps[a].name.as_str());
                let alow = to_lower_vec(&acs);
                if seq_eq_chars(&alow, &key) {
                    found = Some(a);
                }
            }
            a += 1;
        }
        let ghost reps0 = reps@;
        match found {
            Some(f) => {
                reps.set(f, entry);
            },
            None => {
                reps.push(entry);
            },
        }
        proof {
            let prefix = local@.subrange(0, i as int);
            let cur = local@.subrange(0, i + 1);
            assert(forall|kk: Seq<char>|
                last_name_match(cur, kk) == (if lower_seq(local@[i as int].name@) == kk {
                    Some(i as int)
                } else {
                    last_name_match(prefix, kk)
                })) by {
                assert(cur.drop_last() =~= prefix);
                assert(cur.last() == local@[i as int]);
            }
            assert forall|a2: int, b2: int|
                0 <= a2 < b2 < reps@.len() implies lower_seq(#[trigger] reps@[a2].name@)
                != lower_seq(#[trigger] reps@[b2].name@) by {
                match found {
                    Some(f) => {
                        if a2 != f && b2 != f {
                            assert(reps@[a2] == reps0[a2]);
                            assert(reps@[b2] == reps0[b2]);
                        } else if a2 == f {
                            assert(reps@[b2] == reps0[b2]);
                            assert(lower_seq(reps0[f as int].name@) == key@);
                        } else {
                            assert(reps@[a2] == reps0[a2]);
                            assert(lower_seq(reps0[f as int].name@) == key@);
                        }
                    },
                    None => {
                        if b2 == reps@.len() - 1 {
                            assert(reps@[a2] == reps0[a2]);
                            assert(forall|q: int|
                                0 <= q < reps0.len() ==> lower_seq(#[trigger] reps0[q].name@)
                                    != key@);
                        } else {
                            assert(reps@[a2] == reps0[a2]);
                            assert(reps@[b2] == reps0[b2]);
                        }
                    },
                }
            }
            assert forall|a2: int| 0 <= a2 < reps@.len() implies exists|x: int|
                0 <= x < i + 1 && last_name_match(cur, lower_seq(local@[x].name@)) == Some(x) && (
                #[trigger] reps@[a2]) == merged_cand(local@[x], remote@) && lower_seq(
                reps@[a2].name@,
            ) == lower_seq(local@[x].name@) by {
                let is_new = match found {
                    Some(f) => a2 == f,
                    None => a2 == reps@.len() - 1,
                };
                if is_new {
                    assert(reps@[a2] == merged_cand(local@[i as int], remote@));
                    assert(last_name_match(cur, lower_seq(local@[i as int].name@)) == Some(
                        i as int,
                    ));
                } else {
                    assert(reps@[a2] == reps0[a2]);
                    let x = choose|x: int|
                        0 <= x < i && last_name_match(prefix, lower_seq(local@[x].name@)) == Some(
                            x,
                        ) && reps0[a2] == merged_cand(local@[x], remote@) && lower_seq(
                            reps0[a2].name@,
                        ) == lower_seq(local@[x].name@);
                    assert(lower_seq(local@[x].name@) != key@) by {
                        match found {
                            Some(f) => {
                                if lower_seq(local@[x].name@) == key@ {
                                    assert(lower_seq(reps0[a2].name@) == key@);
                                    assert(lower_seq(reps0[f as int].name@) == key@);
                                    assert(a2 != f);
                                }
                            },
                            None => {
                                if lower_seq(local@[x].name@) == key@ {
                                    assert(lower_seq(reps0[a2].name@) == key@);
                                }
                            },
                        }
                    }
                    assert(last_name_match(cur, lower_seq(local@[x].name@)) == last_name_match(
                        prefix,
                        lower_seq(local@[x].name@),
                    ));
                }
            }
            assert forall|x: int| 0 <= x < i + 1 implies exists|a2: int|
                0 <= a2 < reps@.len() && lower_seq(#[trigger] reps@[a2].name@) == lower_seq(
                (#[trigger] local@[x]).name@,
            ) by {
                if x == i as int {
                    let na = match found {
                        Some(f) => f as int,
                        None => reps@.len() - 1,
                    };
                    assert(lower_seq(reps@[na].name@) == key@);
                } else {
                    let a0 = choose|a0: int|
                        0 <= a0 < reps0.len() && lower_seq(#[trigger] reps0[a0].name@)
                            == lower_seq(local@[x].name@);
                    match found {
                        Some(f) => {
                            if a0 == f {
                                assert(lower_seq(reps@[a0].name@) == key@);
                                assert(lower_seq(reps0[a0].name@) == key@);
                            } else {
                                assert(reps@[a0] == reps0[a0]);
                            }
                        },
                        None => {
                            assert(reps@[a0] == reps0[a0]);
                        },
                    }
                }
            }
        }
        i += 1;
    }
    proof {
        assert(local@.subrange(0, ln as int) =~= local@);
    }

    let mut extras: Vec<RepoCandidate> = Vec::new();
    let mut k: usize = 0;
    proof {
        reveal(Seq::filter);
        assert(remote@.subrange(0, 0) =~= Seq::<RepoCandidate>::empty());
    }
    while k < rn
        invariant
            k <= rn,
            rn == remote@.len(),
            ln == local@.len(),
            extras@ == remote@.subrange(0, k as int).filter(
                |c: RepoCandidate| remote_only(local@, c),
            ),
        decreases rn - k,
    {
        let rcs = chars_of(remote[k].name.as_str());
        let rlow = to_lower_vec(&rcs);
        let mut has_local = false;
        let mut q: usize = 0;
        while q < ln
            invariant
                q <= ln,
                ln == local@.len(),
                rlow@ == lower_seq(remote@[k as int].name@),
                has_local == exists|x: int|
                    0 <= x < q && lower_seq(#[trigger] local@[x].name@) == rlow@,
            decreases ln - q,
        {
            let lcs = chars_of(local[q].name.as_str());
            let llow = to_lower_vec(&lcs);
            if seq_eq_chars(&llow, &rlow) {
                proof {
                    assert(lower_seq(local@[q as int].name@) == rlow@);
                }
                has_local = true;
            }
            q += 1;
        }
        let ghost pre = extras@;
        if !has_local {
            extras.push(clone_candidate(&remote[k]));
        }
        proof {
            reveal(Seq::filter);
            let cur = remote@.subrange(0, k + 1);
            assert(cur.drop_last() =~= remote@.subrange(0, k as int));
            assert(cur.last() == remote@[k as int]);
            assert(has_local == !remote_only(local@, remote@[k as int])) by {
                if !has_local {
                    assert forall|x: int|
                        0 <= x < local@.len() implies lower_seq(#[trigger] local@[x].name@)
                        != lower_seq(remote@[k as int].name@) by {}
                }
            }
            if !has_local {
                assert(extras@ =~= pre.push(remote@[k as int]));
            }
        }
        k += 1;
    }
    proof {
        assert(remote@.subrange(0, rn as int) =~= remote@);
    }

    let ghost repsv = reps@;
    let ghost extrasv = extras@;
    let sorted_local = sort_candidates(reps);
    let sorted_extra = sort_candidates(extras);
    let ghost av = sorted_local@;
    let ghost bv = sorted_extra@;
    let mut result = sorted_local;
    let mut tail = sorted_extra;
    result.append(&mut tail);
    proof {
        assert(result@ == av + bv);
        assert(av.to_multiset().len() == av.len());
        assert(bv.to_multiset().len() == bv.len());
        assert(repsv.to_multiset().len() == repsv.len());
        assert(extrasv.to_multiset().len() == extrasv.len());
        assert(av.len() == repsv.len());
        assert(bv.len() == extrasv.len());
        let kk = result@.len() - remote@.filter(|c: RepoCandidate| remote_only(local@, c)).len();
        assert(kk == av.len());
        assert(result@.subrange(0, kk as int) =~= av);
        assert(result@.skip(kk as int) =~= bv);

        assert forall|c: RepoCandidate| av.contains(c) implies repsv.contains(c) by {
            assert(av.to_multiset().count(c) > 0);
            assert(repsv.to_multiset().count(c) > 0);
        }
        assert forall|c: RepoCandidate| repsv.contains(c) implies av.contains(c) by {
            assert(repsv.to_multiset().count(c) > 0);
            assert(av.to_multiset().count(c) > 0);
        }

        assert(repsv.no_duplicates()) by {
            assert forall|a2: int, b2: int|
                (0 <= a2 < repsv.len() && 0 <= b2 < repsv.len() && a2 != b2) implies repsv[a2]
                != repsv[b2] by {
                if a2 < b2 {
                    assert(lower_seq(repsv[a2].name@) != lower_seq(repsv[b2].name@));
                } else {
                    assert(lower_seq(repsv[b2].name@) != lower_seq(repsv[a2].name@));
                }
            }
        }
        repsv.lemma_multiset_has_no_duplicates();
        av.lemma_multiset_has_no_duplicates_conv();
        assert forall|a2: int, b2: int|
            0 <= a2 < b2 < kk implies lower_seq(result@[a2].name@) != lower_seq(
            result@[b2].name@,
        ) by {
            assert(result@[a2] == av[a2]);
            assert(result@[b2] == av[b2]);
            assert(av[a2] != av[b2]);
            assert(av.contains(av[a2]));
            assert(av.contains(av[b2]));
            let ia = choose|ia: int| 0 <= ia < repsv.len() && repsv[ia] == av[a2];
            let ib = choose|ib: int| 0 <= ib < repsv.len() && repsv[ib] == av[b2];
            assert(ia != ib);
            if ia < ib {
                assert(lower_seq(repsv[ia].name@) != lower_seq(repsv[ib].name@));
            } else {
                assert(lower_seq(repsv[ib].name@) != lower_seq(repsv[ia].name@));
            }
        }

        assert forall|c: RepoCandidate|
            #[trigger] result@.subrange(0, kk as int).contains(c) implies exists|x: int|
            0 <= x < local@.len() && last_name_match(local@, lower_seq(local@[x].name@)) == Some(
            x,
        ) && c == merged_cand(local@[x], remote@) by {
            assert(av.contains(c));
            assert(repsv.contains(c));
            let a0 = choose|a0: int| 0 <= a0 < repsv.len() && repsv[a0] == c;
        }
        assert forall|x: int| 0 <= x < local@.len() implies exists|c: RepoCandidate|
            result@.subrange(0, kk as int).contains(c) && lower_seq(c.name@) == lower_seq(
            (#[trigger] local@[x]).name@,
        ) by {
            let a0 = choose|a0: int|
                0 <= a0 < repsv.len() && lower_seq(#[trigger] repsv[a0].name@) == lower_seq(
                    local@[x].name@,
                );
            assert(repsv.contains(repsv[a0]));
            assert(av.contains(repsv[a0]));
        }
    }
    result
}


/// The branch a listing line contributes: trimmed, the remote prefix
/// stripped, the symbolic head and blank lines dropped.
pub open spec fn branch_of_line(line: Seq<char>) -> Option<Seq<char>> {
    let t = crate::ui_state::trim_seq(line);
    if t.len() == 0 {
        None
    } else {
        let u = if crate::text::match_at(t, "origin/"@, 0) {
            t.skip(7)
        } else {
            t
        };
        if u == "HEAD"@ {
            None
        } else {
            Some(u)
        }
    }
}

/// The branch of one listing line, computed.
fn branch_of_line_exec(line: &str) -> (r: Option<String>)
    ensures
        (r matches Some(b) ==> branch_of_line(line@) == Some(b@)),
        r is None ==> branch_of_line(line@) is None,
{
    proof {
        reveal_strlit("origin/");
        reveal_strlit("HEAD");
    }
    let trimmed = crate::ui_state::trim(line);
    let t = chars_of(trimmed.as_str());
    if t.len() == 0 {
        return None;
    }
    let prefix = chars_of("origin/");
    let u = if prefix.len() <= t.len() && crate::text::is_match_at(&t, &prefix, 0) {
        crate::text::sub_chars(&t, 7, t.len())
    } else {
        proof {
            assert(t@ =~= crate::ui_state::trim_seq(line@));
        }
        crate::text::sub_chars(&t, 0, t.len())
    };
    proof {
        if crate::text::match_at(t@, "origin/"@, 0) {
            assert(u@ =~= t@.skip(7));
        } else {
            assert(u@ =~= t@);
        }
    }
    let head = chars_of("HEAD");
    if seq_eq_chars(&u, &head) {
        return None;
    }
    Some(crate::text::string_from_chars(&u))
}

/// The branch names of a raw listing: the union of local and remote
/// branches with the remote prefix stripped and the symbolic head
/// excluded, each name once, sorted.
pub fn normalize_branches(lines: &Vec<String>) -> (r: Vec<String>)
    ensures
        forall|a: int, b: int| 0 <= a < b < r@.len() ==> lex_le(r@[a]@, r@[b]@),
        forall|a: int, b: int| 0 <= a < b < r@.len() ==> r@[a]@ != r@[b]@,
        forall|i: int|
            0 <= i < lines@.len() ==> (branch_of_line((#[trigger] lines@[i])@) matches Some(u)
                ==> exists|a: int| 0 <= a < r@.len() && (#[trigger] r@[a])@ == u),
{
    broadcast use vstd::seq_lib::group_to_multiset_ensures;
    broadcast use vstd::multiset::group_multiset_axioms;

    let n = lines.len();
    let mut names: Vec<String> = Vec::new();
    let mut i: usize = 0;
    while i < n
        invariant
            i <= n,
            n == lines@.len(),
            forall|a: int, b: int| 0 <= a < b < names@.len() ==> names@[a]@ != names@[b]@,
            forall|q: int|
                0 <= q < i ==> (branch_of_line((#[trigger] lines@[q])@) matches Some(u)
                    ==> exists|a: int| 0 <= a < names@.len() && (#[trigger] names@[a])@ == u),
        decreases n - i,
    {
        match branch_of_line_exec(lines[i].as_str()) {
            Some(b) => {
                let ghost bv = b@;
                let m = names.len();
                let mut seen = false;
                let mut a: usize = 0;
                while a < m
                    invariant
                        a <= m,
                        m == names@.len(),
                        bv == b@,
                        seen == exists|q: int| 0 <= q < a && (#[trigger] names@[q])@ == b@,
                    decreases m - a,
                {
                    if crate::text::str_eq(names[a].as_str(), b.as_str()) {
                        proof {
                            assert(names@[a as int]@ == b@);
                        }
                        seen = true;
                    }
                    a += 1;
                }
                let ghost names0 = names@;
                if !seen {
                    names.push(b);
                }
                proof {
                    assert(branch_of_line(lines@[i as int]@) == Some(bv));
                    if !seen {
                        assert(forall|q: int|
                            0 <= q < names0.len() ==> (#[trigger] names@[q]) == names0[q]);
                        assert(names@[names@.len() - 1]@ == bv);
                    }
                    assert(exists|a2: int|
                        0 <= a2 < names@.len() && (#[trigger] names@[a2])@ == bv) by {
                        if seen {
                            let q = choose|q: int|
                                0 <= q < names0.len() && (#[trigger] names0[q])@ == bv;
                            assert(names@[q]@ == bv);
                        } else {
                            assert(names@[names@.len() - 1]@ == bv);
                        }
                    }
                    assert forall|q: int|
                        0 <= q < i + 1 implies (branch_of_line((#[trigger] lines@[q])@)
                        matches Some(u) ==> exists|a2: int|
                        0 <= a2 < names@.len() && (#[trigger] names@[a2])@ == u) by {
                        if branch_of_line((lines@[q])@) is Some {
                            let u = branch_of_line((lines@[q])@)->0;
                            if q == i as int {
                                assert(u == bv);
                            } else {
                                let a_old = choose|a_old: int|
                                    0 <= a_old < names0.len() && (#[trigger] names0[a_old])@
                                        == u;
                                assert(names@[a_old]@ == u);
                            }
                        }
                    }
                }
            },
            None => {},
        }
        i += 1;
    }

    let ghost namesv = names@;
    proof {
        assert(forall|q: int|
            0 <= q < lines@.len() ==> (branch_of_line((#[trigger] lines@[q])@) matches Some(u)
                ==> exists|a: int| 0 <= a < namesv.len() && (#[trigger] namesv[a])@ == u));
    }
    let sorted = sort_names(names);
    proof {
        let sv = sorted@;
        assert(sv.to_multiset().len() == sv.len());
        assert(namesv.to_multiset().len() == namesv.len());
        assert forall|c: String| sv.contains(c) implies namesv.contains(c) by {
            assert(sv.to_multiset().count(c) > 0);
            assert(namesv.to_multiset().count(c) > 0);
        }
        assert forall|c: String| namesv.contains(c) implies sv.contains(c) by {
            assert(namesv.to_multiset().count(c) > 0);
            assert(sv.to_multiset().count(c) > 0);
        }
        assert forall|a: int, b: int| 0 <= a < b < sv.len() implies sv[a]@ != sv[b]@ by {
            assert(sv.contains(sv[a]));
            assert(sv.contains(sv[b]));
            let ia = choose|ia: int| 0 <= ia < namesv.len() && namesv[ia] == sv[a];
            let ib = choose|ib: int| 0 <= ib < namesv.len() && namesv[ib] == sv[b];
            if ia == ib {
                assert(sv[a] == sv[b]);
                assert(namesv.no_duplicates()) by {
                    assert forall|x: int, y: int|
                        (0 <= x < namesv.len() && 0 <= y < namesv.len() && x != y) implies
                        namesv[x] != namesv[y] by {
                        if x < y {
                            assert(namesv[x]@ != namesv[y]@);
                        } else {
                            assert(namesv[y]@ != namesv[x]@);
                        }
                    }
                }
                namesv.lemma_multiset_has_no_duplicates();
                sv.lemma_multiset_has_no_duplicates_conv();
            } else if ia < ib {
                assert(namesv[ia]@ != namesv[ib]@);
            } else {
                assert(namesv[ib]@ != namesv[ia]@);
            }
        }
        assert forall|q: int| 0 <= q < lines@.len() implies (branch_of_line(
            (#[trigger] lines@[q])@,
        ) matches Some(u) ==> exists|a: int| 0 <= a < sv.len() && (#[trigger] sv[a])@ == u) by {
            if branch_of_line(lines@[q]@) is Some {
                let u = branch_of_line(lines@[q]@)->0;
                let a0 = choose|a0: int|
                    0 <= a0 < namesv.len() && (#[trigger] namesv[a0])@ == u;
                assert(namesv.contains(namesv[a0]));
                assert(sv.contains(namesv[a0]));
            }
        }
    }
    sorted
}

/// Sort branch names lexicographically; the result is a reordering of the
/// input.
fn sort_names(v: Vec<String>) -> (r: Vec<String>)
    ensures
        forall|a: int, b: int| 0 <= a < b < r@.len() ==> lex_le(r@[a]@, r@[b]@),
        r@.to_multiset() == v@.to_multiset(),
        r@.len() == v@.len(),
{
    let n = v.len();
    let mut out: Vec<String> = Vec::new();
    let mut i: usize = 0;
    proof {
        assert(v@.subrange(0, 0) =~= out@);
    }
    while i < n
        invariant
            i <= n,
            n == v@.len(),
            out@.len() == i,
            forall|a: int, b: int| 0 <= a < b < out@.len() ==> lex_le(out@[a]@, out@[b]@),
            out@.to_multiset() == v@.subrange(0, i as int).to_multiset(),
        decreases n - i,
    {
        let item = v[i].clone();
        let ghost itemv = item;
        let m = out.len();
        let mut p: usize = 0;
        while p < m && name_le(&out[p], &item)
            invariant
                p <= m,
                m == out@.len(),
                itemv == item,
                forall|q: int| 0 <= q < p ==> lex_le((#[trigger] out@[q])@, itemv@),
            decreases m - p,
        {
            p += 1;
        }
        let ghost out0 = out@;
        out.insert(p, item);
        proof {
            broadcast use vstd::seq_lib::group_to_multiset_ensures;
            broadcast use vstd::multiset::group_multiset_axioms;

            let sub = out0.subrange(0, p as int);
            let tail = out0.skip(p as int);
            assert(out@ =~= sub.push(itemv) + tail);
            lemma_multiset_commutative(sub.push(itemv), tail);
            lemma_multiset_commutative(sub, tail);
            assert(sub + tail =~= out0);
            assert(sub.push(itemv).to_multiset() == sub.to_multiset().insert(itemv));
            assert(out@.to_multiset() =~= out0.to_multiset().insert(itemv));
            let cur = v@.subrange(0, i + 1);
            assert(cur =~= v@.subrange(0, i as int).push(v@[i as int]));
            assert(cur.to_multiset() == v@.subrange(0, i as int).to_multiset().insert(
                v@[i as int],
            ));
            assert forall|x: int, y: int|
                0 <= x < y < out@.len() implies lex_le((#[trigger] out@[x])@, (
            #[trigger] out@[y])@) by {
                if y <= p {
                    if x < p && y < p {
                        assert(out@[x] == out0[x] && out@[y] == out0[y]);
                    } else if y == p {
                        assert(out@[x] == out0[x]);
                        assert(lex_le(out0[x]@, itemv@));
                    }
                } else {
                    assert(out@[y] == out0[y - 1]);
                    if p < m {
                        assert(!lex_le(out0[p as int]@, itemv@));
                        lemma_lex_total(out0[p as int]@, itemv@);
                        assert(lex_le(itemv@, out0[p as int]@));
                    }
                    if x == p {
                        assert(out@[x] == itemv);
                        if y - 1 > p {
                            assert(lex_le(out0[p as int]@, out0[y - 1]@));
                            lemma_lex_trans(itemv@, out0[p as int]@, out0[y - 1]@);
                        }
                    } else if x < p {
                        assert(out@[x] == out0[x]);
                        assert(lex_le(out0[x]@, out0[y - 1]@) || y - 1 == x);
                        if y - 1 == x {
                            assert(lex_le(out0[x]@, itemv@));
                            lemma_lex_trans(out0[x]@, itemv@, itemv@);
                        }
                    } else {
                        assert(out@[x] == out0[x - 1]);
                        assert(lex_le(out0[x - 1]@, out0[y - 1]@));
                    }
                }
            }
        }
        i += 1;
    }
    proof {
        assert(v@.subrange(0, n as int) =~= v@);
    }
    out
}

/// Compare two names lexicographically.
fn name_le(a: &String, b: &String) -> (r: bool)
    ensures
        r == lex_le(a@, b@),
{
    let av = chars_of(a.as_str());
    let bv = chars_of(b.as_str());
    lex_le_exec(&av, &bv)
}

/// Whether two character vectors hold the same characters.
fn seq_eq_chars(a: &Vec<char>, b: &Vec<char>) -> (r: bool)
    ensures
        r == (a@ == b@),
{
    let na = a.len();
    let nb = b.len();
    if na != nb {
        assert(a@ != b@);
        return false;
    }
    let mut i: usize = 0;
    while i < na
        invariant
            i <= na,
            na == a@.len(),
            na == b@.len(),
            a@.subrange(0, i as int) =~= b@.subrange(0, i as int),
        decreases na - i,
    {
        if a[i] != b[i] {
            assert(a@ != b@);
            return false;
        }
        assert(a@.subrange(0, i + 1) =~= b@.subrange(0, i + 1));
        i += 1;
    }
    assert(a@.subrange(0, na as int) =~= a@);
    assert(b@.subrange(0, na as int) =~= b@);
    true
}

} // verus!
