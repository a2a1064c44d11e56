//! Character-sequence utilities shared by the parsing and formatting code:
//! substring search, replacement, decimal rendering, and ASCII case folding.

use vstd::prelude::*;

verus! {

use vstd::string::StrSliceExecFns;
use vstd::string::StringExecFns;

/// The needle `n` occurs in `h` starting at position `i`.
pub open spec fn match_at(h: Seq<char>, n: Seq<char>, i: int) -> bool {
    0 <= i && i + n.len() <= h.len() && h.subrange(i, i + n.len() as int) == n
}

/// The needle `n` occurs somewhere in `h`.
pub open spec fn contains_seq(h: Seq<char>, n: Seq<char>) -> bool {
    exists|i: int| match_at(h, n, i)
}

/// Every occurrence of `n` in `s` replaced by `rep`, scanning left to right
/// without overlap; an empty needle replaces nothing.
pub open spec fn replace_seq(s: Seq<char>, n: Seq<char>, rep: Seq<char>) -> Seq<char>
    decreases s.len(),
{
    if n.len() == 0 || s.len() < n.len() {
        s
    } else if s.subrange(0, n.len() as int) == n {
        rep + replace_seq(s.skip(n.len() as int), n, rep)
    } else {
        seq![s[0]] + replace_seq(s.skip(1), n, rep)
    }
}

/// ASCII uppercase letters folded to lowercase; all other characters kept.
pub open spec fn lower_char(c: char) -> char {
    if 'A' <= c && c <= 'Z' {
        (((c as u8) + 32) as u8) as char
    } else {
        c
    }
}

/// Case-folded copy of a character sequence.
pub open spec fn lower_seq(s: Seq<char>) -> Seq<char> {
    s.map_values(|c: char| lower_char(c))
}

/// `h` contains `n` when both are compared after ASCII case folding.
pub open spec fn contains_ci(h: Seq<char>, n: Seq<char>) -> bool {
    contains_seq(lower_seq(h), n)
}

/// The decimal digits of `v`, most significant first.
pub open spec fn dec_str(v: nat) -> Seq<char>
    decreases v,
{
    if v < 10 {
        seq![digit_char(v)]
    } else {
        dec_str(v / 10) + seq![digit_char(v % 10)]
    }
}

/// The character for one decimal digit.
pub open spec fn digit_char(d: nat) -> char {
    ((0x30 + (d % 10)) as u8) as char
}

/// The characters of `s`, collected into a vector.
pub fn chars_of(s: &str) -> (r: Vec<char>)
    ensures
        r@ == s@,
{
    let n = s.unicode_len();
    let mut r: Vec<char> = Vec::new();
    let mut i: usize = 0;
    while i < n
        invariant
            i <= n,
            n == s@.len(),
            r@ == s@.subrange(0, i as int),
        decreases n - i,
    {
        r.push(s.get_char(i));
        assert(r@ =~= s@.subrange(0, i + 1));
        i += 1;
    }
    assert(r@ =~= s@);
    r
}

/// Whether two string slices hold the same characters.
pub fn str_eq(a: &str, b: &str) -> (r: bool)
    ensures
        r == (a@ == b@),
{
    let na = a.unicode_len();
    let nb = b.unicode_len();
    if na != nb {
        assert(a@ != b@);
        return false;
    }
    let mut i: usize = 0;
    while i < na
        invariant
            i <= na,
            na == a@.len(),
            na == b@.len(),
            a@.subrange(0, i as int) =~= b@.subrange(0, i as int),
        decreases na - i,
    {
        if a.get_char(i) != b.get_char(i) {
            assert(a@ != b@);
            return false;
        }
        assert(a@.subrange(0, i + 1) =~= b@.subrange(0, i + 1));
        i += 1;
    }
    assert(a@.subrange(0, na as int) =~= a@);
    assert(b@.subrange(0, na as int) =~= b@);
    assert(a@ =~= b@);
    true
}

/// Relies on `String::from_iter` through `Iterator::collect`: the string
/// holds exactly the characters of the vector, in order.
#[verifier::external_body]
pub fn string_from_chars(cs: &Vec<char>) -> (r: String)
    ensures
        r@ == cs@,
{
    cs.iter().collect()
}

/// Whether `n` occurs in `h` at position `i`.
pub fn is_match_at(h: &Vec<char>, n: &Vec<char>, i: usize) -> (r: bool)
    requires
        i + n@.len() <= h@.len(),
    ensures
        r == match_at(h@, n@, i as int),
{
    let hl: usize = h.len();
    let nl: usize = n.len();
    let mut k: usize = 0;
    while k < nl
        invariant
            k <= nl,
            hl == h@.len(),
            nl == n@.len(),
            i + nl <= hl,
            h@.subrange(i as int, i + k) =~= n@.subrange(0, k as int),
        decreases nl - k,
    {
        if h[i + k] != n[k] {
            assert(!match_at(h@, n@, i as int)) by {
                if match_at(h@, n@, i as int) {
                    assert(h@.subrange(i as int, i + n@.len())[k as int] == n@[k as int]);
                }
            }
            return false;
        }
        assert(h@.subrange(i as int, i + (k + 1)) =~= n@.subrange(0, k + 1));
        k += 1;
    }
    assert(h@.subrange(i as int, i + n@.len()) =~= n@);
    true
}

/// The position of the first occurrence of `n` in `h` at or after `from`,
/// if there is one.
pub fn find_from(h: &Vec<char>, n: &Vec<char>, from: usize) -> (r: Option<usize>)
    requires
        n@.len() >= 1,
        from <= h@.len(),
    ensures
        match r {
            Some(i) => from <= i && match_at(h@, n@, i as int) && (forall|j: int|
                from <= j < i ==> !match_at(h@, n@, j)),
            None => forall|j: int| from <= j ==> !match_at(h@, n@, j),
        },
{
    let mut i: usize = from;
    while i < h.len()
        invariant
            from <= i,
            i <= h@.len(),
            n@.len() >= 1,
            forall|j: int| from <= j < i ==> !match_at(h@, n@, j),
        decreases h@.len() - i,
    {
        if n.len() <= h.len() - i {
            if is_match_at(h, n, i) {
                return Some(i);
            }
        }
        i += 1;
    }
    None
}

/// Whether `n` occurs anywhere in `h`.
pub fn contains_sub(h: &Vec<char>, n: &Vec<char>) -> (r: bool)
    requires
        n@.len() >= 1,
    ensures
        r == contains_seq(h@, n@),
{
    let found = find_from(h, n, 0);
    match found {
        Some(i) => {
            assert(contains_seq(h@, n@));
            true
        },
        None => {
            assert(!contains_seq(h@, n@)) by {
                if contains_seq(h@, n@) {
                    let j = choose|j: int| match_at(h@, n@, j);
                    assert(!match_at(h@, n@, j));
                }
            }
            false
        },
    }
}

/// Every occurrence of `n` in `h` replaced by `rep`.
pub fn replace_all(h: &Vec<char>, n: &Vec<char>, rep: &Vec<char>) -> (out: Vec<char>)
    requires
        n@.len() >= 1,
    ensures
        out@ == replace_seq(h@, n@, rep@),
{
    let mut out: Vec<char> = Vec::new();
    let mut i: usize = 0;
    assert(h@.skip(0) =~= h@);
    assert(out@ + replace_seq(h@, n@, rep@) =~= replace_seq(h@, n@, rep@));
    while i < h.len()
        invariant
            i <= h@.len(),
            n@.len() >= 1,
            replace_seq(h@, n@, rep@) == out@ + replace_seq(h@.skip(i as int), n@, rep@),
        decreases h@.len() - i,
    {
        let ghost pre = out@;
        let ghost tail = h@.skip(i as int);
        if n.len() <= h.len() - i && is_match_at(h, n, i) {
            assert(tail.subrange(0, n@.len() as int) =~= n@);
            assert(tail.skip(n@.len() as int) =~= h@.skip(i + n@.len()));
            let mut k: usize = 0;
            while k < rep.len()
                invariant
                    k <= rep@.len(),
                    out@ == pre + rep@.subrange(0, k as int),
                decreases rep@.len() - k,
            {
                out.push(rep[k]);
                assert(out@ =~= pre + rep@.subrange(0, k + 1));
                k += 1;
            }
            assert(rep@.subrange(0, rep@.len() as int) =~= rep@);
            i += n.len();
            assert(out@ + replace_seq(h@.skip(i as int), n@, rep@) =~= pre + replace_seq(
                tail,
                n@,
                rep@,
            ));
        } else {
            assert(tail.len() >= n@.len() ==> tail.subrange(0, n@.len() as int) != n@) by {
                if tail.len() >= n@.len() && tail.subrange(0, n@.len() as int) == n@ {
                    assert(h@.subrange(i as int, i + n@.len()) =~= tail.subrange(
                        0,
                        n@.len() as int,
                    ));
                    assert(match_at(h@, n@, i as int));
                }
            }
            assert(seq![tail[0]] =~= seq![h@[i as int]]);
            assert(tail.skip(1) =~= h@.skip(i + 1));
            out.push(h[i]);
            i += 1;
            assert(out@ + replace_seq(h@.skip(i as int), n@, rep@) =~= pre + replace_seq(
                tail,
                n@,
                rep@,
            ));
        }
    }
    assert(h@.skip(i as int) =~= Seq::<char>::empty());
    assert(out@ + replace_seq(h@.skip(i as int), n@, rep@) =~= out@);
    out
}

/// One character folded to lowercase.
pub fn to_lower_char(c: char) -> (r: char)
    ensures
        r == lower_char(c),
{
    if c >= 'A' && c <= 'Z' {
        ((c as u8) + 32) as char
    } else {
        c
    }
}

/// A case-folded copy of a character vector.
pub fn to_lower_vec(h: &Vec<char>) -> (r: Vec<char>)
    ensures
        r@ == lower_seq(h@),
{
    let mut r: Vec<char> = Vec::new();
    let mut i: usize = 0;
    while i < h.len()
        invariant
            i <= h@.len(),
            r@ == h@.subrange(0, i as int).map_values(|c: char| lower_char(c)),
        decreases h@.len() - i,
    {
        r.push(to_lower_char(h[i]));
        assert(r@ =~= h@.subrange(0, i + 1).map_values(|c: char| lower_char(c)));
        i += 1;
    }
    assert(h@.subrange(0, i as int) =~= h@);
    r
}

/// The decimal rendering of `v`.
pub fn dec_chars(v: u64) -> (r: Vec<char>)
    ensures
        r@ == dec_str(v as nat),
    decreases v,
{
    if v < 10 {
        let mut r: Vec<char> = Vec::new();
        r.push((0x30 + (v % 10) as u8) as char);
        assert(r@ =~= seq![digit_char(v as nat)]);
        r
    } else {
        let mut r = dec_chars(v / 10);
        r.push((0x30 + (v % 10) as u8) as char);
        assert(r@ =~= dec_str((v / 10) as nat) + seq![digit_char((v % 10) as nat)]);
        r
    }
}

/// A copy of the characters of `v` between `a` and `b`.
pub fn sub_chars(v: &Vec<char>, a: usize, b: usize) -> (r: Vec<char>)
    requires
        a <= b <= v@.len(),
    ensures
        r@ == v@.subrange(a as int, b as int),
{
    let mut r: Vec<char> = Vec::new();
    let mut i: usize = a;
    while i < b
        invariant
            a <= i <= b,
            b <= v@.len(),
            r@ == v@.subrange(a as int, i as int),
        decreases b - i,
    {
        r.push(v[i]);
        assert(r@ =~= v@.subrange(a as int, i + 1));
        i += 1;
    }
    r
}

/// The parts joined with the separator between neighbours.
pub open spec fn join_sep(parts: Seq<Seq<char>>, sep: Seq<char>) -> Seq<char>
    decreases parts.len(),
{
    if parts.len() == 0 {
        Seq::empty()
    } else if parts.len() == 1 {
        parts[0]
    } else {
        join_sep(parts.drop_last(), sep) + sep + parts.last()
    }
}

/// The strings joined with the separator between neighbours.
pub fn join_with(parts: &Vec<String>, sep: &str) -> (r: String)
    ensures
        r@ == join_sep(parts@.map_values(|s: String| s@), sep@),
{
    let mut r = String::new();
    let n = parts.len();
    let mut i: usize = 0;
    while i < n
        invariant
            i <= n,
            n == parts@.len(),
            r@ == join_sep(parts@.subrange(0, i as int).map_values(|s: String| s@), sep@),
        decreases n - i,
    {
        if i > 0 {
            r.append(sep);
        }
        r.append(parts[i].as_str());
        proof {
            let pre = parts@.subrange(0, i as int).map_values(|s: String| s@);
            let cur = parts@.subrange(0, i + 1).map_values(|s: String| s@);
            assert(cur.drop_last() =~= pre);
            assert(cur.last() == parts@[i as int]@);
            if i == 0 {
                assert(r@ =~= cur[0]);
            }
        }
        i += 1;
    }
    assert(parts@.subrange(0, n as int) =~= parts@);
    r
}

/// The decimal rendering of `v` as a string.
pub fn dec_string(v: u64) -> (r: String)
    ensures
        r@ == dec_str(v as nat),
{
    let cs = dec_chars(v);
    string_from_chars(&cs)
}

} // verus!
