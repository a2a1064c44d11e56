//! The JSON control payloads of the framed IPC, in the exact renderings the
//! peers write: `{"resize":[<cols>,<rows>]}` and `"kill"` from a client to
//! the host, `{"exited":<code>}` from the host to its clients. The parser
//! recognises exactly these canonical renderings; a payload in any other
//! shape is reported as unknown and ignored, as the host ignores malformed
//! control text.

use vstd::prelude::*;

verus! {

use vstd::string::StringExecFns;
use crate::text::{dec_str, dec_string, digit_char};

/// One control message of the framed IPC.
#[derive(Debug, Clone, Copy, PartialEq, Eq, Structural)]
pub enum ControlMsg {
    /// Resize the PTY to (columns, rows).
    Resize(u16, u16),
    /// Tear the host down.
    Kill,
    /// The agent process exited with the given code.
    Exited(u32),
    /// Anything else; ignored.
    Unknown,
}

/// The canonical resize payload.
pub open spec fn resize_seq(cols: u16, rows: u16) -> Seq<char> {
    "{\"resize\":["@ + dec_str(cols as nat) + ","@ + dec_str(rows as nat) + "]}"@
}

/// The canonical kill payload.
pub open spec fn kill_seq() -> Seq<char> {
    "\"kill\""@
}

/// The canonical exit notification payload.
pub open spec fn exited_seq(code: u32) -> Seq<char> {
    "{\"exited\":"@ + dec_str(code as nat) + "}"@
}

/// An ASCII decimal digit.
pub open spec fn is_digit(c: char) -> bool {
    '0' <= c && c <= '9'
}

/// The value of one digit character.
pub open spec fn digit_val(c: char) -> nat {
    ((c as u8) - 0x30) as nat
}

/// The end of the maximal digit run starting at `j`.
pub open spec fn digits_end(s: Seq<char>, j: int) -> int
    decreases s.len() - j,
{
    if 0 <= j < s.len() && is_digit(s[j]) {
        digits_end(s, j + 1)
    } else {
        j
    }
}

/// The number a digit sequence denotes.
pub open spec fn num_val(s: Seq<char>) -> nat
    decreases s.len(),
{
    if s.len() == 0 {
        0
    } else {
        num_val(s.drop_last()) * 10 + digit_val(s.last())
    }
}

/// A digit run denotes a number in canonical form: nonempty, and without a
/// leading zero unless it is exactly `0`.
pub open spec fn canonical_num_at(s: Seq<char>, j: int) -> bool {
    let e = digits_end(s, j);
    e > j && (s[j] != '0' || e == j + 1)
}

/// The decimal rendering of any number is a canonical digit run denoting
/// that number.
pub proof fn lemma_dec_str_canonical(n: nat)
    ensures
        dec_str(n).len() >= 1,
        forall|i: int| 0 <= i < dec_str(n).len() ==> is_digit(#[trigger] dec_str(n)[i]),
        dec_str(n).len() > 1 ==> dec_str(n)[0] != '0',
        num_val(dec_str(n)) == n,
    decreases n,
{
    if n < 10 {
        assert(dec_str(n) == seq![digit_char(n)]);
        assert(digit_char(n) as u8 == 0x30 + n);
        assert(is_digit(digit_char(n)));
        assert(seq![digit_char(n)].drop_last() =~= Seq::<char>::empty());
        assert(num_val(Seq::<char>::empty()) == 0);
        assert(num_val(dec_str(n)) == digit_val(digit_char(n)));
        assert(digit_val(digit_char(n)) == n);
    } else {
        lemma_dec_str_canonical(n / 10);
        let s = dec_str(n);
        let p = dec_str(n / 10);
        assert(s == p + seq![digit_char(n % 10)]);
        assert(s.drop_last() =~= p);
        assert(s.last() == digit_char(n % 10));
        assert(digit_char(n % 10) as u8 == 0x30 + (n % 10)) by {
            assert(((0x30 + n % 10) as u8) as u8 == 0x30 + (n % 10));
        }
        assert(digit_val(digit_char(n % 10)) == n % 10);
        assert(is_digit(digit_char(n % 10)));
        assert(num_val(s) == num_val(p) * 10 + n % 10);
        assert((n / 10) * 10 + n % 10 == n) by (nonlinear_arith);
        assert(forall|i: int| 0 <= i < s.len() ==> is_digit(#[trigger] s[i])) by {
            assert(forall|i: int| 0 <= i < p.len() ==> s[i] == p[i]);
        }
        assert(s[0] == p[0]);
        assert(n / 10 >= 1);
        assert(p.len() > 1 ==> p[0] != '0');
        assert(p[0] != '0') by {
            if p[0] == '0' {
                assert(p.len() == 1);
                assert(p.drop_last() =~= Seq::<char>::empty());
                assert(num_val(Seq::<char>::empty()) == 0);
                assert(num_val(p) == digit_val('0'));
                assert(('0' as u8) == 0x30);
            }
        }
    }
}

/// A nonempty digit run without a leading zero is the decimal rendering of
/// the number it denotes.
pub proof fn lemma_num_canonical_inj(s: Seq<char>)
    requires
        s.len() >= 1,
        forall|i: int| 0 <= i < s.len() ==> is_digit(#[trigger] s[i]),
        s.len() > 1 ==> s[0] != '0',
    ensures
        s == dec_str(num_val(s)),
    decreases s.len(),
{
    let n = num_val(s);
    if s.len() == 1 {
        assert(s.drop_last() =~= Seq::<char>::empty());
        assert(num_val(Seq::<char>::empty()) == 0);
        assert(s.last() == s[0]);
        assert(n == digit_val(s[0]));
        assert(n < 10) by {
            assert(('9' as u8) == 0x39);
            assert(('0' as u8) == 0x30);
            assert(s[0] as u8 <= 0x39) by {
                lemma_digit_le(s[0]);
            }
        }
        assert(dec_str(n) == seq![digit_char(n)]);
        assert(digit_char(n) == s[0]) by {
            lemma_digit_char_val(s[0]);
        }
        assert(s =~= dec_str(n));
    } else {
        let p = s.drop_last();
        let d = digit_val(s.last());
        assert(p.len() >= 1);
        assert(p[0] == s[0]);
        lemma_num_canonical_inj(p);
        let m = num_val(p);
        assert(n == m * 10 + d);
        assert(d < 10) by {
            lemma_digit_le(s.last());
        }
        assert(m >= 1) by {
            if m == 0 {
                assert(p == dec_str(0));
                assert(dec_str(0) == seq![digit_char(0)]);
                assert(p.len() == 1);
                assert(p[0] == digit_char(0));
                assert(digit_char(0) == '0');
            }
        }
        assert(n >= 10) by (nonlinear_arith)
            requires
                n == m * 10 + d,
                m >= 1,
        ;
        assert(n / 10 == m && n % 10 == d) by (nonlinear_arith)
            requires
                n == m * 10 + d,
                d < 10,
        ;
        assert(dec_str(n) == dec_str(m) + seq![digit_char(d)]);
        assert(digit_char(d) == s.last()) by {
            lemma_digit_char_val(s.last());
        }
        assert(s =~= dec_str(n));
    }
}

/// A digit character's code point is at most that of `9`.
pub(crate) proof fn lemma_digit_le(c: char)
    requires
        is_digit(c),
    ensures
        0x30 <= c as u8 <= 0x39,
        digit_val(c) < 10,
{
    assert(('0' as u32) == 0x30);
    assert(('9' as u32) == 0x39);
    assert(0x30 <= c as u32 <= 0x39);
    assert(c as u8 == c as u32);
}

/// Rendering a digit character from a digit's value gives the character
/// back.
proof fn lemma_digit_char_val(c: char)
    requires
        is_digit(c),
    ensures
        digit_char(digit_val(c)) == c,
{
    lemma_digit_le(c);
    assert((c as u32) < 0x80);
    assert(((c as u8) as char) == c) by {
        assert((c as u8) as u32 == c as u32);
        vstd::utf8::char_u32_cast(c, c as u32);
        assert(((c as u32) as char) == c);
        assert(((c as u8) as char) == ((c as u32) as char));
    }
}

/// If the characters from `j` to `k` are digits and `k` sits at the end or
/// before a non-digit, the digit run from `j` ends exactly at `k`.
pub proof fn lemma_digits_end_is(s: Seq<char>, j: int, k: int)
    requires
        0 <= j <= k <= s.len(),
        forall|i: int| j <= i < k ==> is_digit(#[trigger] s[i]),
        k == s.len() || !is_digit(s[k]),
    ensures
        digits_end(s, j) == k,
    decreases k - j,
{
    if j < k {
        lemma_digits_end_is(s, j + 1, k);
    }
}

/// A longer digit run never denotes a smaller number.
pub(crate) proof fn lemma_num_val_extend(s: Seq<char>, t: Seq<char>)
    requires
        forall|i: int| 0 <= i < t.len() ==> is_digit(#[trigger] t[i]),
    ensures
        num_val(s + t) >= num_val(s),
    decreases t.len(),
{
    if t.len() == 0 {
        assert(s + t =~= s);
    } else {
        lemma_num_val_extend(s, t.drop_last());
        assert((s + t).drop_last() =~= s + t.drop_last());
        assert(num_val(s + t) == num_val(s + t.drop_last()) * 10 + digit_val((s + t).last()));
        assert(num_val(s + t.drop_last()) * 10 >= num_val(s + t.drop_last())) by (nonlinear_arith);
    }
}

/// Parse the canonical digit run at `j`: its value (at most `max`) and its
/// end, or nothing if no canonical run at most `max` stands there.
pub(crate) fn parse_num_at(v: &Vec<char>, j: usize, max: u64) -> (r: Option<(u64, usize)>)
    requires
        j <= v@.len(),
    ensures
        match r {
            Some(t) => canonical_num_at(v@, j as int) && t.1 == digits_end(v@, j as int)
                && j < t.1 <= v@.len() && t.0 == num_val(v@.subrange(j as int, t.1 as int))
                && t.0 <= max,
            None => !(canonical_num_at(v@, j as int) && num_val(
                v@.subrange(j as int, digits_end(v@, j as int)),
            ) <= max),
        },
{
    let n = v.len();
    if j >= n || !is_digit_exec(v[j]) {
        return None;
    }
    let mut i: usize = j;
    let mut val: u64 = 0;
    let mut over: bool = false;
    while i < n && is_digit_exec(v[i])
        invariant
            j <= i <= n,
            n == v@.len(),
            is_digit(v@[j as int]),
            digits_end(v@, j as int) == digits_end(v@, i as int),
            forall|q: int| j <= q < i ==> is_digit(#[trigger] v@[q]),
            !over ==> val == num_val(v@.subrange(j as int, i as int)) && val <= max,
            over ==> num_val(v@.subrange(j as int, digits_end(v@, j as int))) > max,
        decreases n - i,
    {
        let d = digit_value_exec(v[i]);
        let d64: u64 = d as u64;
        proof {
            assert(v@.subrange(j as int, i + 1).drop_last() =~= v@.subrange(j as int, i as int));
            assert(v@.subrange(j as int, i + 1).last() == v@[i as int]);
        }
        if !over {
            if d64 > max || val > (max - d64) / 10 {
                over = true;
                proof {
                    let cur = v@.subrange(j as int, i + 1);
                    let run_end = digits_end(v@, j as int);
                    assert(num_val(cur) == val * 10 + d);
                    assert(val * 10 + d64 > max) by (nonlinear_arith)
                        requires
                            d64 > max || val > (max - d64) / 10,
                            d64 < 10,
                            val >= 0,
                            max >= 0,
                    ;
                    assert(num_val(cur) > max);
                    lemma_digits_end_run(v@, i + 1);
                    assert(v@.subrange(j as int, run_end) =~= cur + v@.subrange(i + 1, run_end));
                    lemma_num_val_extend(cur, v@.subrange(i + 1, run_end));
                }
            } else {
                proof {
                    assert(val * 10 + d64 <= max) by (nonlinear_arith)
                        requires
                            d64 <= max,
                            val <= (max - d64) / 10,
                            d64 < 10,
                    ;
                }
                val = val * 10 + d64;
            }
        }
        i += 1;
    }
    proof {
        assert(digits_end(v@, i as int) == i);
        assert(digits_end(v@, j as int) >= j + 1);
    }
    if over {
        return None;
    }
    if v[j] == '0' && i > j + 1 {
        return None;
    }
    Some((val, i))
}

/// Every position of a digit run up to its end holds a digit.
pub(crate) proof fn lemma_digits_end_run(s: Seq<char>, j: int)
    requires
        0 <= j <= s.len(),
    ensures
        j <= digits_end(s, j) <= s.len(),
        forall|i: int| j <= i < digits_end(s, j) ==> is_digit(#[trigger] s[i]),
    decreases s.len() - j,
{
    if j < s.len() && is_digit(s[j]) {
        lemma_digits_end_run(s, j + 1);
    }
}

/// The canonical rendering of a resize request.
pub fn encode_resize(cols: u16, rows: u16) -> (r: String)
    ensures
        r@ == resize_seq(cols, rows),
{
    let mut r = String::from_str("{\"resize\":[");
    let c = dec_string(cols as u64);
    r.append(c.as_str());
    r.append(",");
    let w = dec_string(rows as u64);
    r.append(w.as_str());
    r.append("]}");
    r
}

/// The canonical rendering of a kill request.
pub fn encode_kill() -> (r: String)
    ensures
        r@ == kill_seq(),
{
    String::from_str("\"kill\"")
}

/// The canonical rendering of an exit notification.
pub fn encode_exited(code: u32) -> (r: String)
    ensures
        r@ == exited_seq(code),
{
    let mut r = String::from_str("{\"exited\":");
    let c = dec_string(code as u64);
    r.append(c.as_str());
    r.append("}");
    r
}

/// Everything the shape of a canonical resize payload fixes about it.
proof fn lemma_resize_shape(s: Seq<char>, c: u16, w: u16)
    requires
        s == resize_seq(c, w),
    ensures
        ({
            let d1 = dec_str(c as nat);
            let d2 = dec_str(w as nat);
            &&& s.len() == 14 + d1.len() + d2.len()
            &&& crate::text::match_at(s, "{\"resize\":["@, 0)
            &&& canonical_num_at(s, 11)
            &&& digits_end(s, 11) == 11 + d1.len() as int
            &&& num_val(s.subrange(11, 11 + d1.len() as int)) == c
            &&& s[11 + d1.len() as int] == ','
            &&& canonical_num_at(s, 12 + d1.len() as int)
            &&& digits_end(s, 12 + d1.len() as int) == 12 + d1.len() + d2.len()
            &&& num_val(s.subrange(12 + d1.len() as int, 12 + d1.len() + d2.len() as int)) == w
            &&& s[12 + (d1.len() + d2.len()) as int] == ']'
            &&& s[13 + (d1.len() + d2.len()) as int] == '}'
        }),
{
    reveal_strlit("{\"resize\":[");
    reveal_strlit(",");
    reveal_strlit("]}");
    let d1 = dec_str(c as nat);
    let d2 = dec_str(w as nat);
    lemma_dec_str_canonical(c as nat);
    lemma_dec_str_canonical(w as nat);
    assert(s.subrange(0, 11) =~= "{\"resize\":["@);
    assert(s.subrange(11, 11 + d1.len() as int) =~= d1);
    assert(s[11 + d1.len() as int] == ","@[0]);
    assert(s.subrange(12 + d1.len() as int, 12 + (d1.len() + d2.len()) as int) =~= d2);
    assert(s[12 + (d1.len() + d2.len()) as int] == "]}"@[0]);
    assert(s[13 + (d1.len() + d2.len()) as int] == "]}"@[1]);
    assert(!is_digit(',')) by {
        assert((',' as u32) == 0x2c);
    }
    assert(!is_digit(']')) by {
        assert((']' as u32) == 0x5d);
    }
    lemma_digits_end_is(s, 11, 11 + d1.len() as int);
    lemma_digits_end_is(s, 12 + d1.len() as int, 12 + (d1.len() + d2.len()) as int);
}

/// Everything the shape of a canonical exit payload fixes about it.
proof fn lemma_exited_shape(s: Seq<char>, code: u32)
    requires
        s == exited_seq(code),
    ensures
        ({
            let d = dec_str(code as nat);
            &&& s.len() == 11 + d.len()
            &&& crate::text::match_at(s, "{\"exited\":"@, 0)
            &&& canonical_num_at(s, 10)
            &&& digits_end(s, 10) == 10 + d.len() as int
            &&& num_val(s.subrange(10, 10 + d.len() as int)) == code
            &&& s[10 + d.len() as int] == '}'
        }),
{
    reveal_strlit("{\"exited\":");
    reveal_strlit("}");
    let d = dec_str(code as nat);
    lemma_dec_str_canonical(code as nat);
    assert(s.subrange(0, 10) =~= "{\"exited\":"@);
    assert(s.subrange(10, 10 + d.len() as int) =~= d);
    assert(s[10 + d.len() as int] == "}"@[0]);
    assert(!is_digit('}')) by {
        assert(('}' as u32) == 0x7d);
    }
    lemma_digits_end_is(s, 10, 10 + d.len() as int);
}

/// Recognise a canonical resize payload, returning its dimensions.
fn try_resize(cs: &Vec<char>) -> (r: Option<(u16, u16)>)
    ensures
        match r {
            Some(t) => cs@ == resize_seq(t.0, t.1),
            None => forall|c: u16, w: u16| cs@ != resize_seq(c, w),
        },
{
    proof {
        reveal_strlit("{\"resize\":[");
        reveal_strlit(",");
        reveal_strlit("]}");
    }
    let prefix = crate::text::chars_of("{\"resize\":[");
    if cs.len() < 11 || !crate::text::is_match_at(cs, &prefix, 0) {
        proof {
            assert forall|c: u16, w: u16| cs@ != resize_seq(c, w) by {
                if cs@ == resize_seq(c, w) {
                    lemma_resize_shape(cs@, c, w);
                }
            }
        }
        return None;
    }
    let first = parse_num_at(cs, 11, 65535);
    match first {
        None => {
            proof {
                assert forall|c: u16, w: u16| cs@ != resize_seq(c, w) by {
                    if cs@ == resize_seq(c, w) {
                        lemma_resize_shape(cs@, c, w);
                    }
                }
            }
            None
        },
        Some((v1, e1)) => {
            if e1 >= cs.len() || cs[e1] != ',' {
                proof {
                    assert forall|c: u16, w: u16| cs@ != resize_seq(c, w) by {
                        if cs@ == resize_seq(c, w) {
                            lemma_resize_shape(cs@, c, w);
                        }
                    }
                }
                return None;
            }
            let second = parse_num_at(cs, e1 + 1, 65535);
            match second {
                None => {
                    proof {
                        assert forall|c: u16, w: u16| cs@ != resize_seq(c, w) by {
                            if cs@ == resize_seq(c, w) {
                                lemma_resize_shape(cs@, c, w);
                            }
                        }
                    }
                    None
                },
                Some((v2, e2)) => {
                    let suffix = crate::text::chars_of("]}");
                    if cs.len() - e2 != 2 || !crate::text::is_match_at(cs, &suffix, e2) {
                        proof {
                            assert forall|c: u16, w: u16| cs@ != resize_seq(c, w) by {
                                if cs@ == resize_seq(c, w) {
                                    lemma_resize_shape(cs@, c, w);
                                    assert(cs@.subrange(e2 as int, e2 + 2) =~= "]}"@);
                                }
                            }
                        }
                        return None;
                    }
                    proof {
                        let d1 = cs@.subrange(11, e1 as int);
                        let d2 = cs@.subrange(e1 + 1, e2 as int);
                        lemma_digits_end_run(cs@, 11);
                        lemma_digits_end_run(cs@, e1 + 1);
                        assert(forall|i: int| 0 <= i < d1.len() ==> is_digit(#[trigger] d1[i]));
                        assert(forall|i: int| 0 <= i < d2.len() ==> is_digit(#[trigger] d2[i]));
                        lemma_num_canonical_inj(d1);
                        lemma_num_canonical_inj(d2);
                        assert(d1 == dec_str(v1 as nat));
                        assert(d2 == dec_str(v2 as nat));
                        assert(cs@ =~= "{\"resize\":["@ + d1 + ","@ + d2 + "]}"@) by {
                            assert(cs@.subrange(0, 11) =~= "{\"resize\":["@);
                            assert(cs@.subrange(e2 as int, e2 + 2) =~= "]}"@);
                        }
                    }
                    Some(((v1 as u16), (v2 as u16)))
                },
            }
        },
    }
}

/// Recognise a canonical exit payload, returning the code.
fn try_exited(cs: &Vec<char>) -> (r: Option<u32>)
    ensures
        match r {
            Some(code) => cs@ == exited_seq(code),
            None => forall|code: u32| cs@ != exited_seq(code),
        },
{
    proof {
        reveal_strlit("{\"exited\":");
        reveal_strlit("}");
    }
    let prefix = crate::text::chars_of("{\"exited\":");
    if cs.len() < 10 || !crate::text::is_match_at(cs, &prefix, 0) {
        proof {
            assert forall|code: u32| cs@ != exited_seq(code) by {
                if cs@ == exited_seq(code) {
                    lemma_exited_shape(cs@, code);
                }
            }
        }
        return None;
    }
    let num = parse_num_at(cs, 10, 0xffffffff);
    match num {
        None => {
            proof {
                assert forall|code: u32| cs@ != exited_seq(code) by {
                    if cs@ == exited_seq(code) {
                        lemma_exited_shape(cs@, code);
                    }
                }
            }
            None
        },
        Some((v, e)) => {
            if cs.len() - e != 1 || cs[e] != '}' {
                proof {
                    assert forall|code: u32| cs@ != exited_seq(code) by {
                        if cs@ == exited_seq(code) {
                            lemma_exited_shape(cs@, code);
                        }
                    }
                }
                return None;
            }
            proof {
                let d = cs@.subrange(10, e as int);
                lemma_digits_end_run(cs@, 10);
                assert(forall|i: int| 0 <= i < d.len() ==> is_digit(#[trigger] d[i]));
                lemma_num_canonical_inj(d);
                assert(d == dec_str(v as nat));
                assert(cs@ =~= "{\"exited\":"@ + d + "}"@) by {
                    assert(cs@.subrange(0, 10) =~= "{\"exited\":"@);
                }
            }
            Some(v as u32)
        },
    }
}

/// Classify one control payload: the canonical renderings are recognised
/// exactly, and anything else is unknown.
pub fn parse_control(cs: &Vec<char>) -> (r: ControlMsg)
    ensures
        (r matches ControlMsg::Resize(c, w) ==> cs@ == resize_seq(c, w)),
        (r is Kill ==> cs@ == kill_seq()),
        (r matches ControlMsg::Exited(code) ==> cs@ == exited_seq(code)),
        forall|c: u16, w: u16| cs@ == resize_seq(c, w) ==> r == ControlMsg::Resize(c, w),
        cs@ == kill_seq() ==> r == ControlMsg::Kill,
        forall|code: u32| cs@ == exited_seq(code) ==> r == ControlMsg::Exited(code),
{
    proof {
        reveal_strlit("\"kill\"");
    }
    let kill = crate::text::chars_of("\"kill\"");
    if cs.len() == 6 && crate::text::is_match_at(cs, &kill, 0) {
        proof {
            assert(cs@.subrange(0, 6) =~= cs@);
            assert forall|c: u16, w: u16| cs@ != resize_seq(c, w) by {
                if cs@ == resize_seq(c, w) {
                    lemma_resize_shape(cs@, c, w);
                    reveal_strlit("{\"resize\":[");
                }
            }
            assert forall|code: u32| cs@ != exited_seq(code) by {
                if cs@ == exited_seq(code) {
                    lemma_exited_shape(cs@, code);
                    reveal_strlit("{\"exited\":");
                }
            }
        }
        return ControlMsg::Kill;
    }
    if let Some((c, w)) = try_resize(cs) {
        proof {
            assert(cs@ != kill_seq()) by {
                lemma_resize_shape(cs@, c, w);
                reveal_strlit("{\"resize\":[");
            }
            assert forall|code: u32| cs@ != exited_seq(code) by {
                if cs@ == exited_seq(code) {
                    lemma_exited_shape(cs@, code);
                    lemma_resize_shape(cs@, c, w);
                    reveal_strlit("{\"resize\":[");
                    reveal_strlit("{\"exited\":");
                }
            }
            assert forall|c2: u16, w2: u16| cs@ == resize_seq(c2, w2) implies ControlMsg::Resize(
                c,
                w,
            ) == ControlMsg::Resize(c2, w2) by {
                lemma_resize_shape(cs@, c, w);
                lemma_resize_shape(cs@, c2, w2);
                lemma_dec_str_canonical(c as nat);
                lemma_dec_str_canonical(c2 as nat);
                assert(digits_end(cs@, 11) == 11 + dec_str(c as nat).len());
                assert(num_val(cs@.subrange(11, digits_end(cs@, 11))) == c);
                assert(num_val(cs@.subrange(11, digits_end(cs@, 11))) == c2);
                assert(digits_end(cs@, 12 + dec_str(c as nat).len() as int) == digits_end(
                    cs@,
                    12 + dec_str(c2 as nat).len() as int,
                ));
            }
        }
        return ControlMsg::Resize(c, w);
    }
    if let Some(code) = try_exited(cs) {
        proof {
            assert(cs@ != kill_seq()) by {
                lemma_exited_shape(cs@, code);
                reveal_strlit("{\"exited\":");
                reveal_strlit("\"kill\"");
            }
            assert forall|code2: u32| cs@ == exited_seq(code2) implies ControlMsg::Exited(code)
                == ControlMsg::Exited(code2) by {
                lemma_exited_shape(cs@, code);
                lemma_exited_shape(cs@, code2);
            }
        }
        return ControlMsg::Exited(code);
    }
    proof {
        assert(cs@ != kill_seq()) by {
            reveal_strlit("\"kill\"");
            if cs@ == kill_seq() {
                assert(cs@.len() == 6);
                assert(cs@.subrange(0, 6) =~= cs@);
            }
        }
    }
    ControlMsg::Unknown
}

/// Whether the character is a decimal digit.
fn is_digit_exec(c: char) -> (r: bool)
    ensures
        r == is_digit(c),
{
    c >= '0' && c <= '9'
}

/// The value of a digit character.
fn digit_value_exec(c: char) -> (r: u8)
    requires
        is_digit(c),
    ensures
        r == digit_val(c),
        r < 10,
{
    proof {
        lemma_digit_le(c);
    }
    (c as u8) - 0x30
}

} // verus!
