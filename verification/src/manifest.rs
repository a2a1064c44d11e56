//! The per-repository manifest: `apphost` (required), `setup` commands and
//! `port_overrides`, read from a small line-based document. A top-level
//! `key:` line opens a block; indented lines belong to the block above
//! them. The first `apphost` line wins; unrecognised lines are skipped.

use vstd::prelude::*;

verus! {

use vstd::string::StringExecFns;
use crate::control::{canonical_num_at, digits_end, num_val};
use crate::errors::OrchestratorError;
use crate::models::OrchestratorConfig;
use crate::text::{chars_of, match_at, string_from_chars, sub_chars};
use crate::ui_state::trim_seq;

/// The position of the first colon at or after `j`, or the length.
pub open spec fn colon_end(s: Seq<char>, j: int) -> int
    decreases s.len() - j,
{
    if 0 <= j < s.len() && s[j] != ':' {
        colon_end(s, j + 1)
    } else {
        j
    }
}

/// The value of an `apphost:` line, with surrounding whitespace dropped.
pub open spec fn apphost_value(line: Seq<char>) -> Option<Seq<char>> {
    if match_at(line, "apphost:"@, 0) {
        Some(trim_seq(line.skip(8)))
    } else {
        None
    }
}

/// Whether a line opens the given block, as `key:` with nothing after it.
pub open spec fn opens_block(line: Seq<char>, key: Seq<char>) -> bool {
    match_at(line, key, 0) && trim_seq(line.skip(key.len() as int)).len() == 0
}

/// Whether a line is indented, so belongs to the block above it.
pub open spec fn indented(line: Seq<char>) -> bool {
    line.len() > 0 && (line[0] == ' ' || line[0] == '\t')
}

/// A setup item line: a dash-prefixed command, trimmed.
pub open spec fn setup_item(line: Seq<char>) -> Option<Seq<char>> {
    let t = trim_seq(line);
    if match_at(t, "- "@, 0) {
        Some(trim_seq(t.skip(2)))
    } else {
        None
    }
}

/// A port override line: `NAME: <port>` with a canonical port number.
pub open spec fn override_entry(line: Seq<char>) -> Option<(Seq<char>, u16)> {
    let t = trim_seq(line);
    let c = colon_end(t, 0);
    if 0 < c < t.len() {
        let key = trim_seq(t.subrange(0, c));
        let val = trim_seq(t.subrange(c + 1, t.len() as int));
        if key.len() > 0 && val.len() > 0 && digits_end(val, 0) == val.len()
            && canonical_num_at(val, 0) && num_val(val) <= 65535 {
            Some((key, (num_val(val) as u16)))
        } else {
            None
        }
    } else {
        None
    }
}

/// The manifest read from `lines[i..]` while inside block `block` (no
/// block, the setup list, or the port overrides): the first `apphost`
/// value, the setup commands in order, and the override pairs in order.
pub open spec fn manifest_of(lines: Seq<Seq<char>>, i: int, block: int) -> (
    Option<Seq<char>>,
    Seq<Seq<char>>,
    Seq<(Seq<char>, u16)>,
)
    decreases lines.len() - i,
{
    if i < 0 || i >= lines.len() {
        (None, Seq::empty(), Seq::empty())
    } else {
        let line = lines[i];
        if indented(line) {
            let r = manifest_of(lines, i + 1, block);
            if block == 1 {
                match setup_item(line) {
                    Some(cmd) => (r.0, seq![cmd] + r.1, r.2),
                    None => r,
                }
            } else if block == 2 {
                match override_entry(line) {
                    Some(kv) => (r.0, r.1, seq![kv] + r.2),
                    None => r,
                }
            } else {
                r
            }
        } else if apphost_value(line) is Some {
            let r = manifest_of(lines, i + 1, 0);
            (Some(apphost_value(line)->0), r.1, r.2)
        } else if opens_block(line, "setup:"@) {
            manifest_of(lines, i + 1, 1)
        } else if opens_block(line, "port_overrides:"@) {
            manifest_of(lines, i + 1, 2)
        } else {
            manifest_of(lines, i + 1, 0)
        }
    }
}

/// Parse the manifest text. Succeeds exactly when an `apphost` line with a
/// non-empty value is present; the error names the missing field. Lines
/// that match no recognised key are passed over rather than rejected, so
/// a file with extra keys still loads.
pub fn parse_manifest(text: &str) -> (r: Result<OrchestratorConfig, OrchestratorError>)
    ensures
        ({
            let m = manifest_of(crate::logs::split_lines(text@), 0, 0);
            match r {
                Ok(c) => {
                    &&& m.0 matches Some(a) && a == c.apphost@ && a.len() > 0
                    &&& c.setup@.map_values(|s: String| s@) == m.1
                    &&& c.port_overrides@.map_values(|p: (String, u16)| (p.0@, p.1)) == m.2
                },
                Err(e) => {
                    &&& e is InvalidConfig
                    &&& (m.0 is None || m.0->0.len() == 0)
                },
            }
        }),
{
    proof {
        reveal_strlit("apphost:");
        reveal_strlit("setup:");
        reveal_strlit("port_overrides:");
        reveal_strlit("- ");
    }
    let lines = crate::logs::split_lines_vec(text);
    let ghost lseq = crate::logs::split_lines(text@);
    let n = lines.len();
    let mut apphost: Option<String> = None;
    let mut setup: Vec<String> = Vec::new();
    let mut overrides: Vec<(String, u16)> = Vec::new();
    let mut block: usize = 0;
    let mut i: usize = 0;
    while i < n
        invariant
            i <= n,
            n == lseq.len(),
            lines@.map_values(|s: String| s@) == lseq,
            block <= 2,
            ({
                let full = manifest_of(lseq, 0, 0);
                let rest = manifest_of(lseq, i as int, block as int);
                &&& full.0 == (match apphost {
                    Some(a) => Some(a@),
                    None => rest.0,
                })
                &&& full.1 == setup@.map_values(|s: String| s@) + rest.1
                &&& full.2 == overrides@.map_values(|p: (String, u16)| (p.0@, p.1)) + rest.2
            }),
        decreases n - i,
    {
        let line = chars_of(lines[i].as_str());
        proof {
            assert(line@ == lseq[i as int]);
        }
        let ghost rest_pre = manifest_of(lseq, i as int, block as int);
        if is_indented(&line) {
            if block == 1 {
                match setup_item_exec(&line) {
                    Some(cmd) => {
                        let ghost pre = setup@.map_values(|s: String| s@);
                        setup.push(cmd);
                        proof {
                            assert(setup@.map_values(|s: String| s@) =~= pre + seq![
                                setup_item(line@)->0,
                            ]);
                            assert(pre + (seq![setup_item(line@)->0] + manifest_of(
                                lseq,
                                i + 1,
                                1,
                            ).1) =~= (pre + seq![setup_item(line@)->0]) + manifest_of(
                                lseq,
                                i + 1,
                                1,
                            ).1);
                        }
                    },
                    None => {},
                }
            } else if block == 2 {
                match override_entry_exec(&line) {
                    Some(kv) => {
                        let ghost pre = overrides@.map_values(|p: (String, u16)| (p.0@, p.1));
                        let ghost kvv = (kv.0@, kv.1);
                        overrides.push(kv);
                        proof {
                            assert(overrides@.map_values(|p: (String, u16)| (p.0@, p.1)) =~= pre
                                + seq![kvv]);
                            assert(pre + (seq![kvv] + manifest_of(lseq, i + 1, 2).2) =~= (pre
                                + seq![kvv]) + manifest_of(lseq, i + 1, 2).2);
                        }
                    },
                    None => {},
                }
            }
        } else if let Some(value) = apphost_value_exec(&line) {
            if apphost.is_none() {
                apphost = Some(value);
            }
            block = 0;
        } else if opens_block_exec(&line, "setup:") {
            block = 1;
        } else if opens_block_exec(&line, "port_overrides:") {
            block = 2;
        } else {
            block = 0;
        }
        i += 1;
    }
    proof {
        assert(manifest_of(lseq, n as int, block as int) == (
            None::<Seq<char>>,
            Seq::<Seq<char>>::empty(),
            Seq::<(Seq<char>, u16)>::empty(),
        ));
        assert(setup@.map_values(|s: String| s@) + Seq::<Seq<char>>::empty() =~= setup@.map_values(
            |s: String| s@,
        ));
        assert(overrides@.map_values(|p: (String, u16)| (p.0@, p.1)) + Seq::<
            (Seq<char>, u16),
        >::empty() =~= overrides@.map_values(|p: (String, u16)| (p.0@, p.1)));
    }
    match apphost {
        Some(a) => {
            if a.as_str().is_empty() {
                return Err(
                    OrchestratorError::InvalidConfig(
                        String::from_str("apphost field is required"),
                    ),
                );
            }
            Ok(OrchestratorConfig { apphost: a, setup, port_overrides: overrides })
        },
        None => Err(
            OrchestratorError::InvalidConfig(String::from_str("apphost field is required")),
        ),
    }
}

/// Whether the line starts with horizontal space.
fn is_indented(line: &Vec<char>) -> (r: bool)
    ensures
        r == indented(line@),
{
    line.len() > 0 && (line[0] == ' ' || line[0] == '\t')
}

/// The `apphost` value of the line, if it carries one.
fn apphost_value_exec(line: &Vec<char>) -> (r: Option<String>)
    ensures
        (r matches Some(v) ==> apphost_value(line@) == Some(v@)),
        r is None ==> apphost_value(line@) is None,
{
    proof {
        reveal_strlit("apphost:");
    }
    let key = chars_of("apphost:");
    if key.len() <= line.len() && crate::text::is_match_at(line, &key, 0) {
        let rest = sub_chars(line, 8, line.len());
        let t = trim_chars(&rest);
        proof {
            assert(rest@ =~= line@.skip(8));
        }
        Some(string_from_chars(&t))
    } else {
        None
    }
}

/// Whether the line opens the named block.
fn opens_block_exec(line: &Vec<char>, key: &str) -> (r: bool)
    ensures
        r == opens_block(line@, key@),
{
    let kv = chars_of(key);
    if kv.len() <= line.len() && crate::text::is_match_at(line, &kv, 0) {
        let rest = sub_chars(line, kv.len(), line.len());
        let t = trim_chars(&rest);
        proof {
            assert(rest@ =~= line@.skip(key@.len() as int));
        }
        t.len() == 0
    } else {
        false
    }
}

/// The setup command of an item line, if it is one.
fn setup_item_exec(line: &Vec<char>) -> (r: Option<String>)
    ensures
        (r matches Some(v) ==> setup_item(line@) == Some(v@)),
        r is None ==> setup_item(line@) is None,
{
    proof {
        reveal_strlit("- ");
    }
    let t = trim_chars(line);
    let dash = chars_of("- ");
    if dash.len() <= t.len() && crate::text::is_match_at(&t, &dash, 0) {
        let rest = sub_chars(&t, 2, t.len());
        let tt = trim_chars(&rest);
        proof {
            assert(rest@ =~= trim_seq(line@).skip(2));
        }
        Some(string_from_chars(&tt))
    } else {
        None
    }
}

/// The override pair of an indented `NAME: port` line, if it is one.
fn override_entry_exec(line: &Vec<char>) -> (r: Option<(String, u16)>)
    ensures
        (r matches Some(kv) ==> override_entry(line@) == Some((kv.0@, kv.1))),
        r is None ==> override_entry(line@) is None,
{
    let t = trim_chars(line);
    let n = t.len();
    let mut c: usize = 0;
    while c < n && t[c] != ':'
        invariant
            c <= n,
            n == t@.len(),
            colon_end(t@, 0) == colon_end(t@, c as int),
        decreases n - c,
    {
        c += 1;
    }
    assert(colon_end(t@, 0) == c);
    if c == 0 || c >= n {
        return None;
    }
    let keypart = sub_chars(&t, 0, c);
    let key = trim_chars(&keypart);
    let valpart = sub_chars(&t, c + 1, n);
    let val = trim_chars(&valpart);
    if key.len() == 0 || val.len() == 0 {
        return None;
    }
    match crate::control::parse_num_at(&val, 0, 65535) {
        Some((value, e)) => {
            if e == val.len() {
                proof {
                    assert(val@.subrange(0, e as int) =~= val@);
                }
                let ks = string_from_chars(&key);
                Some((ks, (value as u16)))
            } else {
                None
            }
        },
        None => {
            proof {
                if digits_end(val@, 0) == val@.len() {
                    assert(val@.subrange(0, digits_end(val@, 0)) =~= val@);
                }
            }
            None
        },
    }
}

/// The line with surrounding whitespace dropped.
fn trim_chars(v: &Vec<char>) -> (r: Vec<char>)
    ensures
        r@ == trim_seq(v@),
{
    let s = string_from_chars(v);
    let t = crate::ui_state::trim(s.as_str());
    chars_of(t.as_str())
}

} // verus!
