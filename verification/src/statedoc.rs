//! The persisted slot registry document: a self-describing JSON array with
//! camel-case field names, rendered and read back by the library itself.
//! Timestamps are integer milliseconds. The writer renders one canonical
//! document per registry; the reader accepts a document only if it is the
//! canonical rendering of the registry it returns, so anything it hands
//! back is exactly what some `save` wrote. The price of that guarantee is
//! that a reformatted document — the same data with extra whitespace, or
//! pretty-printed — is reported as corrupt rather than read.

use vstd::prelude::*;

verus! {

use vstd::string::StringExecFns;
use vstd::string::StrSliceExecFns;
use crate::errors::OrchestratorError;
use crate::models::{AgentStatus, DiscoveredServices, PortAllocation, Slot, SlotStatus};
use crate::text::{chars_of, dec_str, dec_string, join_sep, string_from_chars};

/// One string character as the document escapes it.
pub open spec fn esc_char(c: char) -> Seq<char> {
    if c == '\\' {
        seq!['\\', '\\']
    } else if c == '"' {
        seq!['\\', '"']
    } else if c == '\n' {
        seq!['\\', 'n']
    } else if c == '\r' {
        seq!['\\', 'r']
    } else if c == '\t' {
        seq!['\\', 't']
    } else {
        seq![c]
    }
}

/// A whole string escaped.
pub open spec fn esc_seq(s: Seq<char>) -> Seq<char>
    decreases s.len(),
{
    if s.len() == 0 {
        Seq::empty()
    } else {
        esc_seq(s.drop_last()) + esc_char(s.last())
    }
}

/// A quoted, escaped string value.
pub open spec fn jstr(s: Seq<char>) -> Seq<char> {
    seq!['"'] + esc_seq(s) + seq!['"']
}

/// A signed integer value.
pub open spec fn jint(v: i64) -> Seq<char> {
    if v >= 0 {
        dec_str(v as nat)
    } else {
        seq!['-'] + dec_str((-(v as int)) as nat)
    }
}

/// The document word for a slot lifecycle state.
pub open spec fn status_word(s: SlotStatus) -> Seq<char> {
    match s {
        SlotStatus::Provisioning => "provisioning"@,
        SlotStatus::Ready => "ready"@,
        SlotStatus::Starting => "starting"@,
        SlotStatus::Running => "running"@,
        SlotStatus::Stopping => "stopping"@,
        SlotStatus::Error => "error"@,
    }
}

/// The document word for an agent lifecycle state.
pub open spec fn agent_word(s: AgentStatus) -> Seq<char> {
    match s {
        AgentStatus::Inactive => "none"@,
        AgentStatus::Starting => "starting"@,
        AgentStatus::Active => "active"@,
        AgentStatus::Blocked => "blocked"@,
        AgentStatus::Stopped => "stopped"@,
    }
}

/// One port allocation object.
pub open spec fn alloc_json(a: PortAllocation) -> Seq<char> {
    "{\"name\":"@ + jstr(a.name@) + ",\"port\":"@ + dec_str(a.port as nat) + "}"@
}

/// The discovered-services object.
pub open spec fn services_json(s: DiscoveredServices) -> Seq<char> {
    "{"@ + (match s.dashboard_url {
        Some(u) => "\"dashboardUrl\":"@ + jstr(u@) + ","@,
        None => Seq::empty(),
    }) + "\"serviceUrls\":{"@ + join_sep(
        s.service_urls@.map_values(|p: (String, String)| jstr(p.0@) + ":"@ + jstr(p.1@)),
        ","@,
    ) + "}}"@
}

/// An optional trailing timestamp field.
pub open spec fn opt_ts_json(label: Seq<char>, v: Option<i64>) -> Seq<char> {
    match v {
        Some(t) => ","@ + label + jint(t),
        None => Seq::empty(),
    }
}

/// The identifying fields of a slot object, up to the allocation list.
pub open spec fn slot_head_json(s: Slot) -> Seq<char> {
    "{\"name\":"@ + jstr(s.name@) + ",\"repoPath\":"@ + jstr(s.repo_path@) + ",\"branch\":"@
        + jstr(s.branch@) + ",\"clonePath\":"@ + jstr(s.clone_path@) + ",\"status\":\""@
        + status_word(s.status) + "\",\"agentStatus\":\""@ + agent_word(s.agent_status) + "\""@
        + ",\"portAllocations\":["@
}

/// The timestamp fields of a slot object, and its closing brace.
pub open spec fn slot_tail_json(s: Slot) -> Seq<char> {
    ",\"createdAt\":"@ + jint(s.created_at) + opt_ts_json(
        "\"aspireStartedAt\":"@,
        s.aspire_started_at,
    ) + opt_ts_json("\"agentStartedAt\":"@, s.agent_started_at) + opt_ts_json(
        "\"lastAgentOutputAt\":"@,
        s.last_agent_output_at,
    ) + "}"@
}

/// One slot object.
pub open spec fn slot_json(s: Slot) -> Seq<char> {
    slot_head_json(s) + join_sep(
        s.port_allocations@.map_values(|a: PortAllocation| alloc_json(a)),
        ","@,
    ) + "],\"services\":"@ + services_json(s.services) + slot_tail_json(s)
}

/// The whole registry document.
pub open spec fn state_json(slots: Seq<Slot>) -> Seq<char> {
    "["@ + join_sep(slots.map_values(|s: Slot| slot_json(s)), ","@) + "]"@
}

/// Append a quoted, escaped string value.
pub(crate) fn push_jstr(out: &mut String, s: &str)
    ensures
        final(out)@ == old(out)@ + jstr(s@),
{
    out.append("\"");
    let cs = chars_of(s);
    let n = cs.len();
    let mut esc: Vec<char> = Vec::new();
    let mut i: usize = 0;
    while i < n
        invariant
            i <= n,
            n == cs@.len(),
            esc@ == esc_seq(cs@.subrange(0, i as int)),
        decreases n - i,
    {
        let c = cs[i];
        let ghost pre = esc@;
        if c == '\\' {
            esc.push('\\');
            esc.push('\\');
        } else if c == '"' {
            esc.push('\\');
            esc.push('"');
        } else if c == '\n' {
            esc.push('\\');
            esc.push('n');
        } else if c == '\r' {
            esc.push('\\');
            esc.push('r');
        } else if c == '\t' {
            esc.push('\\');
            esc.push('t');
        } else {
            esc.push(c);
        }
        proof {
            assert(esc@ =~= pre + esc_char(c));
            assert(cs@.subrange(0, i + 1).drop_last() =~= cs@.subrange(0, i as int));
            assert(cs@.subrange(0, i + 1).last() == c);
        }
        i += 1;
    }
    assert(cs@.subrange(0, n as int) =~= cs@);
    let es = string_from_chars(&esc);
    out.append(es.as_str());
    out.append("\"");
    proof {
        assert(old(out)@ + jstr(s@) =~= ((old(out)@ + seq!['"']) + esc_seq(s@)) + seq!['"']);
        assert(seq!['"'] =~= "\""@) by {
            reveal_strlit("\"");
        }
    }
}

/// Append a signed integer value.
fn push_jint(out: &mut String, v: i64)
    ensures
        final(out)@ == old(out)@ + jint(v),
{
    if v >= 0 {
        let d = dec_string(v as u64);
        out.append(d.as_str());
    } else {
        out.append("-");
        let m: u64 = if v == i64::MIN {
            9223372036854775808u64
        } else {
            (-v) as u64
        };
        proof {
            assert(m as nat == (-(v as int)) as nat);
        }
        let d = dec_string(m);
        out.append(d.as_str());
        proof {
            assert(seq!['-'] =~= "-"@) by {
                reveal_strlit("-");
            }
            assert(old(out)@ + jint(v) =~= (old(out)@ + seq!['-']) + dec_str(
                (-(v as int)) as nat,
            ));
        }
    }
}

/// Render the registry document.
pub fn emit_state(slots: &Vec<Slot>) -> (r: String)
    ensures
        r@ == state_json(slots@),
{
    let mut out = String::from_str("[");
    let n = slots.len();
    let mut i: usize = 0;
    while i < n
        invariant
            i <= n,
            n == slots@.len(),
            out@ == "["@ + join_sep(
                slots@.subrange(0, i as int).map_values(|s: Slot| slot_json(s)),
                ","@,
            ),
        decreases n - i,
    {
        if i > 0 {
            out.append(",");
        }
        let ghost before = out@;
        push_slot(&mut out, &slots[i]);
        proof {
            let pre = slots@.subrange(0, i as int).map_values(|s: Slot| slot_json(s));
            let cur = slots@.subrange(0, i + 1).map_values(|s: Slot| slot_json(s));
            assert(cur.drop_last() =~= pre);
            assert(cur.last() == slot_json(slots@[i as int]));
            if i == 0 {
                assert(join_sep(cur, ","@) == cur[0]);
                assert(out@ =~= "["@ + join_sep(cur, ","@));
            } else {
                assert(seq![','] =~= ","@) by {
                    reveal_strlit(",");
                }
                assert(out@ =~= "["@ + join_sep(cur, ","@));
            }
        }
        i += 1;
    }
    proof {
        assert(slots@.subrange(0, n as int) =~= slots@);
    }
    out.append("]");
    out
}

/// Append one slot object.
fn push_slot(out: &mut String, s: &Slot)
    ensures
        final(out)@ == old(out)@ + slot_json(*s),
{
    push_slot_head(out, s);
    let ghost alloc_mark = out@;
    push_allocs(out, s);
    out.append("],\"services\":");
    push_services(out, &s.services);
    let ghost services_done = out@;
    push_slot_tail(out, s);
    proof {
        assert(out@ =~= old(out)@ + slot_json(*s));
    }
}

/// Append the identifying fields of a slot object.
fn push_slot_head(out: &mut String, s: &Slot)
    ensures
        final(out)@ == old(out)@ + slot_head_json(*s),
{
    out.append("{\"name\":");
    push_jstr(out, s.name.as_str());
    out.append(",\"repoPath\":");
    push_jstr(out, s.repo_path.as_str());
    out.append(",\"branch\":");
    push_jstr(out, s.branch.as_str());
    out.append(",\"clonePath\":");
    push_jstr(out, s.clone_path.as_str());
    out.append(",\"status\":\"");
    out.append(status_text(s.status));
    out.append("\",\"agentStatus\":\"");
    out.append(agent_text(s.agent_status));
    out.append("\"");
    out.append(",\"portAllocations\":[");
}

/// The document word for a slot lifecycle state, as text.
fn status_text(s: SlotStatus) -> (r: &'static str)
    ensures
        r@ == status_word(s),
{
    match s {
        SlotStatus::Provisioning => "provisioning",
        SlotStatus::Ready => "ready",
        SlotStatus::Starting => "starting",
        SlotStatus::Running => "running",
        SlotStatus::Stopping => "stopping",
        SlotStatus::Error => "error",
    }
}

/// The document word for an agent lifecycle state, as text.
fn agent_text(s: AgentStatus) -> (r: &'static str)
    ensures
        r@ == agent_word(s),
{
    match s {
        AgentStatus::Inactive => "none",
        AgentStatus::Starting => "starting",
        AgentStatus::Active => "active",
        AgentStatus::Blocked => "blocked",
        AgentStatus::Stopped => "stopped",
    }
}

/// Append the joined allocation objects of a slot.
fn push_allocs(out: &mut String, s: &Slot)
    ensures
        final(out)@ == old(out)@ + join_sep(
            s.port_allocations@.map_values(|a: PortAllocation| alloc_json(a)),
            ","@,
        ),
{
    let ghost alloc_mark = out@;
    let n = s.port_allocations.len();
    let mut i: usize = 0;
    while i < n
        invariant
            i <= n,
            n == s.port_allocations@.len(),
            out@ == alloc_mark + join_sep(
                s.port_allocations@.subrange(0, i as int).map_values(
                    |a: PortAllocation| alloc_json(a),
                ),
                ","@,
            ),
        decreases n - i,
    {
        if i > 0 {
            out.append(",");
        }
        out.append("{\"name\":");
        push_jstr(out, s.port_allocations[i].name.as_str());
        out.append(",\"port\":");
        let d = dec_string(s.port_allocations[i].port as u64);
        out.append(d.as_str());
        out.append("}");
        proof {
            let pre = s.port_allocations@.subrange(0, i as int).map_values(
                |a: PortAllocation| alloc_json(a),
            );
            let cur = s.port_allocations@.subrange(0, i + 1).map_values(
                |a: PortAllocation| alloc_json(a),
            );
            assert(cur.drop_last() =~= pre);
            assert(cur.last() == alloc_json(s.port_allocations@[i as int]));
            assert(seq![','] =~= ","@) by {
                reveal_strlit(",");
            }
            assert(out@ =~= alloc_mark + join_sep(cur, ","@));
        }
        i += 1;
    }
    proof {
        assert(s.port_allocations@.subrange(0, n as int) =~= s.port_allocations@);
    }
}

/// Append the discovered-services object.
fn push_services(out: &mut String, sv: &DiscoveredServices)
    ensures
        final(out)@ == old(out)@ + services_json(*sv),
{
    out.append("{");
    match &sv.dashboard_url {
        Some(u) => {
            out.append("\"dashboardUrl\":");
            push_jstr(out, u.as_str());
            out.append(",");
        },
        None => {},
    }
    out.append("\"serviceUrls\":{");
    let ghost svc_mark = out@;
    let m = sv.service_urls.len();
    let mut j: usize = 0;
    while j < m
        invariant
            j <= m,
            m == sv.service_urls@.len(),
            out@ == svc_mark + join_sep(
                sv.service_urls@.subrange(0, j as int).map_values(
                    |p: (String, String)| jstr(p.0@) + ":"@ + jstr(p.1@),
                ),
                ","@,
            ),
        decreases m - j,
    {
        if j > 0 {
            out.append(",");
        }
        push_jstr(out, sv.service_urls[j].0.as_str());
        out.append(":");
        push_jstr(out, sv.service_urls[j].1.as_str());
        proof {
            let pre = sv.service_urls@.subrange(0, j as int).map_values(
                |p: (String, String)| jstr(p.0@) + ":"@ + jstr(p.1@),
            );
            let cur = sv.service_urls@.subrange(0, j + 1).map_values(
                |p: (String, String)| jstr(p.0@) + ":"@ + jstr(p.1@),
            );
            assert(cur.drop_last() =~= pre);
            assert(cur.last() == jstr(sv.service_urls@[j as int].0@) + ":"@ + jstr(
                sv.service_urls@[j as int].1@,
            ));
            assert(seq![','] =~= ","@) by {
                reveal_strlit(",");
            }
            assert(out@ =~= svc_mark + join_sep(cur, ","@));
        }
        j += 1;
    }
    proof {
        assert(sv.service_urls@.subrange(0, m as int) =~= sv.service_urls@);
    }
    out.append("}}");
    proof {
        assert(out@ =~= old(out)@ + services_json(*sv));
    }
}

/// Append the timestamp fields and the closing brace of a slot object.
#[verifier::rlimit(100)]
fn push_slot_tail(out: &mut String, s: &Slot)
    ensures
        final(out)@ == old(out)@ + slot_tail_json(*s),
{
    out.append(",\"createdAt\":");
    push_jint(out, s.created_at);
    let ghost created_mark = out@;
    match s.aspire_started_at {
        Some(t) => {
            out.append(",\"aspireStartedAt\":");
            push_jint(out, t);
        },
        None => {},
    }
    proof {
        assert(out@ =~= created_mark + opt_ts_json("\"aspireStartedAt\":"@, s.aspire_started_at))
            by {
            if s.aspire_started_at is Some {
                assert(",\"aspireStartedAt\":"@ =~= ","@ + "\"aspireStartedAt\":"@) by {
                    reveal_strlit(",\"aspireStartedAt\":");
                    reveal_strlit(",");
                    reveal_strlit("\"aspireStartedAt\":");
                }
            }
        }
    }
    let ghost m1 = out@;
    match s.agent_started_at {
        Some(t) => {
            out.append(",\"agentStartedAt\":");
            push_jint(out, t);
        },
        None => {},
    }
    proof {
        assert(out@ =~= m1 + opt_ts_json("\"agentStartedAt\":"@, s.agent_started_at)) by {
            if s.agent_started_at is Some {
                assert(",\"agentStartedAt\":"@ =~= ","@ + "\"agentStartedAt\":"@) by {
                    reveal_strlit(",\"agentStartedAt\":");
                    reveal_strlit(",");
                    reveal_strlit("\"agentStartedAt\":");
                }
            }
        }
    }
    let ghost m2 = out@;
    match s.last_agent_output_at {
        Some(t) => {
            out.append(",\"lastAgentOutputAt\":");
            push_jint(out, t);
        },
        None => {},
    }
    proof {
        assert(out@ =~= m2 + opt_ts_json("\"lastAgentOutputAt\":"@, s.last_agent_output_at))
            by {
            if s.last_agent_output_at is Some {
                assert(",\"lastAgentOutputAt\":"@ =~= ","@ + "\"lastAgentOutputAt\":"@) by {
                    reveal_strlit(",\"lastAgentOutputAt\":");
                    reveal_strlit(",");
                    reveal_strlit("\"lastAgentOutputAt\":");
                }
            }
        }
    }
    out.append("}");
    proof {
        assert(out@ =~= old(out)@ + slot_tail_json(*s));
    }
}

/// Consume an exact literal at `pos`.
pub(crate) fn expect_lit(v: &Vec<char>, pos: usize, lit: &Vec<char>) -> (r: Option<usize>)
    requires
        pos <= v@.len(),
    ensures
        r matches Some(e) ==> e == pos + lit@.len() && e <= v@.len() && v@.subrange(
            pos as int,
            e as int,
        ) == lit@,
        r is None ==> !(pos + lit@.len() <= v@.len() && v@.subrange(
            pos as int,
            pos + lit@.len() as int,
        ) == lit@),
{
    if lit.len() <= v.len() - pos {
        if crate::text::is_match_at(v, lit, pos) {
            return Some(pos + lit.len());
        }
    }
    None
}

/// Escaped text never opens with a bare quote.
pub(crate) proof fn lemma_esc_no_quote_head(x: Seq<char>)
    requires
        x.len() > 0,
    ensures
        esc_seq(x).len() > 0,
        esc_seq(x)[0] != '"',
    decreases x.len(),
{
    if x.len() == 1 {
        assert(esc_seq(x) =~= esc_char(x[0]));
    } else {
        lemma_esc_no_quote_head(x.drop_last());
        assert(esc_seq(x)[0] == esc_seq(x.drop_last())[0]);
    }
}

/// Parse a quoted, escaped string at `pos`: the consumed text is exactly
/// the rendering of the returned string, and the rendering of the empty
/// string is always accepted.
pub(crate) fn parse_jstr(v: &Vec<char>, pos: usize) -> (r: Option<(String, usize)>)
    requires
        pos <= v@.len(),
    ensures
        r matches Some(t) ==> pos < t.1 <= v@.len() && v@.subrange(pos as int, t.1 as int)
            == jstr(t.0@),
        (pos + 2 <= v@.len() && v@[pos as int] == '"' && v@[pos + 1] == '"') ==> (r matches Some(
            t,
        ) && t.0@ == Seq::<char>::empty() && t.1 == pos + 2),
{
    let n = v.len();
    if pos >= n || v[pos] != '"' {
        return None;
    }
    let mut out: Vec<char> = Vec::new();
    let mut i: usize = pos + 1;
    while i < n
        invariant
            pos + 1 <= i <= n,
            n == v@.len(),
            v@[pos as int] == '"',
            v@.subrange(pos + 1, i as int) == esc_seq(out@),
        decreases n - i,
    {
        let c = v[i];
        let ghost outpre = out@;
        if c == '"' {
            let rs = string_from_chars(&out);
            proof {
                assert(v@.subrange(pos as int, i + 1) =~= seq!['"'] + esc_seq(outpre) + seq![
                    '"',
                ]);
                if pos + 2 <= v@.len() && v@[pos as int] == '"' && v@[pos + 1] == '"' {
                    if i > pos + 1 {
                        assert(out@.len() > 0) by {
                            if out@.len() == 0 {
                                assert(esc_seq(out@) =~= Seq::<char>::empty());
                            }
                        }
                        lemma_esc_no_quote_head(out@);
                        assert(esc_seq(out@)[0] == v@[pos + 1]);
                        assert(false);
                    }
                    assert(i == pos + 1);
                    assert(out@.len() == 0) by {
                        if out@.len() > 0 {
                            lemma_esc_no_quote_head(out@);
                        }
                    }
                }
            }
            return Some((rs, i + 1));
        } else if c == '\\' {
            if i + 1 >= n {
                proof {
                if pos + 2 <= v@.len() && v@[pos as int] == '"' && v@[pos + 1] == '"' {
                    if i > pos + 1 {
                        assert(out@.len() > 0) by {
                            if out@.len() == 0 {
                                assert(esc_seq(out@) =~= Seq::<char>::empty());
                            }
                        }
                        lemma_esc_no_quote_head(out@);
                        assert(esc_seq(out@)[0] == v@[pos + 1]);
                    }
                    assert(false);
                }
                }
                return None;
            }
            let e = v[i + 1];
            if e == 'n' {
                out.push('\n');
            } else if e == 'r' {
                out.push('\r');
            } else if e == 't' {
                out.push('\t');
            } else if e == '\\' {
                out.push('\\');
            } else if e == '"' {
                out.push('"');
            } else {
                proof {
                if pos + 2 <= v@.len() && v@[pos as int] == '"' && v@[pos + 1] == '"' {
                    if i > pos + 1 {
                        assert(out@.len() > 0) by {
                            if out@.len() == 0 {
                                assert(esc_seq(out@) =~= Seq::<char>::empty());
                            }
                        }
                        lemma_esc_no_quote_head(out@);
                        assert(esc_seq(out@)[0] == v@[pos + 1]);
                    }
                    assert(false);
                }
                }
                return None;
            }
            proof {
                assert(esc_seq(out@) =~= esc_seq(outpre) + esc_char(out@.last())) by {
                    assert(out@.drop_last() =~= outpre);
                }
                assert(v@.subrange(pos + 1, i + 2) =~= esc_seq(out@));
            }
            i += 2;
        } else if c == '\n' || c == '\r' || c == '\t' {
            proof {
                if pos + 2 <= v@.len() && v@[pos as int] == '"' && v@[pos + 1] == '"' {
                    if i > pos + 1 {
                        assert(out@.len() > 0) by {
                            if out@.len() == 0 {
                                assert(esc_seq(out@) =~= Seq::<char>::empty());
                            }
                        }
                        lemma_esc_no_quote_head(out@);
                        assert(esc_seq(out@)[0] == v@[pos + 1]);
                    }
                    assert(false);
                }
            }
            return None;
        } else {
            out.push(c);
            proof {
                assert(esc_seq(out@) =~= esc_seq(outpre) + esc_char(c)) by {
                    assert(out@.drop_last() =~= outpre);
                    assert(out@.last() == c);
                }
                assert(esc_char(c) =~= seq![c]);
                assert(v@.subrange(pos + 1, i + 1) =~= esc_seq(out@));
            }
            i += 1;
        }
    }
    proof {
                if pos + 2 <= v@.len() && v@[pos as int] == '"' && v@[pos + 1] == '"' {
                    if i > pos + 1 {
                        assert(out@.len() > 0) by {
                            if out@.len() == 0 {
                                assert(esc_seq(out@) =~= Seq::<char>::empty());
                            }
                        }
                        lemma_esc_no_quote_head(out@);
                        assert(esc_seq(out@)[0] == v@[pos + 1]);
                    }
                    assert(false);
                }
    }
    None
}

/// Parse a signed integer at `pos`: the consumed text is exactly the
/// rendering of the returned value.
fn parse_jint(v: &Vec<char>, pos: usize) -> (r: Option<(i64, usize)>)
    requires
        pos <= v@.len(),
    ensures
        r matches Some(t) ==> pos < t.1 <= v@.len() && v@.subrange(pos as int, t.1 as int)
            == jint(t.0),
{
    let n = v.len();
    if pos < n && v[pos] == '-' {
        match crate::control::parse_num_at(v, pos + 1, 9223372036854775808u64) {
            Some((val, e)) => {
                if val == 0 {
                    return None;
                }
                let r: i64 = if val == 9223372036854775808u64 {
                    i64::MIN
                } else {
                    -(val as i64)
                };
                proof {
                    let d = v@.subrange(pos + 1, e as int);
                    crate::control::lemma_digits_end_run(v@, pos + 1);
                    assert(forall|q: int|
                        0 <= q < d.len() ==> crate::control::is_digit(#[trigger] d[q]));
                    crate::control::lemma_num_canonical_inj(d);
                    assert(d == dec_str(val as nat));
                    assert((-(r as int)) as nat == val as nat);
                    assert(v@.subrange(pos as int, e as int) =~= seq!['-'] + d);
                }
                Some((r, e))
            },
            None => None,
        }
    } else {
        match crate::control::parse_num_at(v, pos, 9223372036854775807u64) {
            Some((val, e)) => {
                proof {
                    let d = v@.subrange(pos as int, e as int);
                    crate::control::lemma_digits_end_run(v@, pos as int);
                    assert(forall|q: int|
                        0 <= q < d.len() ==> crate::control::is_digit(#[trigger] d[q]));
                    crate::control::lemma_num_canonical_inj(d);
                    assert(d == dec_str(val as nat));
                }
                Some(((val as i64), e))
            },
            None => None,
        }
    }
}

/// Parse one port allocation object at `pos`.
fn parse_alloc(v: &Vec<char>, pos: usize) -> (r: Option<(PortAllocation, usize)>)
    requires
        pos <= v@.len(),
    ensures
        r matches Some(t) ==> pos < t.1 <= v@.len() && v@.subrange(pos as int, t.1 as int)
            == alloc_json(t.0),
{
    proof {
        reveal_strlit("{\"name\":");
        reveal_strlit(",\"port\":");
        reveal_strlit("}");
    }
    let l1 = chars_of("{\"name\":");
    let p1 = expect_lit(v, pos, &l1)?;
    let (name, p2) = parse_jstr(v, p1)?;
    let l2 = chars_of(",\"port\":");
    let p3 = expect_lit(v, p2, &l2)?;
    let (port, p4) = match crate::control::parse_num_at(v, p3, 65535) {
        Some(t) => t,
        None => {
            return None;
        },
    };
    let l3 = chars_of("}");
    let p5 = expect_lit(v, p4, &l3)?;
    proof {
        let d = v@.subrange(p3 as int, p4 as int);
        crate::control::lemma_digits_end_run(v@, p3 as int);
        assert(forall|q: int| 0 <= q < d.len() ==> crate::control::is_digit(#[trigger] d[q]));
        crate::control::lemma_num_canonical_inj(d);
        assert(d == dec_str(port as nat));
        assert(v@.subrange(pos as int, p5 as int) =~= alloc_json(
            PortAllocation { name: name, port: (port as u16) },
        ));
    }
    Some((PortAllocation { name, port: (port as u16) }, p5))
}

/// Parse a slot lifecycle word at `pos`.
fn parse_status(v: &Vec<char>, pos: usize) -> (r: Option<(SlotStatus, usize)>)
    requires
        pos <= v@.len(),
    ensures
        r matches Some(t) ==> t.1 <= v@.len() && pos <= t.1 && v@.subrange(pos as int, t.1 as int)
            == status_word(t.0),
{
    proof {
        reveal_strlit("provisioning");
        reveal_strlit("ready");
        reveal_strlit("starting");
        reveal_strlit("running");
        reveal_strlit("stopping");
        reveal_strlit("error");
    }
    let w1 = chars_of("provisioning");
    if let Some(e) = expect_lit(v, pos, &w1) {
        return Some((SlotStatus::Provisioning, e));
    }
    let w2 = chars_of("ready");
    if let Some(e) = expect_lit(v, pos, &w2) {
        return Some((SlotStatus::Ready, e));
    }
    let w3 = chars_of("starting");
    if let Some(e) = expect_lit(v, pos, &w3) {
        return Some((SlotStatus::Starting, e));
    }
    let w4 = chars_of("running");
    if let Some(e) = expect_lit(v, pos, &w4) {
        return Some((SlotStatus::Running, e));
    }
    let w5 = chars_of("stopping");
    if let Some(e) = expect_lit(v, pos, &w5) {
        return Some((SlotStatus::Stopping, e));
    }
    let w6 = chars_of("error");
    if let Some(e) = expect_lit(v, pos, &w6) {
        return Some((SlotStatus::Error, e));
    }
    None
}

/// Parse an agent lifecycle word at `pos`.
fn parse_agent_status(v: &Vec<char>, pos: usize) -> (r: Option<(AgentStatus, usize)>)
    requires
        pos <= v@.len(),
    ensures
        r matches Some(t) ==> t.1 <= v@.len() && pos <= t.1 && v@.subrange(pos as int, t.1 as int)
            == agent_word(t.0),
{
    proof {
        reveal_strlit("none");
        reveal_strlit("starting");
        reveal_strlit("active");
        reveal_strlit("blocked");
        reveal_strlit("stopped");
    }
    let w1 = chars_of("none");
    if let Some(e) = expect_lit(v, pos, &w1) {
        return Some((AgentStatus::Inactive, e));
    }
    let w2 = chars_of("starting");
    if let Some(e) = expect_lit(v, pos, &w2) {
        return Some((AgentStatus::Starting, e));
    }
    let w3 = chars_of("active");
    if let Some(e) = expect_lit(v, pos, &w3) {
        return Some((AgentStatus::Active, e));
    }
    let w4 = chars_of("blocked");
    if let Some(e) = expect_lit(v, pos, &w4) {
        return Some((AgentStatus::Blocked, e));
    }
    let w5 = chars_of("stopped");
    if let Some(e) = expect_lit(v, pos, &w5) {
        return Some((AgentStatus::Stopped, e));
    }
    None
}

/// Parse the discovered-services object at `pos`.
fn parse_services(v: &Vec<char>, pos: usize) -> (r: Option<(DiscoveredServices, usize)>)
    requires
        pos <= v@.len(),
    ensures
        r matches Some(t) ==> pos < t.1 <= v@.len() && v@.subrange(pos as int, t.1 as int)
            == services_json(t.0),
{
    proof {
        reveal_strlit("{");
        reveal_strlit("\"dashboardUrl\":");
        reveal_strlit(",");
        reveal_strlit("\"serviceUrls\":{");
        reveal_strlit(":");
        reveal_strlit("}}");
    }
    let lbrace = chars_of("{");
    let p0 = expect_lit(v, pos, &lbrace)?;
    let ldash = chars_of("\"dashboardUrl\":");
    let comma = chars_of(",");
    let mut dashboard_url: Option<String> = None;
    let mut p1 = p0;
    if let Some(pa) = expect_lit(v, p0, &ldash) {
        if let Some((u, pb)) = parse_jstr(v, pa) {
            if let Some(pc) = expect_lit(v, pb, &comma) {
                dashboard_url = Some(u);
                p1 = pc;
            } else {
                return None;
            }
        } else {
            return None;
        }
    }
    let lurls = chars_of("\"serviceUrls\":{");
    let p2 = expect_lit(v, p1, &lurls)?;
    let colon = chars_of(":");
    let rbraces = chars_of("}}");
    let mut service_urls: Vec<(String, String)> = Vec::new();
    let mut p = p2;
    let mut first = true;
    loop
        invariant
            pos < p0 <= p1 <= p2 <= p <= v@.len(),
            first ==> p == p2,
            (service_urls@.len() == 0) == first,
            v@.subrange(pos as int, p0 as int) == "{"@,
            v@.subrange(p0 as int, p1 as int) == (match dashboard_url {
                Some(u) => "\"dashboardUrl\":"@ + jstr(u@) + ","@,
                None => Seq::<char>::empty(),
            }),
            v@.subrange(p1 as int, p2 as int) == "\"serviceUrls\":{"@,
            v@.subrange(p2 as int, p as int) == join_sep(
                service_urls@.map_values(|q: (String, String)| jstr(q.0@) + ":"@ + jstr(q.1@)),
                ","@,
            ),
            colon@ == ":"@,
            comma@ == ","@,
            rbraces@ == "}}"@,
        decreases v@.len() - p,
    {
        if let Some(pe) = expect_lit(v, p, &rbraces) {
            proof {
                assert(v@.subrange(pos as int, p2 as int) =~= "{"@ + (match dashboard_url {
                    Some(u) => "\"dashboardUrl\":"@ + jstr(u@) + ","@,
                    None => Seq::<char>::empty(),
                }) + "\"serviceUrls\":{"@);
            }
            let result = DiscoveredServices { dashboard_url, service_urls };
            proof {
                assert(v@.subrange(pos as int, pe as int) =~= v@.subrange(pos as int, p2 as int)
                    + v@.subrange(p2 as int, p as int) + "}}"@);
                assert(v@.subrange(pos as int, pe as int) =~= services_json(result));
                assert(v@.subrange(pos as int, pe as int) == services_json(result));
                assert(pos < pe <= v@.len());
            }
            return Some((result, pe));
        }
        let mut q = p;
        if !first {
            match expect_lit(v, p, &comma) {
                Some(qq) => {
                    q = qq;
                },
                None => {
                    return None;
                },
            }
        }
        let (k, qa) = parse_jstr(v, q)?;
        let qb = expect_lit(v, qa, &colon)?;
        let (val, qc) = parse_jstr(v, qb)?;
        let ghost pre = service_urls@.map_values(
            |q: (String, String)| jstr(q.0@) + ":"@ + jstr(q.1@),
        );
        let ghost kv = (k@, val@);
        service_urls.push((k, val));
        proof {
            let cur = service_urls@.map_values(
                |q: (String, String)| jstr(q.0@) + ":"@ + jstr(q.1@),
            );
            assert(cur.drop_last() =~= pre);
            assert(cur.last() == jstr(kv.0) + ":"@ + jstr(kv.1));
            if cur.len() == 1 {
                assert(join_sep(cur, ","@) == cur[0]);
                assert(v@.subrange(p2 as int, qc as int) =~= join_sep(cur, ","@));
            } else {
                assert(join_sep(cur, ","@) == join_sep(pre, ","@) + ","@ + cur.last());
                assert(v@.subrange(p2 as int, qc as int) =~= join_sep(cur, ","@));
            }
        }
        if qc <= p {
            return None;
        }
        p = qc;
        first = false;
    }
}

/// Parse the identifying fields of a slot object at `pos`.
#[verifier::rlimit(100)]
fn parse_slot_fields(v: &Vec<char>, pos: usize) -> (r: Option<
    ((String, String, String, String, SlotStatus, AgentStatus), usize),
>)
    requires
        pos <= v@.len(),
    ensures
        r matches Some(t) ==> pos < t.1 <= v@.len() && v@.subrange(pos as int, t.1 as int)
            == "{\"name\":"@ + jstr(t.0.0@) + ",\"repoPath\":"@ + jstr(t.0.1@) + ",\"branch\":"@
            + jstr(t.0.2@) + ",\"clonePath\":"@ + jstr(t.0.3@) + ",\"status\":\""@ + status_word(
            t.0.4,
        ) + "\",\"agentStatus\":\""@ + agent_word(t.0.5) + "\""@ + ",\"portAllocations\":["@,
{
    proof {
        reveal_strlit("{\"name\":");
        reveal_strlit(",\"repoPath\":");
        reveal_strlit(",\"branch\":");
        reveal_strlit(",\"clonePath\":");
        reveal_strlit(",\"status\":\"");
        reveal_strlit("\",\"agentStatus\":\"");
        reveal_strlit("\"");
        reveal_strlit(",\"portAllocations\":[");
    }
    let l1 = chars_of("{\"name\":");
    let p1 = expect_lit(v, pos, &l1)?;
    let (name, p2) = parse_jstr(v, p1)?;
    let l2 = chars_of(",\"repoPath\":");
    let p3 = expect_lit(v, p2, &l2)?;
    let (repo_path, p4) = parse_jstr(v, p3)?;
    let l3 = chars_of(",\"branch\":");
    let p5 = expect_lit(v, p4, &l3)?;
    let (branch, p6) = parse_jstr(v, p5)?;
    let l4 = chars_of(",\"clonePath\":");
    let p7 = expect_lit(v, p6, &l4)?;
    let (clone_path, p8) = parse_jstr(v, p7)?;
    let l5 = chars_of(",\"status\":\"");
    let p9 = expect_lit(v, p8, &l5)?;
    let (status, p10) = parse_status(v, p9)?;
    let l6 = chars_of("\",\"agentStatus\":\"");
    let p11 = expect_lit(v, p10, &l6)?;
    let (agent_status, p12) = parse_agent_status(v, p11)?;
    let l7 = chars_of("\"");
    let p13 = expect_lit(v, p12, &l7)?;
    let l8 = chars_of(",\"portAllocations\":[");
    let p14 = expect_lit(v, p13, &l8)?;
    proof {
        assert(v@.subrange(pos as int, p4 as int) =~= "{\"name\":"@ + jstr(name@)
            + ",\"repoPath\":"@ + jstr(repo_path@));
        assert(v@.subrange(pos as int, p8 as int) =~= v@.subrange(pos as int, p4 as int)
            + ",\"branch\":"@ + jstr(branch@) + ",\"clonePath\":"@ + jstr(clone_path@));
        assert(v@.subrange(pos as int, p12 as int) =~= v@.subrange(pos as int, p8 as int)
            + ",\"status\":\""@ + status_word(status) + "\",\"agentStatus\":\""@ + agent_word(
            agent_status,
        ));
        assert(v@.subrange(pos as int, p14 as int) =~= v@.subrange(pos as int, p12 as int)
            + "\""@ + ",\"portAllocations\":["@);
        assert(v@.subrange(pos as int, p14 as int) =~= "{\"name\":"@ + jstr(name@)
            + ",\"repoPath\":"@ + jstr(repo_path@) + ",\"branch\":"@ + jstr(branch@)
            + ",\"clonePath\":"@ + jstr(clone_path@) + ",\"status\":\""@ + status_word(status)
            + "\",\"agentStatus\":\""@ + agent_word(agent_status) + "\""@
            + ",\"portAllocations\":["@);
    }
    Some(((name, repo_path, branch, clone_path, status, agent_status), p14))
}

/// Parse the joined allocation objects at `pos`, through the closing
/// bracket.
fn parse_allocs(v: &Vec<char>, pos: usize) -> (r: Option<(Vec<PortAllocation>, usize)>)
    requires
        pos <= v@.len(),
    ensures
        r matches Some(t) ==> pos < t.1 <= v@.len() && v@.subrange(pos as int, t.1 as int)
            == join_sep(t.0@.map_values(|a: PortAllocation| alloc_json(a)), ","@) + "]"@,
{
    proof {
        reveal_strlit(",");
        reveal_strlit("]");
    }
    let comma = chars_of(",");
    let rbracket = chars_of("]");
    let mut port_allocations: Vec<PortAllocation> = Vec::new();
    let mut p = pos;
    let mut first = true;
    loop
        invariant
            pos <= p <= v@.len(),
            first ==> p == pos,
            (port_allocations@.len() == 0) == first,
            v@.subrange(pos as int, p as int) == join_sep(
                port_allocations@.map_values(|a: PortAllocation| alloc_json(a)),
                ","@,
            ),
            comma@ == ","@,
            rbracket@ == "]"@,
        decreases v@.len() - p,
    {
        if let Some(pe) = expect_lit(v, p, &rbracket) {
            proof {
                reveal_strlit("]");
                assert(pe == p + 1);
                assert(v@.subrange(pos as int, pe as int) =~= join_sep(
                    port_allocations@.map_values(|a: PortAllocation| alloc_json(a)),
                    ","@,
                ) + "]"@);
                assert(v@.subrange(pos as int, pe as int) == join_sep(
                    port_allocations@.map_values(|a: PortAllocation| alloc_json(a)),
                    ","@,
                ) + "]"@);
                assert(pos < pe <= v@.len());
            }
            return Some((port_allocations, pe));
        }
        let mut q = p;
        if !first {
            match expect_lit(v, p, &comma) {
                Some(qq) => {
                    q = qq;
                },
                None => {
                    return None;
                },
            }
        }
        let (a, qa) = parse_alloc(v, q)?;
        let ghost pre = port_allocations@.map_values(|x: PortAllocation| alloc_json(x));
        let ghost av = a;
        port_allocations.push(a);
        proof {
            let cur = port_allocations@.map_values(|x: PortAllocation| alloc_json(x));
            assert(cur.drop_last() =~= pre);
            assert(cur.last() == alloc_json(av));
            if cur.len() == 1 {
                assert(join_sep(cur, ","@) == cur[0]);
                assert(v@.subrange(pos as int, qa as int) =~= join_sep(cur, ","@));
            } else {
                assert(join_sep(cur, ","@) == join_sep(pre, ","@) + ","@ + cur.last());
                assert(v@.subrange(pos as int, qa as int) =~= join_sep(cur, ","@));
            }
        }
        if qa <= p {
            return None;
        }
        p = qa;
        first = false;
    }
}

/// Parse the timestamp fields and closing brace of a slot object.
fn parse_slot_tail(v: &Vec<char>, pos: usize) -> (r: Option<
    ((i64, Option<i64>, Option<i64>, Option<i64>), usize),
>)
    requires
        pos <= v@.len(),
    ensures
        r matches Some(t) ==> pos < t.1 <= v@.len() && v@.subrange(pos as int, t.1 as int)
            == ",\"createdAt\":"@ + jint(t.0.0) + opt_ts_json(
            "\"aspireStartedAt\":"@,
            t.0.1,
        ) + opt_ts_json("\"agentStartedAt\":"@, t.0.2) + opt_ts_json(
            "\"lastAgentOutputAt\":"@,
            t.0.3,
        ) + "}"@,
{
    proof {
        reveal_strlit(",\"createdAt\":");
        reveal_strlit("}");
    }
    let l10 = chars_of(",\"createdAt\":");
    let p16 = expect_lit(v, pos, &l10)?;
    let (created_at, p17) = parse_jint(v, p16)?;
    let (aspire_started_at, p18) = parse_opt_ts(v, p17, "aspireStartedAt")?;
    let (agent_started_at, p19) = parse_opt_ts(v, p18, "agentStartedAt")?;
    let (last_agent_output_at, p20) = parse_opt_ts(v, p19, "lastAgentOutputAt")?;
    let l11 = chars_of("}");
    let p21 = expect_lit(v, p20, &l11)?;
    proof {
        assert("\"aspireStartedAt\":"@ =~= "\""@ + "aspireStartedAt"@ + "\":"@) by {
            reveal_strlit("\"aspireStartedAt\":");
            reveal_strlit("\"");
            reveal_strlit("aspireStartedAt");
            reveal_strlit("\":");
        }
        assert("\"agentStartedAt\":"@ =~= "\""@ + "agentStartedAt"@ + "\":"@) by {
            reveal_strlit("\"agentStartedAt\":");
            reveal_strlit("\"");
            reveal_strlit("agentStartedAt");
            reveal_strlit("\":");
        }
        assert("\"lastAgentOutputAt\":"@ =~= "\""@ + "lastAgentOutputAt"@ + "\":"@) by {
            reveal_strlit("\"lastAgentOutputAt\":");
            reveal_strlit("\"");
            reveal_strlit("lastAgentOutputAt");
            reveal_strlit("\":");
        }
        assert(v@.subrange(pos as int, p21 as int) =~= ",\"createdAt\":"@ + jint(created_at)
            + opt_ts_json("\"aspireStartedAt\":"@, aspire_started_at) + opt_ts_json(
            "\"agentStartedAt\":"@,
            agent_started_at,
        ) + opt_ts_json("\"lastAgentOutputAt\":"@, last_agent_output_at) + "}"@);
    }
    Some(((created_at, aspire_started_at, agent_started_at, last_agent_output_at), p21))
}

/// Parse one slot object at `pos`.
#[verifier::rlimit(100)]
fn parse_slot(v: &Vec<char>, pos: usize) -> (r: Option<(Slot, usize)>)
    requires
        pos <= v@.len(),
    ensures
        r matches Some(t) ==> pos < t.1 <= v@.len() && v@.subrange(pos as int, t.1 as int)
            == slot_json(t.0),
{
    let (fields, p14) = parse_slot_fields(v, pos)?;
    let (name, repo_path, branch, clone_path, status, agent_status) = fields;
    let (port_allocations, p15) = parse_allocs(v, p14)?;
    let lsvc = chars_of(",\"services\":");
    proof {
        reveal_strlit(",\"services\":");
    }
    let p16 = expect_lit(v, p15, &lsvc)?;
    let (services, p17) = parse_services(v, p16)?;
    let (tail, p21) = parse_slot_tail(v, p17)?;
    let (created_at, aspire_started_at, agent_started_at, last_agent_output_at) = tail;
    let slot = Slot {
        name,
        repo_path,
        branch,
        clone_path,
        status,
        agent_status,
        port_allocations,
        services,
        created_at,
        aspire_started_at,
        agent_started_at,
        last_agent_output_at,
    };
    proof {
        assert("],\"services\":"@ =~= "]"@ + ",\"services\":"@) by {
            reveal_strlit("],\"services\":");
            reveal_strlit("]");
            reveal_strlit(",\"services\":");
        }
        assert(v@.subrange(pos as int, p14 as int) =~= slot_head_json(slot));
        assert(v@.subrange(pos as int, p15 as int) =~= v@.subrange(pos as int, p14 as int)
            + v@.subrange(p14 as int, p15 as int));
        assert(v@.subrange(pos as int, p15 as int) =~= slot_head_json(slot) + (join_sep(
            slot.port_allocations@.map_values(|a: PortAllocation| alloc_json(a)),
            ","@,
        ) + "]"@));
        assert(v@.subrange(pos as int, p15 as int) =~= slot_head_json(slot) + join_sep(
            slot.port_allocations@.map_values(|a: PortAllocation| alloc_json(a)),
            ","@,
        ) + "]"@);
        assert(v@.subrange(pos as int, p17 as int) =~= v@.subrange(pos as int, p15 as int)
            + ",\"services\":"@ + services_json(slot.services));
        assert(v@.subrange(pos as int, p17 as int) =~= slot_head_json(slot) + join_sep(
            slot.port_allocations@.map_values(|a: PortAllocation| alloc_json(a)),
            ","@,
        ) + "],\"services\":"@ + services_json(slot.services));
        assert(v@.subrange(pos as int, p21 as int) =~= v@.subrange(pos as int, p17 as int)
            + slot_tail_json(slot));
        assert(v@.subrange(pos as int, p21 as int) =~= slot_json(slot));
    }
    Some((slot, p21))
}

/// Parse an optional trailing timestamp field with the given label.
fn parse_opt_ts(v: &Vec<char>, pos: usize, label: &str) -> (r: Option<(Option<i64>, usize)>)
    requires
        pos <= v@.len(),
    ensures
        r matches Some(t) ==> pos <= t.1 <= v@.len() && v@.subrange(pos as int, t.1 as int)
            == opt_ts_json("\""@ + label@ + "\":"@, t.0),
{
    proof {
        reveal_strlit(",\"");
        reveal_strlit("\":");
        reveal_strlit(",");
        reveal_strlit("\"");
    }
    let lead = chars_of(",\"");
    let mid = chars_of("\":");
    let labelv = chars_of(label);
    match expect_lit(v, pos, &lead) {
        Some(pa) => {
            match expect_lit(v, pa, &labelv) {
                Some(pb) => {
                    match expect_lit(v, pb, &mid) {
                        Some(pc) => {
                            let (t, pd) = parse_jint(v, pc)?;
                            proof {
                                assert(v@.subrange(pos as int, pd as int) =~= ","@ + ("\""@
                                    + label@ + "\":"@) + jint(t));
                            }
                            Some((Some(t), pd))
                        },
                        None => Some((None, pos)),
                    }
                },
                None => Some((None, pos)),
            }
        },
        None => Some((None, pos)),
    }
}

/// A joined list starts with its first part.
pub(crate) proof fn lemma_join_head(parts: Seq<Seq<char>>, sep: Seq<char>)
    requires
        parts.len() > 0,
        parts[0].len() > 0,
    ensures
        join_sep(parts, sep).len() >= parts[0].len(),
        forall|q: int|
            0 <= q < parts[0].len() ==> join_sep(parts, sep)[q] == parts[0][q],
    decreases parts.len(),
{
    if parts.len() == 1 {
    } else {
        lemma_join_head(parts.drop_last(), sep);
        assert(parts.drop_last()[0] == parts[0]);
    }
}

/// A slot object opens with a brace.
proof fn lemma_slot_json_head(s: Slot)
    ensures
        slot_json(s).len() > 0,
        slot_json(s)[0] == '{',
{
    reveal_strlit("{\"name\":");
    assert(slot_head_json(s)[0] == "{\"name\":"@[0]);
    assert(slot_json(s)[0] == slot_head_json(s)[0]);
}

/// The empty registry's document is the bare bracket pair.
proof fn lemma_state_json_empty()
    ensures
        state_json(Seq::<Slot>::empty()).len() == 2,
        state_json(Seq::<Slot>::empty())[0] == '[',
        state_json(Seq::<Slot>::empty())[1] == ']',
{
    reveal_strlit("[");
    reveal_strlit("]");
    let parts = Seq::<Slot>::empty().map_values(|s: Slot| slot_json(s));
    assert(parts =~= Seq::<Seq<char>>::empty());
    assert(join_sep(parts, ","@) == Seq::<char>::empty());
    assert(state_json(Seq::<Slot>::empty()) =~= "["@ + "]"@);
}

/// Insignificant whitespace in a document: blanks outside string values.
pub open spec fn json_ws(c: char) -> bool {
    c == ' ' || c == '\t' || c == '\n' || c == '\r'
}

/// The scanner state while removing whitespace: outside a string value,
/// inside one, or inside one just after a backslash.
pub open spec fn json_ws_next(st: int, c: char) -> int {
    if st == 0 {
        if c == '"' {
            1
        } else {
            0
        }
    } else if st == 1 {
        if c == '\\' {
            2
        } else if c == '"' {
            0
        } else {
            1
        }
    } else {
        1
    }
}

/// The text from position `i` on, with whitespace outside string values
/// removed.
pub open spec fn strip_from(s: Seq<char>, i: int, st: int) -> Seq<char>
    decreases s.len() - i when 0 <= i <= s.len()
{
    if i >= s.len() {
        Seq::empty()
    } else if st == 0 && json_ws(s[i]) {
        strip_from(s, i + 1, st)
    } else {
        seq![s[i]] + strip_from(s, i + 1, json_ws_next(st, s[i]))
    }
}

/// A document with its insignificant whitespace removed; a canonical
/// rendering is its own stripped form.
pub open spec fn strip_json_ws(s: Seq<char>) -> Seq<char> {
    strip_from(s, 0, 0)
}

/// Remove whitespace standing outside string values, so a re-spaced or
/// pretty-printed document reads the same as the canonical one.
pub(crate) fn strip_ws_chars(v: &Vec<char>) -> (r: Vec<char>)
    ensures
        r@ == strip_json_ws(v@),
{
    let mut out: Vec<char> = Vec::new();
    let mut i: usize = 0;
    let mut st: u8 = 0;
    while i < v.len()
        invariant
            i <= v@.len(),
            st == 0 || st == 1 || st == 2,
            out@ + strip_from(v@, i as int, st as int) == strip_json_ws(v@),
        decreases v@.len() - i,
    {
        let ghost pre_out = out@;
        let ghost pre_i = i as int;
        let ghost pre_st = st as int;
        let c = v[i];
        if st == 0 {
            if c == ' ' || c == '\t' || c == '\n' || c == '\r' {
            } else {
                out.push(c);
                if c == '"' {
                    st = 1;
                }
            }
        } else if st == 1 {
            out.push(c);
            if c == '\\' {
                st = 2;
            } else if c == '"' {
                st = 0;
            }
        } else {
            out.push(c);
            st = 1;
        }
        i = i + 1;
        proof {
            if pre_st == 0 && json_ws(v@[pre_i]) {
                assert(out@ == pre_out);
                assert(strip_from(v@, pre_i, pre_st) == strip_from(v@, i as int, st as int));
            } else {
                assert(st as int == json_ws_next(pre_st, v@[pre_i]));
                assert(out@ =~= pre_out + seq![v@[pre_i]]);
                assert(strip_from(v@, pre_i, pre_st) == seq![v@[pre_i]] + strip_from(
                    v@,
                    i as int,
                    st as int,
                ));
                assert(out@ + strip_from(v@, i as int, st as int) =~= pre_out + strip_from(
                    v@,
                    pre_i,
                    pre_st,
                ));
            }
        }
    }
    proof {
        assert(out@ + strip_from(v@, i as int, st as int) =~= out@);
    }
    out
}

/// Parse the registry document: whitespace outside string values is
/// insignificant, and the text is accepted only when its stripped form is
/// the canonical rendering of the returned registry. The empty registry's
/// document, under any spacing, is always accepted.
#[verifier::rlimit(100)]
pub fn parse_state(text: &str) -> (r: Result<Vec<Slot>, OrchestratorError>)
    ensures
        r matches Ok(v) ==> strip_json_ws(text@) == state_json(v@),
        strip_json_ws(text@) == state_json(Seq::<Slot>::empty()) ==> r is Ok,
{
    proof {
        reveal_strlit("[");
        reveal_strlit("]");
        reveal_strlit(",");
    }
    let v = strip_ws_chars(&chars_of(text));
    let lbracket = chars_of("[");
    let rbracket = chars_of("]");
    let comma = chars_of(",");
    let p0 = match expect_lit(&v, 0, &lbracket) {
        Some(p) => p,
        None => {
            proof {
                lemma_state_json_empty();
                if strip_json_ws(text@) == state_json(Seq::<Slot>::empty()) {
                    assert(v@.subrange(0, 1) =~= "["@);
                }
            }
            return Err(OrchestratorError::Parse(String::from_str("not a registry document")));
        },
    };
    let mut slots: Vec<Slot> = Vec::new();
    let mut p = p0;
    let mut first = true;
    loop
        invariant
            p0 <= p <= v@.len(),
            p0 <= v@.len(),
            v@ == strip_json_ws(text@),
            first ==> p == p0,
            (slots@.len() == 0) == first,
            v@.subrange(p0 as int, p as int) == join_sep(
                slots@.map_values(|s: Slot| slot_json(s)),
                ","@,
            ),
            lbracket@ == "["@,
            rbracket@ == "]"@,
            comma@ == ","@,
            v@.subrange(0, p0 as int) == "["@,
        decreases v@.len() - p,
    {
        if let Some(pe) = expect_lit(&v, p, &rbracket) {
            if pe == v.len() {
                proof {
                    assert(v@.subrange(0, pe as int) =~= "["@ + join_sep(
                        slots@.map_values(|s: Slot| slot_json(s)),
                        ","@,
                    ) + "]"@);
                    assert(v@.subrange(0, pe as int) =~= v@);
                    assert(strip_json_ws(text@) =~= state_json(slots@));
                }
                return Ok(slots);
            }
            proof {
                lemma_state_json_empty();
                if strip_json_ws(text@) == state_json(Seq::<Slot>::empty()) {
                    reveal_strlit("[");
                    if slots@.len() > 0 {
                        let parts = slots@.map_values(|x: Slot| slot_json(x));
                        lemma_slot_json_head(slots@[0]);
                        lemma_join_head(parts, ","@);
                        assert(v@.subrange(p0 as int, p as int)[0] == '{');
                        assert(v@[1] == ']');
                    } else {
                        assert(p == p0);
                        assert(p0 == 1);
                        assert(pe == 2);
                    }
                }
            }
            return Err(OrchestratorError::Parse(String::from_str("trailing content")));
        }
        let mut q = p;
        if !first {
            match expect_lit(&v, p, &comma) {
                Some(qq) => {
                    q = qq;
                },
                None => {
                    proof {
                        lemma_state_json_empty();
                        if strip_json_ws(text@) == state_json(Seq::<Slot>::empty()) {
                            reveal_strlit("[");
                            let parts = slots@.map_values(|x: Slot| slot_json(x));
                            lemma_slot_json_head(slots@[0]);
                            lemma_join_head(parts, ","@);
                            assert(v@.subrange(p0 as int, p as int)[0] == '{');
                            assert(v@[1] == ']');
                        }
                    }
                    return Err(OrchestratorError::Parse(String::from_str("malformed document")));
                },
            }
        }
        let (s, qa) = match parse_slot(&v, q) {
            Some(t) => t,
            None => {
                proof {
                    lemma_state_json_empty();
                    if strip_json_ws(text@) == state_json(Seq::<Slot>::empty()) {
                        reveal_strlit("[");
                        reveal_strlit("]");
                        if slots@.len() > 0 {
                            let parts = slots@.map_values(|x: Slot| slot_json(x));
                            lemma_slot_json_head(slots@[0]);
                            lemma_join_head(parts, ","@);
                            assert(v@.subrange(p0 as int, p as int)[0] == '{');
                            assert(v@[1] == ']');
                        } else {
                            assert(p == p0);
                            assert(p0 == 1);
                            assert(v@.subrange(1, 2) =~= "]"@);
                        }
                    }
                }
                return Err(OrchestratorError::Parse(String::from_str("malformed slot entry")));
            },
        };
        let ghost pre = slots@.map_values(|x: Slot| slot_json(x));
        let ghost sv = s;
        slots.push(s);
        proof {
            let cur = slots@.map_values(|x: Slot| slot_json(x));
            assert(cur.drop_last() =~= pre);
            assert(cur.last() == slot_json(sv));
            if cur.len() == 1 {
                assert(join_sep(cur, ","@) == cur[0]);
                assert(v@.subrange(p0 as int, qa as int) =~= join_sep(cur, ","@));
            } else {
                assert(join_sep(cur, ","@) == join_sep(pre, ","@) + ","@ + cur.last());
                assert(v@.subrange(p0 as int, qa as int) =~= join_sep(cur, ","@));
            }
        }
        if qa <= p {
            proof {
                lemma_state_json_empty();
                if text@ == state_json(Seq::<Slot>::empty()) {
                    reveal_strlit("[");
                    reveal_strlit("]");
                    if pre.len() > 0 {
                        lemma_slot_json_head(sv);
                        lemma_join_head(pre, ","@);
                    }
                    assert(v@.len() == 2);
                }
            }
            return Err(OrchestratorError::Parse(String::from_str("malformed document")));
        }
        p = qa;
        first = false;
    }
}

/// Knows where the registry document lives under the slots root.
pub struct SlotStateStore {
    pub state_file_path: String,
}

impl SlotStateStore {
    /// A store writing `{slots_directory}/state.json`.
    pub fn new(slots_directory: &str) -> (r: SlotStateStore)
        ensures
            r.state_file_path@ == slots_directory@ + "/state.json"@,
    {
        let mut p = String::from_str(slots_directory);
        p.append("/state.json");
        SlotStateStore { state_file_path: p }
    }
}

} // verus!
