//! The persisted blueprint document, rendered and read back by the
//! library itself. The canonical form writes every optional field, with
//! `null` standing for an absent value, so a document determines its
//! blueprint exactly and saving then loading reproduces it. The flow
//! style keeps the documents inside the blueprint directory readable by
//! the same tools as before.

use vstd::prelude::*;

verus! {

use vstd::string::StringExecFns;
use crate::errors::OrchestratorError;
use crate::models::{Blueprint, BlueprintAgentConfig, BlueprintDefaults, BlueprintSlotEntry};
use crate::statedoc::{esc_seq, expect_lit, jstr, parse_jstr, push_jstr, strip_json_ws, strip_ws_chars};
use crate::text::{chars_of, dec_str, dec_string, join_sep, string_from_chars};

/// An optional string value: its rendering, or `null`.
pub open spec fn opt_jstr(o: Option<String>) -> Seq<char> {
    match o {
        Some(s) => jstr(s@),
        None => "null"@,
    }
}

/// An optional flag value.
pub open spec fn opt_jbool(o: Option<bool>) -> Seq<char> {
    match o {
        Some(true) => "true"@,
        Some(false) => "false"@,
        None => "null"@,
    }
}

/// An optional number value.
pub open spec fn opt_ju32(o: Option<u32>) -> Seq<char> {
    match o {
        Some(v) => dec_str(v as nat),
        None => "null"@,
    }
}

/// The agent-configuration object.
pub open spec fn agent_json(a: BlueprintAgentConfig) -> Seq<char> {
    "{\"prompt_template\":"@ + opt_jstr(a.prompt_template) + ",\"allowed_tools\":"@ + opt_jstr(
        a.allowed_tools,
    ) + ",\"max_turns\":"@ + opt_ju32(a.max_turns) + "}"@
}

/// An optional agent-configuration object.
pub open spec fn opt_agent_json(o: Option<BlueprintAgentConfig>) -> Seq<char> {
    match o {
        Some(a) => agent_json(a),
        None => "null"@,
    }
}

/// The defaults object.
pub open spec fn defaults_json(d: BlueprintDefaults) -> Seq<char> {
    "{\"source\":"@ + opt_jstr(d.source) + ",\"auto_start_aspire\":"@ + opt_jbool(
        d.auto_start_aspire,
    ) + ",\"auto_spawn_agent\":"@ + opt_jbool(d.auto_spawn_agent) + ",\"agent\":"@
        + opt_agent_json(d.agent) + "}"@
}

/// One slot entry object.
pub open spec fn entry_json(e: BlueprintSlotEntry) -> Seq<char> {
    "{\"name\":"@ + jstr(e.name@) + ",\"branch\":"@ + opt_jstr(e.branch) + ",\"source\":"@
        + opt_jstr(e.source) + ",\"auto_start_aspire\":"@ + opt_jbool(e.auto_start_aspire)
        + ",\"auto_spawn_agent\":"@ + opt_jbool(e.auto_spawn_agent) + ",\"agent\":"@
        + opt_agent_json(e.agent) + "}"@
}

/// The whole blueprint document.
pub open spec fn blueprint_json(bp: Blueprint) -> Seq<char> {
    "{\"name\":"@ + jstr(bp.name@) + ",\"description\":"@ + opt_jstr(bp.description)
        + ",\"defaults\":"@ + (match bp.defaults {
        Some(d) => defaults_json(d),
        None => "null"@,
    }) + ",\"slots\":["@ + join_sep(bp.slots@.map_values(|e: BlueprintSlotEntry| entry_json(e)), ","@)
        + "]}"@
}

/// Append an optional string value.
fn push_opt_jstr(out: &mut String, o: &Option<String>)
    ensures
        final(out)@ == old(out)@ + opt_jstr(*o),
{
    match o {
        Some(s) => push_jstr(out, s.as_str()),
        None => out.append("null"),
    }
}

/// Append an optional flag value.
fn push_opt_jbool(out: &mut String, o: &Option<bool>)
    ensures
        final(out)@ == old(out)@ + opt_jbool(*o),
{
    match o {
        Some(true) => out.append("true"),
        Some(false) => out.append("false"),
        None => out.append("null"),
    }
}

/// Append an optional number value.
fn push_opt_ju32(out: &mut String, o: &Option<u32>)
    ensures
        final(out)@ == old(out)@ + opt_ju32(*o),
{
    match o {
        Some(v) => {
            let d = dec_string((*v) as u64);
            out.append(d.as_str());
        },
        None => out.append("null"),
    }
}

/// Append an optional agent-configuration object.
fn push_opt_agent(out: &mut String, o: &Option<BlueprintAgentConfig>)
    ensures
        final(out)@ == old(out)@ + opt_agent_json(*o),
{
    match o {
        Some(a) => {
            out.append("{\"prompt_template\":");
            push_opt_jstr(out, &a.prompt_template);
            out.append(",\"allowed_tools\":");
            push_opt_jstr(out, &a.allowed_tools);
            out.append(",\"max_turns\":");
            push_opt_ju32(out, &a.max_turns);
            out.append("}");
            proof {
                assert(out@ =~= old(out)@ + agent_json(*a));
            }
        },
        None => out.append("null"),
    }
}

/// Append the defaults object.
fn push_defaults(out: &mut String, d: &BlueprintDefaults)
    ensures
        final(out)@ == old(out)@ + defaults_json(*d),
{
    out.append("{\"source\":");
    push_opt_jstr(out, &d.source);
    out.append(",\"auto_start_aspire\":");
    push_opt_jbool(out, &d.auto_start_aspire);
    out.append(",\"auto_spawn_agent\":");
    push_opt_jbool(out, &d.auto_spawn_agent);
    out.append(",\"agent\":");
    push_opt_agent(out, &d.agent);
    out.append("}");
    proof {
        assert(out@ =~= old(out)@ + defaults_json(*d));
    }
}

/// Append one slot entry object.
fn push_entry(out: &mut String, e: &BlueprintSlotEntry)
    ensures
        final(out)@ == old(out)@ + entry_json(*e),
{
    out.append("{\"name\":");
    push_jstr(out, e.name.as_str());
    out.append(",\"branch\":");
    push_opt_jstr(out, &e.branch);
    out.append(",\"source\":");
    push_opt_jstr(out, &e.source);
    out.append(",\"auto_start_aspire\":");
    push_opt_jbool(out, &e.auto_start_aspire);
    out.append(",\"auto_spawn_agent\":");
    push_opt_jbool(out, &e.auto_spawn_agent);
    out.append(",\"agent\":");
    push_opt_agent(out, &e.agent);
    out.append("}");
    proof {
        assert(out@ =~= old(out)@ + entry_json(*e));
    }
}

/// Render a blueprint document.
pub fn emit_blueprint(bp: &Blueprint) -> (r: String)
    ensures
        r@ == blueprint_json(*bp),
{
    let mut out = String::from_str("{\"name\":");
    push_jstr(&mut out, bp.name.as_str());
    out.append(",\"description\":");
    push_opt_jstr(&mut out, &bp.description);
    out.append(",\"defaults\":");
    match &bp.defaults {
        Some(d) => push_defaults(&mut out, d),
        None => out.append("null"),
    }
    out.append(",\"slots\":[");
    let ghost slots_mark = out@;
    let n = bp.slots.len();
    let mut i: usize = 0;
    while i < n
        invariant
            i <= n,
            n == bp.slots@.len(),
            out@ == slots_mark + join_sep(
                bp.slots@.subrange(0, i as int).map_values(|e: BlueprintSlotEntry| entry_json(e)),
                ","@,
            ),
        decreases n - i,
    {
        if i > 0 {
            out.append(",");
        }
        push_entry(&mut out, &bp.slots[i]);
        proof {
            let pre = bp.slots@.subrange(0, i as int).map_values(
                |e: BlueprintSlotEntry| entry_json(e),
            );
            let cur = bp.slots@.subrange(0, i + 1).map_values(
                |e: BlueprintSlotEntry| entry_json(e),
            );
            assert(cur.drop_last() =~= pre);
            assert(cur.last() == entry_json(bp.slots@[i as int]));
            assert(seq![','] =~= ","@) by {
                reveal_strlit(",");
            }
            assert(out@ =~= slots_mark + join_sep(cur, ","@));
        }
        i += 1;
    }
    proof {
        assert(bp.slots@.subrange(0, n as int) =~= bp.slots@);
    }
    out.append("]}");
    proof {
        assert(out@ =~= blueprint_json(*bp));
    }
    out
}

/// Parse an optional string value at `pos`.
fn parse_opt_jstr(v: &Vec<char>, pos: usize) -> (r: Option<(Option<String>, usize)>)
    requires
        pos <= v@.len(),
    ensures
        r matches Some(t) ==> pos < t.1 <= v@.len() && v@.subrange(pos as int, t.1 as int)
            == opt_jstr(t.0),
        (pos + 4 <= v@.len() && v@.subrange(pos as int, pos + 4) == "null"@) ==> (r matches Some(
            t,
        ) && t.0 is None && t.1 == pos + 4),
{
    proof {
        reveal_strlit("null");
    }
    let nul = chars_of("null");
    if let Some(e) = expect_lit(v, pos, &nul) {
        return Some((None, e));
    }
    let (s, e) = parse_jstr(v, pos)?;
    Some((Some(s), e))
}

/// Parse an optional flag value at `pos`.
fn parse_opt_jbool(v: &Vec<char>, pos: usize) -> (r: Option<(Option<bool>, usize)>)
    requires
        pos <= v@.len(),
    ensures
        r matches Some(t) ==> pos < t.1 <= v@.len() && v@.subrange(pos as int, t.1 as int)
            == opt_jbool(t.0),
{
    proof {
        reveal_strlit("null");
        reveal_strlit("true");
        reveal_strlit("false");
    }
    let nul = chars_of("null");
    if let Some(e) = expect_lit(v, pos, &nul) {
        return Some((None, e));
    }
    let tru = chars_of("true");
    if let Some(e) = expect_lit(v, pos, &tru) {
        return Some((Some(true), e));
    }
    let fal = chars_of("false");
    if let Some(e) = expect_lit(v, pos, &fal) {
        return Some((Some(false), e));
    }
    None
}

/// Parse an optional number value at `pos`.
fn parse_opt_ju32(v: &Vec<char>, pos: usize) -> (r: Option<(Option<u32>, usize)>)
    requires
        pos <= v@.len(),
    ensures
        r matches Some(t) ==> pos < t.1 <= v@.len() && v@.subrange(pos as int, t.1 as int)
            == opt_ju32(t.0),
{
    proof {
        reveal_strlit("null");
    }
    let nul = chars_of("null");
    if let Some(e) = expect_lit(v, pos, &nul) {
        return Some((None, e));
    }
    let (value, e) = crate::control::parse_num_at(v, pos, 0xffffffff)?;
    proof {
        let d = v@.subrange(pos as int, e as int);
        crate::control::lemma_digits_end_run(v@, pos as int);
        assert(forall|q: int| 0 <= q < d.len() ==> crate::control::is_digit(#[trigger] d[q]));
        crate::control::lemma_num_canonical_inj(d);
        assert(d == dec_str(value as nat));
    }
    Some((Some((value as u32)), e))
}

/// Parse an optional agent-configuration object at `pos`.
fn parse_opt_agent(v: &Vec<char>, pos: usize) -> (r: Option<
    (Option<BlueprintAgentConfig>, usize),
>)
    requires
        pos <= v@.len(),
    ensures
        r matches Some(t) ==> pos < t.1 <= v@.len() && v@.subrange(pos as int, t.1 as int)
            == opt_agent_json(t.0),
{
    proof {
        reveal_strlit("null");
        reveal_strlit("{\"prompt_template\":");
        reveal_strlit(",\"allowed_tools\":");
        reveal_strlit(",\"max_turns\":");
        reveal_strlit("}");
    }
    let nul = chars_of("null");
    if let Some(e) = expect_lit(v, pos, &nul) {
        return Some((None, e));
    }
    let l1 = chars_of("{\"prompt_template\":");
    let p1 = expect_lit(v, pos, &l1)?;
    let (prompt_template, p2) = parse_opt_jstr(v, p1)?;
    let l2 = chars_of(",\"allowed_tools\":");
    let p3 = expect_lit(v, p2, &l2)?;
    let (allowed_tools, p4) = parse_opt_jstr(v, p3)?;
    let l3 = chars_of(",\"max_turns\":");
    let p5 = expect_lit(v, p4, &l3)?;
    let (max_turns, p6) = parse_opt_ju32(v, p5)?;
    let l4 = chars_of("}");
    let p7 = expect_lit(v, p6, &l4)?;
    let a = BlueprintAgentConfig { prompt_template, allowed_tools, max_turns };
    proof {
        assert(v@.subrange(pos as int, p7 as int) =~= agent_json(a));
    }
    Some((Some(a), p7))
}

/// Parse one slot entry object at `pos`.
#[verifier::rlimit(100)]
fn parse_entry(v: &Vec<char>, pos: usize) -> (r: Option<(BlueprintSlotEntry, usize)>)
    requires
        pos <= v@.len(),
    ensures
        r matches Some(t) ==> pos < t.1 <= v@.len() && v@.subrange(pos as int, t.1 as int)
            == entry_json(t.0),
{
    proof {
        reveal_strlit("{\"name\":");
        reveal_strlit(",\"branch\":");
        reveal_strlit(",\"source\":");
        reveal_strlit(",\"auto_start_aspire\":");
        reveal_strlit(",\"auto_spawn_agent\":");
        reveal_strlit(",\"agent\":");
        reveal_strlit("}");
    }
    let l1 = chars_of("{\"name\":");
    let p1 = expect_lit(v, pos, &l1)?;
    let (name, p2) = parse_jstr(v, p1)?;
    let l2 = chars_of(",\"branch\":");
    let p3 = expect_lit(v, p2, &l2)?;
    let (branch, p4) = parse_opt_jstr(v, p3)?;
    let l3 = chars_of(",\"source\":");
    let p5 = expect_lit(v, p4, &l3)?;
    let (source, p6) = parse_opt_jstr(v, p5)?;
    let l4 = chars_of(",\"auto_start_aspire\":");
    let p7 = expect_lit(v, p6, &l4)?;
    let (auto_start_aspire, p8) = parse_opt_jbool(v, p7)?;
    let l5 = chars_of(",\"auto_spawn_agent\":");
    let p9 = expect_lit(v, p8, &l5)?;
    let (auto_spawn_agent, p10) = parse_opt_jbool(v, p9)?;
    let l6 = chars_of(",\"agent\":");
    let p11 = expect_lit(v, p10, &l6)?;
    let (agent, p12) = parse_opt_agent(v, p11)?;
    let l7 = chars_of("}");
    let p13 = expect_lit(v, p12, &l7)?;
    let e = BlueprintSlotEntry { name, branch, source, auto_start_aspire, auto_spawn_agent, agent };
    proof {
        assert(v@.subrange(pos as int, p6 as int) =~= "{\"name\":"@ + jstr(e.name@)
            + ",\"branch\":"@ + opt_jstr(e.branch) + ",\"source\":"@ + opt_jstr(e.source));
        assert(v@.subrange(pos as int, p10 as int) =~= v@.subrange(pos as int, p6 as int)
            + ",\"auto_start_aspire\":"@ + opt_jbool(e.auto_start_aspire)
            + ",\"auto_spawn_agent\":"@ + opt_jbool(e.auto_spawn_agent));
        assert(v@.subrange(pos as int, p13 as int) =~= v@.subrange(pos as int, p10 as int)
            + ",\"agent\":"@ + opt_agent_json(e.agent) + "}"@);
        assert(v@.subrange(pos as int, p13 as int) =~= entry_json(e));
    }
    Some((e, p13))
}

/// Parse a blueprint document: whitespace outside string values is
/// insignificant, and the text is accepted only when its stripped form is
/// the canonical rendering of the returned blueprint.
#[verifier::rlimit(100)]
pub fn parse_blueprint(text: &str) -> (r: Result<Blueprint, OrchestratorError>)
    ensures
        r matches Ok(bp) ==> strip_json_ws(text@) == blueprint_json(bp),
        forall|bp: Blueprint|
            (blueprint_minimal(bp) && strip_json_ws(text@) == #[trigger] blueprint_json(bp))
                ==> r is Ok,
{
    proof {
        reveal_strlit("{\"name\":");
        reveal_strlit(",\"description\":");
        reveal_strlit(",\"defaults\":");
        reveal_strlit("null");
        reveal_strlit("{\"source\":");
        reveal_strlit(",\"auto_start_aspire\":");
        reveal_strlit(",\"auto_spawn_agent\":");
        reveal_strlit(",\"agent\":");
        reveal_strlit("}");
        reveal_strlit(",\"slots\":[");
        reveal_strlit(",");
        reveal_strlit("]}");
    }
    let v = strip_ws_chars(&chars_of(text));
    let parsed = parse_blueprint_at(&v);
    match parsed {
        Some(bp) => Ok(bp),
        None => Err(
            OrchestratorError::Parse(String::from_str("not a canonical blueprint document")),
        ),
    }
}

/// A blueprint with nothing in it: an empty name and no entries.
pub open spec fn blueprint_minimal(bp: Blueprint) -> bool {
    &&& bp.name@.len() == 0
    &&& bp.description is None
    &&& bp.defaults is None
    &&& bp.slots@.len() == 0
}

/// The concrete shape of a minimal blueprint's document.
proof fn lemma_blueprint_json_minimal(s: Seq<char>, bp: Blueprint)
    requires
        blueprint_minimal(bp),
        s == blueprint_json(bp),
    ensures
        s.len() == 57,
        crate::text::match_at(s, "{\"name\":"@, 0),
        s[8] == '"',
        s[9] == '"',
        crate::text::match_at(s, ",\"description\":"@, 10),
        s.subrange(25, 29) == "null"@,
        crate::text::match_at(s, ",\"defaults\":"@, 29),
        s.subrange(41, 45) == "null"@,
        crate::text::match_at(s, ",\"slots\":["@, 45),
        crate::text::match_at(s, "]}"@, 55),
{
    reveal_strlit("{\"name\":");
    reveal_strlit(",\"description\":");
    reveal_strlit("null");
    reveal_strlit(",\"defaults\":");
    reveal_strlit(",\"slots\":[");
    reveal_strlit("]}");
    assert(esc_seq(bp.name@) =~= Seq::<char>::empty());
    assert(jstr(bp.name@).len() == 2);
    let parts = bp.slots@.map_values(|e: BlueprintSlotEntry| entry_json(e));
    assert(parts =~= Seq::<Seq<char>>::empty());
    assert(join_sep(parts, ","@) == Seq::<char>::empty());
    assert(s.subrange(0, 8) =~= "{\"name\":"@);
    assert(s[8] == jstr(bp.name@)[0]);
    assert(s[9] == jstr(bp.name@)[1]);
    assert(s.subrange(10, 25) =~= ",\"description\":"@);
    assert(s.subrange(25, 29) =~= "null"@);
    assert(s.subrange(29, 41) =~= ",\"defaults\":"@);
    assert(s.subrange(41, 45) =~= "null"@);
    assert(s.subrange(45, 55) =~= ",\"slots\":["@);
    assert(s.subrange(55, 57) =~= "]}"@);
}

/// Once an entry has been read, the document cannot be the minimal one:
/// the minimal document closes its list where an entry object opens.
proof fn lemma_minimal_excluded(v: Seq<char>, slots: Seq<BlueprintSlotEntry>, p11: int, p: int)
    requires
        0 <= p11 <= p <= v.len(),
        slots.len() > 0,
        v.subrange(p11, p) == join_sep(
            slots.map_values(|e: BlueprintSlotEntry| entry_json(e)),
            ","@,
        ),
        forall|bp: Blueprint|
            (blueprint_minimal(bp) && v == #[trigger] blueprint_json(bp)) ==> (p11 == 55
                && crate::text::match_at(v, "]}"@, 55) && v.len() == 57),
    ensures
        forall|bp: Blueprint| !(blueprint_minimal(bp) && v == #[trigger] blueprint_json(bp)),
{
    assert forall|bp: Blueprint| !(blueprint_minimal(bp) && v == #[trigger] blueprint_json(
        bp,
    )) by {
        if blueprint_minimal(bp) && v == blueprint_json(bp) {
            let parts = slots.map_values(|e: BlueprintSlotEntry| entry_json(e));
            lemma_entry_json_head(slots[0]);
            assert(parts[0] == entry_json(slots[0]));
            crate::statedoc::lemma_join_head(parts, ","@);
            assert(v.subrange(p11, p).len() > 0);
            assert(v.subrange(p11, p)[0] == parts[0][0]);
            assert(v[55] == '{');
            reveal_strlit("]}");
            assert(v.subrange(55, 57) == "]}"@);
            assert(v[55] == v.subrange(55, 57)[0]);
            assert(v[55] == ']');
            assert(false);
        }
    }
}

/// An entry object opens with a brace.
proof fn lemma_entry_json_head(e: BlueprintSlotEntry)
    ensures
        entry_json(e).len() > 0,
        entry_json(e)[0] == '{',
{
    reveal_strlit("{\"name\":");
    assert(entry_json(e)[0] == "{\"name\":"@[0]);
}

/// Parse the header of a blueprint document: everything before the slot
/// list.
#[verifier::rlimit(100)]
fn parse_bp_head(v: &Vec<char>) -> (r: Option<
    ((String, Option<String>, Option<BlueprintDefaults>), usize),
>)
    ensures
        r matches Some(t) ==> 0 < t.1 <= v@.len() && v@.subrange(0, t.1 as int) == "{\"name\":"@
            + jstr(t.0.0@) + ",\"description\":"@ + opt_jstr(t.0.1) + ",\"defaults\":"@ + (
        match t.0.2 {
            Some(d) => defaults_json(d),
            None => "null"@,
        }) + ",\"slots\":["@,
        forall|bp: Blueprint|
            (blueprint_minimal(bp) && v@ == #[trigger] blueprint_json(bp)) ==> (r matches Some(
                t,
            ) && t.1 == 55 && crate::text::match_at(v@, "]}"@, 55) && v@.len() == 57),
{
    proof {
        assert forall|bp: Blueprint|
            blueprint_minimal(bp) && v@ == #[trigger] blueprint_json(bp) implies (
        crate::text::match_at(v@, "{\"name\":"@, 0) && v@[8] == '"' && v@[9] == '"'
            && crate::text::match_at(v@, ",\"description\":"@, 10) && v@.subrange(25, 29)
            == "null"@ && crate::text::match_at(v@, ",\"defaults\":"@, 29) && v@.subrange(41, 45)
            == "null"@ && crate::text::match_at(v@, ",\"slots\":["@, 45) && crate::text::match_at(
            v@,
            "]}"@,
            55,
        ) && v@.len() == 57) by {
            lemma_blueprint_json_minimal(v@, bp);
        }
    }
    proof {
        reveal_strlit("{\"name\":");
        reveal_strlit(",\"description\":");
        reveal_strlit(",\"defaults\":");
        reveal_strlit("null");
        reveal_strlit("{\"source\":");
        reveal_strlit(",\"auto_start_aspire\":");
        reveal_strlit(",\"auto_spawn_agent\":");
        reveal_strlit(",\"agent\":");
        reveal_strlit("}");
        reveal_strlit(",\"slots\":[");
    }
    let l1 = chars_of("{\"name\":");
    let p1 = expect_lit(v, 0, &l1)?;
    let (name, p2) = parse_jstr(v, p1)?;
    let l2 = chars_of(",\"description\":");
    let p3 = expect_lit(v, p2, &l2)?;
    let (description, p4) = parse_opt_jstr(v, p3)?;
    let l3 = chars_of(",\"defaults\":");
    let p5 = expect_lit(v, p4, &l3)?;
    let nul = chars_of("null");
    let mut defaults: Option<BlueprintDefaults> = None;
    let p10: usize;
    if let Some(e) = expect_lit(v, p5, &nul) {
        p10 = e;
    } else {
        let d1 = chars_of("{\"source\":");
        let q1 = expect_lit(v, p5, &d1)?;
        let (source, q2) = parse_opt_jstr(v, q1)?;
        let d2 = chars_of(",\"auto_start_aspire\":");
        let q3 = expect_lit(v, q2, &d2)?;
        let (auto_start_aspire, q4) = parse_opt_jbool(v, q3)?;
        let d3 = chars_of(",\"auto_spawn_agent\":");
        let q5 = expect_lit(v, q4, &d3)?;
        let (auto_spawn_agent, q6) = parse_opt_jbool(v, q5)?;
        let d4 = chars_of(",\"agent\":");
        let q7 = expect_lit(v, q6, &d4)?;
        let (agent, q8) = parse_opt_agent(v, q7)?;
        let d5 = chars_of("}");
        let q9 = expect_lit(v, q8, &d5)?;
        let d = BlueprintDefaults { source, auto_start_aspire, auto_spawn_agent, agent };
        proof {
            assert(v@.subrange(p5 as int, q9 as int) =~= defaults_json(d));
        }
        defaults = Some(d);
        p10 = q9;
    }
    let l4 = chars_of(",\"slots\":[");
    let p11 = expect_lit(v, p10, &l4)?;
    proof {
        assert(v@.subrange(0, p5 as int) =~= "{\"name\":"@ + jstr(name@) + ",\"description\":"@
            + opt_jstr(description) + ",\"defaults\":"@);
        assert(v@.subrange(0, p11 as int) =~= v@.subrange(0, p5 as int) + (match defaults {
            Some(d) => defaults_json(d),
            None => "null"@,
        }) + ",\"slots\":["@);
    }
    Some(((name, description, defaults), p11))
}

/// Parse the whole character vector as a blueprint document.
fn parse_blueprint_at(v: &Vec<char>) -> (r: Option<Blueprint>)
    ensures
        r matches Some(bp) ==> v@ == blueprint_json(bp),
        forall|bp: Blueprint|
            (blueprint_minimal(bp) && v@ == #[trigger] blueprint_json(bp)) ==> r is Some,
{
    proof {
        reveal_strlit(",");
        reveal_strlit("]}");
    }
    let (head, p11) = parse_bp_head(v)?;
    let (name, description, defaults) = head;
    let comma = chars_of(",");
    let rb = chars_of("]}");
    let mut slots: Vec<BlueprintSlotEntry> = Vec::new();
    let mut p = p11;
    let mut first = true;
    loop
        invariant
            p11 <= p <= v@.len(),
            first ==> p == p11,
            (slots@.len() == 0) == first,
            v@.subrange(p11 as int, p as int) == join_sep(
                slots@.map_values(|e: BlueprintSlotEntry| entry_json(e)),
                ","@,
            ),
            comma@ == ","@,
            rb@ == "]}"@,
            0 < p11,
            forall|bp: Blueprint|
                (blueprint_minimal(bp) && v@ == #[trigger] blueprint_json(bp)) ==> (p11 == 55
                    && crate::text::match_at(v@, "]}"@, 55) && v@.len() == 57),
            rb@.len() == 2,
            v@.subrange(0, p11 as int) == "{\"name\":"@ + jstr(name@) + ",\"description\":"@
                + opt_jstr(description) + ",\"defaults\":"@ + (match defaults {
                Some(d) => defaults_json(d),
                None => "null"@,
            }) + ",\"slots\":["@,
        decreases v@.len() - p,
    {
        if let Some(pe) = expect_lit(v, p, &rb) {
            if pe == v.len() {
                let bp = Blueprint { name, description, defaults, slots };
                proof {
                    assert(v@.subrange(0, pe as int) =~= v@.subrange(0, p11 as int)
                        + v@.subrange(p11 as int, p as int) + "]}"@);
                    assert(v@.subrange(0, pe as int) =~= blueprint_json(bp));
                    assert(v@.subrange(0, pe as int) =~= v@);
                }
                return Some(bp);
            }
            proof {
                assert forall|bp: Blueprint| !(blueprint_minimal(bp) && v@
                    == #[trigger] blueprint_json(bp)) by {
                    if blueprint_minimal(bp) && v@ == blueprint_json(bp) {
                        if first {
                            assert(pe == p + 2 && p == 55);
                            assert(false);
                        } else {
                            lemma_minimal_excluded(v@, slots@, p11 as int, p as int);
                        }
                    }
                }
            }
            return None;
        }
        proof {
            assert forall|bp: Blueprint| !(blueprint_minimal(bp) && v@
                == #[trigger] blueprint_json(bp)) by {
                if blueprint_minimal(bp) && v@ == blueprint_json(bp) {
                    if first {
                        reveal_strlit("]}");
                        assert(v@.subrange(55, 57) == "]}"@);
                        assert(p + rb@.len() <= v@.len() && v@.subrange(
                            p as int,
                            p + rb@.len(),
                        ) == rb@);
                        assert(false);
                    } else {
                        lemma_minimal_excluded(v@, slots@, p11 as int, p as int);
                    }
                }
            }
        }
        let mut q = p;
        if !first {
            match expect_lit(v, p, &comma) {
                Some(qq) => {
                    q = qq;
                },
                None => {
                    return None;
                },
            }
        }
        let (e, qa) = parse_entry(v, q)?;
        let ghost pre = slots@.map_values(|x: BlueprintSlotEntry| entry_json(x));
        let ghost ev = e;
        slots.push(e);
        proof {
            let cur = slots@.map_values(|x: BlueprintSlotEntry| entry_json(x));
            assert(cur.drop_last() =~= pre);
            assert(cur.last() == entry_json(ev));
            if cur.len() == 1 {
                assert(join_sep(cur, ","@) == cur[0]);
                assert(v@.subrange(p11 as int, qa as int) =~= join_sep(cur, ","@));
            } else {
                assert(join_sep(cur, ","@) == join_sep(pre, ","@) + ","@ + cur.last());
                assert(v@.subrange(p11 as int, qa as int) =~= join_sep(cur, ","@));
            }
        }
        if qa <= p {
            return None;
        }
        p = qa;
        first = false;
    }
}

} // verus!
