//! Building the agent's command line and system prompt, and the
//! environment variables handed to the service stack.

use vstd::prelude::*;

verus! {

use vstd::string::StringExecFns;
use crate::models::{PortAllocation, Slot};
use crate::text::{chars_of, dec_str, dec_string, join_sep, string_from_chars};

/// One (name, port-as-text) pair per allocation, in order.
pub fn build_env_vars(allocations: &Vec<PortAllocation>) -> (r: Vec<(String, String)>)
    ensures
        r@.len() == allocations@.len(),
        forall|i: int|
            0 <= i < r@.len() ==> (#[trigger] r@[i]).0@ == allocations@[i].name@ && r@[i].1@
                == dec_str(allocations@[i].port as nat),
{
    let mut r: Vec<(String, String)> = Vec::new();
    let n = allocations.len();
    let mut i: usize = 0;
    while i < n
        invariant
            i <= n,
            n == allocations@.len(),
            r@.len() == i,
            forall|j: int|
                0 <= j < i ==> (#[trigger] r@[j]).0@ == allocations@[j].name@ && r@[j].1@
                    == dec_str(allocations@[j].port as nat),
        decreases n - i,
    {
        let name = allocations[i].name.clone();
        let port = dec_string(allocations[i].port as u64);
        r.push((name, port));
        i += 1;
    }
    r
}

/// Each character expanded for embedding between shell double quotes:
/// a backslash doubles, a double quote gains a backslash.
pub open spec fn shell_escape_seq(s: Seq<char>) -> Seq<char>
    decreases s.len(),
{
    if s.len() == 0 {
        Seq::empty()
    } else {
        shell_escape_seq(s.drop_last()) + escape_char(s.last())
    }
}

/// The expansion of one character.
pub open spec fn escape_char(c: char) -> Seq<char> {
    if c == '\\' {
        seq!['\\', '\\']
    } else if c == '"' {
        seq!['\\', '"']
    } else {
        seq![c]
    }
}

/// Escape a string for shell embedding inside double quotes.
pub fn escape_for_shell(input: &str) -> (r: String)
    ensures
        r@ == shell_escape_seq(input@),
{
    let cs = chars_of(input);
    let n = cs.len();
    let mut out: Vec<char> = Vec::new();
    let mut i: usize = 0;
    while i < n
        invariant
            i <= n,
            n == cs@.len(),
            out@ == shell_escape_seq(cs@.subrange(0, i as int)),
        decreases n - i,
    {
        let c = cs[i];
        let ghost pre = out@;
        if c == '\\' {
            out.push('\\');
            out.push('\\');
        } else if c == '"' {
            out.push('\\');
            out.push('"');
        } else {
            out.push(c);
        }
        proof {
            assert(out@ =~= pre + escape_char(c));
            assert(cs@.subrange(0, i + 1).drop_last() =~= cs@.subrange(0, i as int));
            assert(cs@.subrange(0, i + 1).last() == c);
        }
        i += 1;
    }
    assert(cs@.subrange(0, n as int) =~= cs@);
    string_from_chars(&out)
}

/// The fixed guidance lines of the system prompt.
pub open spec fn prompt_fixed_lines(slot: Slot) -> Seq<Seq<char>> {
    seq![
        "You are working in slot '"@ + slot.name@ + "' on branch '"@ + slot.branch@ + "'."@,
        "Your working directory is "@ + slot.clone_path@ + "."@,
        "Before starting work, create a feature branch from the current branch using git checkout -b."@,
        "Use conventional branch names (e.g., feature/short-description, fix/short-description)."@,
        "Commit your work frequently. Push when you have a meaningful set of changes."@,
    ]
}

/// The service lines of the system prompt: the dashboard first if known,
/// then one line per discovered service, then the browser hint when any
/// URL was listed.
pub open spec fn prompt_service_lines(slot: Slot) -> Seq<Seq<char>> {
    let dash: Seq<Seq<char>> = if slot.services.dashboard_url is Some {
        seq!["Dashboard: "@ + slot.services.dashboard_url->0@]
    } else {
        Seq::empty()
    };
    let svcs = slot.services.service_urls@.map_values(
        |p: (String, String)| p.0@ + ": "@ + p.1@,
    );
    let hint: Seq<Seq<char>> = if slot.services.dashboard_url is Some
        || slot.services.service_urls@.len() > 0 {
        seq!["Use these URLs for browser testing."@]
    } else {
        Seq::empty()
    };
    dash + svcs + hint
}

/// The full system prompt: all lines joined with single spaces.
pub open spec fn system_prompt_seq(slot: Slot) -> Seq<char> {
    join_sep(prompt_fixed_lines(slot) + prompt_service_lines(slot), " "@)
}

/// Build the system prompt appended to the agent.
pub fn build_system_prompt(slot: &Slot) -> (r: String)
    ensures
        r@ == system_prompt_seq(*slot),
{
    let mut lines: Vec<String> = Vec::new();
    let mut l1 = String::from_str("You are working in slot '");
    l1.append(slot.name.as_str());
    l1.append("' on branch '");
    l1.append(slot.branch.as_str());
    l1.append("'.");
    lines.push(l1);
    let mut l2 = String::from_str("Your working directory is ");
    l2.append(slot.clone_path.as_str());
    l2.append(".");
    lines.push(l2);
    lines.push(
        String::from_str(
            "Before starting work, create a feature branch from the current branch using git checkout -b.",
        ),
    );
    lines.push(
        String::from_str(
            "Use conventional branch names (e.g., feature/short-description, fix/short-description).",
        ),
    );
    lines.push(
        String::from_str(
            "Commit your work frequently. Push when you have a meaningful set of changes.",
        ),
    );
    assert(lines@.map_values(|s: String| s@) =~= prompt_fixed_lines(*slot));

    match &slot.services.dashboard_url {
        Some(d) => {
            let mut dl = String::from_str("Dashboard: ");
            dl.append(d.as_str());
            lines.push(dl);
        },
        None => {},
    }
    let ghost after_dash = lines@.map_values(|s: String| s@);
    assert(after_dash =~= prompt_fixed_lines(*slot) + (if slot.services.dashboard_url is Some {
        seq!["Dashboard: "@ + slot.services.dashboard_url->0@]
    } else {
        Seq::<Seq<char>>::empty()
    }));

    let m = slot.services.service_urls.len();
    let mut j: usize = 0;
    while j < m
        invariant
            j <= m,
            m == slot.services.service_urls@.len(),
            lines@.map_values(|s: String| s@) == after_dash
                + slot.services.service_urls@.subrange(0, j as int).map_values(
                |p: (String, String)| p.0@ + ": "@ + p.1@,
            ),
        decreases m - j,
    {
        let mut sl = slot.services.service_urls[j].0.clone();
        sl.append(": ");
        sl.append(slot.services.service_urls[j].1.as_str());
        let ghost pre = lines@.map_values(|s: String| s@);
        lines.push(sl);
        proof {
            assert(lines@.map_values(|s: String| s@) =~= pre.push(
                slot.services.service_urls@[j as int].0@ + ": "@
                    + slot.services.service_urls@[j as int].1@,
            ));
            assert(slot.services.service_urls@.subrange(0, j + 1).map_values(
                |p: (String, String)| p.0@ + ": "@ + p.1@,
            ) =~= slot.services.service_urls@.subrange(0, j as int).map_values(
                |p: (String, String)| p.0@ + ": "@ + p.1@,
            ).push(
                slot.services.service_urls@[j as int].0@ + ": "@
                    + slot.services.service_urls@[j as int].1@,
            ));
            assert(pre.push(
                slot.services.service_urls@[j as int].0@ + ": "@
                    + slot.services.service_urls@[j as int].1@,
            ) =~= after_dash + slot.services.service_urls@.subrange(0, j + 1).map_values(
                |p: (String, String)| p.0@ + ": "@ + p.1@,
            ));
        }
        j += 1;
    }
    proof {
        assert(slot.services.service_urls@.subrange(0, m as int)
            =~= slot.services.service_urls@);
    }

    let ghost after_svcs = lines@.map_values(|s: String| s@);
    let has_dash = slot.services.dashboard_url.is_some();
    if has_dash || slot.services.service_urls.len() > 0 {
        lines.push(String::from_str("Use these URLs for browser testing."));
        proof {
            assert(lines@.map_values(|s: String| s@) =~= after_svcs.push(
                "Use these URLs for browser testing."@,
            ));
        }
    }
    proof {
        assert(lines@.map_values(|s: String| s@) =~= prompt_fixed_lines(*slot)
            + prompt_service_lines(*slot));
    }
    crate::text::join_with(&lines, " ")
}

/// The full agent command line: the executable named by the caller, the
/// allowed tools, the escaped system prompt, then the optional turn limit
/// and prompt. The executable's name is the caller's: the agent binary is
/// an opaque child process driven by strings.
pub open spec fn claude_command_seq(
    agent_exe: Seq<char>,
    slot: Slot,
    prompt: Option<Seq<char>>,
    allowed_tools: Option<Seq<char>>,
    max_turns: Option<u32>,
) -> Seq<char> {
    let tools: Seq<char> = match allowed_tools {
        Some(t) => t,
        None => "Bash,Read,Glob,Grep,Write,Edit,WebFetch,WebSearch,Task"@,
    };
    let parts: Seq<Seq<char>> = seq![agent_exe, "--allowedTools \\\""@ + tools + "\\\""@]
        + seq![
        "--append-system-prompt \\\""@ + shell_escape_seq(system_prompt_seq(slot)) + "\\\""@,
    ] + (match max_turns {
        Some(t) => seq!["--max-turns "@ + dec_str(t as nat)],
        None => Seq::empty(),
    }) + (match prompt {
        Some(p) => if p.len() > 0 {
            seq!["-p \\\""@ + shell_escape_seq(p) + "\\\""@]
        } else {
            Seq::empty()
        },
        None => Seq::empty(),
    });
    join_sep(parts, " "@)
}

/// Build the full agent command string for the terminal multiplexer.
pub fn build_claude_command(
    agent_exe: &str,
    slot: &Slot,
    prompt: Option<&str>,
    allowed_tools: Option<&str>,
    max_turns: Option<u32>,
) -> (r: String)
    ensures
        r@ == claude_command_seq(
            agent_exe@,
            *slot,
            match prompt {
                Some(p) => Some(p@),
                None => None,
            },
            match allowed_tools {
                Some(t) => Some(t@),
                None => None,
            },
            max_turns,
        ),
{
    let tools: &str = match allowed_tools {
        Some(t) => t,
        None => "Bash,Read,Glob,Grep,Write,Edit,WebFetch,WebSearch,Task",
    };
    proof {
        reveal_strlit("Bash,Read,Glob,Grep,Write,Edit,WebFetch,WebSearch,Task");
    }
    let mut parts: Vec<String> = Vec::new();
    parts.push(String::from_str(agent_exe));

    let mut p1 = String::from_str("--allowedTools \\\"");
    p1.append(tools);
    p1.append("\\\"");
    parts.push(p1);

    let system_prompt = build_system_prompt(slot);
    let escaped = escape_for_shell(system_prompt.as_str());
    let mut p2 = String::from_str("--append-system-prompt \\\"");
    p2.append(escaped.as_str());
    p2.append("\\\"");
    parts.push(p2);

    if let Some(turns) = max_turns {
        let mut p3 = String::from_str("--max-turns ");
        let d = dec_string(turns as u64);
        p3.append(d.as_str());
        parts.push(p3);
    }

    if let Some(p) = prompt {
        if !p.is_empty() {
            let ep = escape_for_shell(p);
            let mut p4 = String::from_str("-p \\\"");
            p4.append(ep.as_str());
            p4.append("\\\"");
            parts.push(p4);
        }
    }

    proof {
        let po: Option<Seq<char>> = match prompt {
            Some(p) => Some(p@),
            None => None,
        };
        let to: Option<Seq<char>> = match allowed_tools {
            Some(t) => Some(t@),
            None => None,
        };
        let st: Seq<char> = match to {
            Some(t) => t,
            None => "Bash,Read,Glob,Grep,Write,Edit,WebFetch,WebSearch,Task"@,
        };
        let head = seq![agent_exe@, "--allowedTools \\\""@ + st + "\\\""@] + seq![
            "--append-system-prompt \\\""@ + shell_escape_seq(system_prompt_seq(*slot))
                + "\\\""@,
        ];
        let mt: Seq<Seq<char>> = match max_turns {
            Some(t) => seq!["--max-turns "@ + dec_str(t as nat)],
            None => Seq::empty(),
        };
        let pp: Seq<Seq<char>> = match po {
            Some(p) => if p.len() > 0 {
                seq!["-p \\\""@ + shell_escape_seq(p) + "\\\""@]
            } else {
                Seq::empty()
            },
            None => Seq::empty(),
        };
        assert(claude_command_seq(agent_exe@, *slot, po, to, max_turns) == join_sep(
            head + mt + pp,
            " "@,
        ));
        assert(parts@.map_values(|s: String| s@) =~= head + mt + pp);
    }
    crate::text::join_with(&parts, " ")
}

} // verus!
