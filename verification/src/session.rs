//! Decisions around detached agent-host sessions: where the host info
//! file lives, and the liveness sweep over scanned info files.

use vstd::prelude::*;

verus! {

use vstd::string::StringExecFns;
use crate::models::AgentHostInfo;

/// One scanned host info file: the slot directory's name, the descriptor
/// read from it, and whether its process responded to a liveness probe.
#[derive(Debug)]
pub struct HostScan {
    pub name: String,
    pub info: AgentHostInfo,
    pub pid_alive: bool,
}

/// The path of a slot's host info file under the slots root.
pub fn host_info_path(slots_dir: &str, name: &str) -> (r: String)
    ensures
        r@ == slots_dir@ + "/"@ + name@ + "/.agent-host.json"@,
{
    let mut p = String::from_str(slots_dir);
    p.append("/");
    p.append(name);
    p.append("/.agent-host.json");
    p
}

/// The liveness sweep over scanned host info files: the first list names
/// the slots whose host is alive, in scan order; the second names the
/// slots whose stale info file should be deleted.
pub fn liveness_sweep(entries: &Vec<HostScan>) -> (r: (Vec<String>, Vec<String>))
    ensures
        r.0@.map_values(|s: String| s@) == entries@.filter(|e: HostScan| e.pid_alive).map_values(
            |e: HostScan| e.name@,
        ),
        r.1@.map_values(|s: String| s@) == entries@.filter(|e: HostScan| !e.pid_alive).map_values(
            |e: HostScan| e.name@,
        ),
{
    let mut live: Vec<String> = Vec::new();
    let mut stale: Vec<String> = Vec::new();
    let n = entries.len();
    let mut i: usize = 0;
    proof {
        reveal(Seq::filter);
        assert(entries@.subrange(0, 0) =~= Seq::<HostScan>::empty());
        assert(live@.map_values(|s: String| s@) =~= entries@.subrange(0, 0).filter(
            |e: HostScan| e.pid_alive,
        ).map_values(|e: HostScan| e.name@));
        assert(stale@.map_values(|s: String| s@) =~= entries@.subrange(0, 0).filter(
            |e: HostScan| !e.pid_alive,
        ).map_values(|e: HostScan| e.name@));
    }
    while i < n
        invariant
            i <= n,
            n == entries@.len(),
            live@.map_values(|s: String| s@) == entries@.subrange(0, i as int).filter(
                |e: HostScan| e.pid_alive,
            ).map_values(|e: HostScan| e.name@),
            stale@.map_values(|s: String| s@) == entries@.subrange(0, i as int).filter(
                |e: HostScan| !e.pid_alive,
            ).map_values(|e: HostScan| e.name@),
        decreases n - i,
    {
        let ghost lpre = live@.map_values(|s: String| s@);
        let ghost spre = stale@.map_values(|s: String| s@);
        if entries[i].pid_alive {
            live.push(entries[i].name.clone());
        } else {
            stale.push(entries[i].name.clone());
        }
        proof {
            reveal(Seq::filter);
            let pre = entries@.subrange(0, i as int);
            let cur = entries@.subrange(0, i + 1);
            assert(cur.drop_last() =~= pre);
            assert(cur.last() == entries@[i as int]);
            if entries@[i as int].pid_alive {
                assert(live@.map_values(|s: String| s@) =~= lpre.push(
                    entries@[i as int].name@,
                ));
                assert(cur.filter(|e: HostScan| e.pid_alive).map_values(|e: HostScan| e.name@)
                    =~= pre.filter(|e: HostScan| e.pid_alive).map_values(
                    |e: HostScan| e.name@,
                ).push(entries@[i as int].name@));
                assert(cur.filter(|e: HostScan| !e.pid_alive) =~= pre.filter(
                    |e: HostScan| !e.pid_alive,
                ));
            } else {
                assert(stale@.map_values(|s: String| s@) =~= spre.push(
                    entries@[i as int].name@,
                ));
                assert(cur.filter(|e: HostScan| !e.pid_alive).map_values(|e: HostScan| e.name@)
                    =~= pre.filter(|e: HostScan| !e.pid_alive).map_values(
                    |e: HostScan| e.name@,
                ).push(entries@[i as int].name@));
                assert(cur.filter(|e: HostScan| e.pid_alive) =~= pre.filter(
                    |e: HostScan| e.pid_alive,
                ));
            }
        }
        i += 1;
    }
    proof {
        assert(entries@.subrange(0, n as int) =~= entries@);
    }
    (live, stale)
}

/// The rendering of a host info descriptor.
pub open spec fn host_info_seq(info: AgentHostInfo) -> Seq<char> {
    "{\"port\":"@ + crate::text::dec_str(info.port as nat) + ",\"pid\":"@ + crate::text::dec_str(
        info.pid as nat,
    ) + "}"@
}

/// Render the descriptor a host writes beside its slot.
pub fn emit_host_info(info: &AgentHostInfo) -> (r: String)
    ensures
        r@ == host_info_seq(*info),
{
    let mut out = String::from_str("{\"port\":");
    let p = crate::text::dec_string(info.port as u64);
    out.append(p.as_str());
    out.append(",\"pid\":");
    let d = crate::text::dec_string(info.pid as u64);
    out.append(d.as_str());
    out.append("}");
    out
}

/// Everything the shape of a rendered descriptor fixes about it.
proof fn lemma_host_info_shape(s: Seq<char>, info: AgentHostInfo)
    requires
        s == host_info_seq(info),
    ensures
        ({
            let d1 = crate::text::dec_str(info.port as nat);
            let d2 = crate::text::dec_str(info.pid as nat);
            &&& s.len() == 16 + d1.len() + d2.len()
            &&& crate::text::match_at(s, "{\"port\":"@, 0)
            &&& crate::control::canonical_num_at(s, 8)
            &&& crate::control::digits_end(s, 8) == 8 + d1.len()
            &&& crate::control::num_val(s.subrange(8, 8 + d1.len() as int)) == info.port
            &&& crate::text::match_at(s, ",\"pid\":"@, 8 + d1.len() as int)
            &&& crate::control::canonical_num_at(s, 15 + d1.len() as int)
            &&& crate::control::digits_end(s, 15 + d1.len() as int) == 15 + (d1.len()
                + d2.len()) as int
            &&& crate::control::num_val(
                s.subrange(15 + d1.len() as int, 15 + (d1.len() + d2.len()) as int),
            ) == info.pid
            &&& s[15 + (d1.len() + d2.len()) as int] == '}'
        }),
{
    reveal_strlit("{\"port\":");
    reveal_strlit(",\"pid\":");
    reveal_strlit("}");
    let d1 = crate::text::dec_str(info.port as nat);
    let d2 = crate::text::dec_str(info.pid as nat);
    crate::control::lemma_dec_str_canonical(info.port as nat);
    crate::control::lemma_dec_str_canonical(info.pid as nat);
    assert(s.subrange(0, 8) =~= "{\"port\":"@);
    assert(s.subrange(8, 8 + d1.len() as int) =~= d1);
    assert(s.subrange(8 + d1.len() as int, 15 + d1.len() as int) =~= ",\"pid\":"@);
    assert(s.subrange(15 + d1.len() as int, 15 + (d1.len() + d2.len()) as int) =~= d2);
    assert(s[15 + (d1.len() + d2.len()) as int] == "}"@[0]);
    assert(!crate::control::is_digit(',')) by {
        assert((',' as u32) == 0x2c);
    }
    assert(!crate::control::is_digit('}')) by {
        assert(('}' as u32) == 0x7d);
    }
    crate::control::lemma_digits_end_is(s, 8, 8 + d1.len() as int);
    crate::control::lemma_digits_end_is(
        s,
        15 + d1.len() as int,
        15 + (d1.len() + d2.len()) as int,
    );
}

/// Read a host info descriptor back: the canonical rendering of any
/// descriptor is accepted and gives that descriptor back; any other text
/// is rejected.
pub fn parse_host_info(text: &str) -> (r: Option<AgentHostInfo>)
    ensures
        r matches Some(info) ==> text@ == host_info_seq(info),
        forall|info: AgentHostInfo| text@ == host_info_seq(info) ==> r == Some(info),
{
    proof {
        reveal_strlit("{\"port\":");
        reveal_strlit(",\"pid\":");
        reveal_strlit("}");
        assert("{\"port\":"@.len() == 8);
        assert(",\"pid\":"@.len() == 7);
        assert("}"@.len() == 1);
    }
    let v = crate::text::chars_of(text);
    let l1 = crate::text::chars_of("{\"port\":");
    let n = v.len();
    if l1.len() > n || !crate::text::is_match_at(&v, &l1, 0) {
        proof {
            assert forall|info: AgentHostInfo| text@ != host_info_seq(info) by {
                if text@ == host_info_seq(info) {
                    lemma_host_info_shape(text@, info);
                }
            }
        }
        return None;
    }
    let p1 = l1.len();
    let (port, p2) = match crate::control::parse_num_at(&v, p1, 65535) {
        Some(t) => t,
        None => {
            proof {
                assert forall|info: AgentHostInfo| text@ != host_info_seq(info) by {
                    if text@ == host_info_seq(info) {
                        lemma_host_info_shape(text@, info);
                    }
                }
            }
            return None;
        },
    };
    let l2 = crate::text::chars_of(",\"pid\":");
    if l2.len() > n - p2 || !crate::text::is_match_at(&v, &l2, p2) {
        proof {
            assert forall|info: AgentHostInfo| text@ != host_info_seq(info) by {
                if text@ == host_info_seq(info) {
                    lemma_host_info_shape(text@, info);
                }
            }
        }
        return None;
    }
    let p3 = p2 + l2.len();
    let (pid, p4) = match crate::control::parse_num_at(&v, p3, 0xffffffff) {
        Some(t) => t,
        None => {
            proof {
                assert forall|info: AgentHostInfo| text@ != host_info_seq(info) by {
                    if text@ == host_info_seq(info) {
                        lemma_host_info_shape(text@, info);
                    }
                }
            }
            return None;
        },
    };
    let l3 = crate::text::chars_of("}");
    if n - p4 != 1 || !crate::text::is_match_at(&v, &l3, p4) {
        proof {
            assert forall|info: AgentHostInfo| text@ != host_info_seq(info) by {
                if text@ == host_info_seq(info) {
                    lemma_host_info_shape(text@, info);
                    assert(text@.subrange(p4 as int, p4 + 1) =~= "}"@);
                }
            }
        }
        return None;
    }
    let info = AgentHostInfo { port: (port as u16), pid: (pid as u32) };
    proof {
        let d1 = v@.subrange(p1 as int, p2 as int);
        crate::control::lemma_digits_end_run(v@, p1 as int);
        assert(forall|q: int| 0 <= q < d1.len() ==> crate::control::is_digit(#[trigger] d1[q]));
        crate::control::lemma_num_canonical_inj(d1);
        let d2 = v@.subrange(p3 as int, p4 as int);
        crate::control::lemma_digits_end_run(v@, p3 as int);
        assert(forall|q: int| 0 <= q < d2.len() ==> crate::control::is_digit(#[trigger] d2[q]));
        crate::control::lemma_num_canonical_inj(d2);
        assert(v@ =~= host_info_seq(info));
        assert forall|other: AgentHostInfo| text@ == host_info_seq(other) implies Some(info)
            == Some(other) by {
            lemma_host_info_shape(text@, other);
            assert(port == other.port);
            assert(pid == other.pid);
        }
    }
    Some(info)
}

/// Whether a source names a remote repository: it starts with a scheme or
/// a provider login prefix; anything else is a local path.
pub open spec fn is_remote_spec(source: Seq<char>) -> bool {
    ||| crate::text::match_at(source, "https://"@, 0)
    ||| crate::text::match_at(source, "http://"@, 0)
    ||| crate::text::match_at(source, "git@"@, 0)
    ||| crate::text::match_at(source, "ssh://"@, 0)
}

/// Classify a slot source as remote or local.
pub fn is_remote_source(source: &str) -> (r: bool)
    ensures
        r == is_remote_spec(source@),
{
    proof {
        reveal_strlit("https://");
        reveal_strlit("http://");
        reveal_strlit("git@");
        reveal_strlit("ssh://");
    }
    let cs = crate::text::chars_of(source);
    let p1 = crate::text::chars_of("https://");
    let p2 = crate::text::chars_of("http://");
    let p3 = crate::text::chars_of("git@");
    let p4 = crate::text::chars_of("ssh://");
    let n = cs.len();
    let r1 = n >= 8 && crate::text::is_match_at(&cs, &p1, 0);
    let r2 = n >= 7 && crate::text::is_match_at(&cs, &p2, 0);
    let r3 = n >= 4 && crate::text::is_match_at(&cs, &p3, 0);
    let r4 = n >= 6 && crate::text::is_match_at(&cs, &p4, 0);
    r1 || r2 || r3 || r4
}

} // verus!
