//! The data model: slots, port allocations, discovered services, blueprints,
//! the per-repository manifest, repository candidates and agent-host metadata.
//!
//! Timestamps are plain integers (milliseconds since the Unix epoch); the
//! caller supplies the current time where an operation records one.

use vstd::prelude::*;

verus! {

use vstd::string::StringExecFns;

/// Lifecycle state of one workspace slot.
#[derive(Debug, Clone, Copy, PartialEq, Eq, Structural)]
pub enum SlotStatus {
    Provisioning,
    Ready,
    Starting,
    Running,
    Stopping,
    Error,
}

/// Lifecycle state of the coding agent attached to a slot.
#[derive(Debug, Clone, Copy, PartialEq, Eq, Structural)]
pub enum AgentStatus {
    Inactive,
    Starting,
    Active,
    Blocked,
    Stopped,
}

/// One (logical name, TCP port) pair owned by a slot.
#[derive(Debug, Clone, PartialEq, Eq)]
pub struct PortAllocation {
    pub name: String,
    pub port: u16,
}

/// The view of an optional string.
pub open spec fn opt_str(o: Option<String>) -> Option<Seq<char>> {
    match o {
        Some(s) => Some(s@),
        None => None,
    }
}

/// A sequence of (key, value) pairs read as a map in which a later pair
/// with the same key wins.
pub open spec fn pairs_map(s: Seq<(Seq<char>, Seq<char>)>) -> Map<Seq<char>, Seq<char>>
    decreases s.len(),
{
    if s.len() == 0 {
        Map::empty()
    } else {
        pairs_map(s.drop_last()).insert(s.last().0, s.last().1)
    }
}

/// Services discovered from the service-stack log: an optional dashboard URL
/// and a mapping from service name to URL.
#[derive(Debug, Clone)]
pub struct DiscoveredServices {
    pub dashboard_url: Option<String>,
    pub service_urls: Vec<(String, String)>,
}

impl DiscoveredServices {
    /// The service mapping as a mathematical map.
    pub open spec fn smap(&self) -> Map<Seq<char>, Seq<char>> {
        pairs_map(self.service_urls@.map_values(|p: (String, String)| (p.0@, p.1@)))
    }

    /// No two entries share a service name.
    pub open spec fn keys_unique(&self) -> bool {
        forall|i: int, j: int|
            0 <= i < j < self.service_urls@.len() ==> self.service_urls@[i].0@
                != self.service_urls@[j].0@
    }

    /// An empty record: no dashboard, no services.
    pub fn new() -> (r: DiscoveredServices)
        ensures
            r.dashboard_url is None,
            r.service_urls@.len() == 0,
            r.smap() == Map::<Seq<char>, Seq<char>>::empty(),
            r.keys_unique(),
    {
        let r = DiscoveredServices { dashboard_url: None, service_urls: Vec::new() };
        assert(r.service_urls@.map_values(|p: (String, String)| (p.0@, p.1@)) =~= Seq::<
            (Seq<char>, Seq<char>),
        >::empty());
        r
    }

    /// The URL recorded for a service name, if any.
    pub fn get_service_url(&self, name: &str) -> (r: Option<&String>)
        requires
            self.keys_unique(),
        ensures
            match r {
                Some(u) => self.smap().contains_key(name@) && self.smap()[name@] == u@,
                None => !self.smap().contains_key(name@),
            },
    {
        let n = self.service_urls.len();
        let mut i: usize = 0;
        while i < n
            invariant
                i <= n,
                n == self.service_urls@.len(),
                self.keys_unique(),
                forall|j: int| 0 <= j < i ==> self.service_urls@[j].0@ != name@,
            decreases n - i,
        {
            if crate::text::str_eq(self.service_urls[i].0.as_str(), name) {
                assert(self.smap().contains_key(name@) && self.smap()[name@]
                    == self.service_urls@[i as int].1@) by {
                    lemma_pairs_map_unique(
                        self.service_urls@.map_values(|p: (String, String)| (p.0@, p.1@)),
                        i as int,
                    );
                }
                return Some(&self.service_urls[i].1);
            }
            i += 1;
        }
        assert(!self.smap().contains_key(name@)) by {
            lemma_pairs_map_no_key(
                self.service_urls@.map_values(|p: (String, String)| (p.0@, p.1@)),
                name@,
            );
        }
        None
    }

    /// The index of the entry carrying a service name, if any.
    fn find_service_index(&self, name: &str) -> (r: Option<usize>)
        ensures
            match r {
                Some(i) => i < self.service_urls@.len() && self.service_urls@[i as int].0@
                    == name@,
                None => forall|j: int|
                    0 <= j < self.service_urls@.len() ==> self.service_urls@[j].0@ != name@,
            },
    {
        let n = self.service_urls.len();
        let mut i: usize = 0;
        while i < n
            invariant
                i <= n,
                n == self.service_urls@.len(),
                forall|j: int| 0 <= j < i ==> self.service_urls@[j].0@ != name@,
            decreases n - i,
        {
            if crate::text::str_eq(self.service_urls[i].0.as_str(), name) {
                return Some(i);
            }
            i += 1;
        }
        None
    }

    /// Record a service URL, replacing an existing entry of the same name.
    pub fn upsert_service(&mut self, name: String, url: String)
        requires
            old(self).keys_unique(),
        ensures
            final(self).keys_unique(),
            final(self).smap() == old(self).smap().insert(name@, url@),
            final(self).dashboard_url == old(self).dashboard_url,
    {
        let ghost before = self.service_urls@.map_values(|p: (String, String)| (p.0@, p.1@));
        let found = self.find_service_index(name.as_str());
        match found {
            Some(i) => {
                self.service_urls.set(i, (name, url));
                proof {
                    let after = self.service_urls@.map_values(|p: (String, String)| (p.0@, p.1@));
                    assert(after =~= before.update(i as int, (before[i as int].0, url@)));
                    lemma_pairs_map_update_same_key(before, i as int, url@);
                    assert(forall|a: int, b: int|
                        0 <= a < b < self.service_urls@.len()
                            ==> self.service_urls@[a].0@ != self.service_urls@[b].0@) by {
                        assert(forall|a: int|
                            0 <= a < self.service_urls@.len() && a != i
                                ==> self.service_urls@[a].0@ == old(self).service_urls@[a].0@);
                        assert(self.service_urls@[i as int].0@ == old(
                            self,
                        ).service_urls@[i as int].0@);
                    }
                }
            },
            None => {
                self.service_urls.push((name, url));
                proof {
                    let after = self.service_urls@.map_values(|p: (String, String)| (p.0@, p.1@));
                    assert(after.drop_last() =~= before);
                    assert(after.last() == (after[after.len() - 1].0, after[after.len() - 1].1));
                    assert(pairs_map(after) == pairs_map(before).insert(
                        after.last().0,
                        after.last().1,
                    ));
                    assert(self.smap() == old(self).smap().insert(name@, url@));
                }
            },
        }
    }
}

/// In `s` the key of entry `i` names a unique entry; the map built from `s`
/// therefore carries that entry's value.
proof fn lemma_pairs_map_unique(s: Seq<(Seq<char>, Seq<char>)>, i: int)
    requires
        0 <= i < s.len(),
        forall|j: int| i < j < s.len() ==> s[j].0 != s[i].0,
    ensures
        pairs_map(s).contains_key(s[i].0),
        pairs_map(s)[s[i].0] == s[i].1,
    decreases s.len(),
{
    if i == s.len() - 1 {
    } else {
        assert(s.drop_last()[i] == s[i]);
        lemma_pairs_map_unique(s.drop_last(), i);
    }
}

/// A key that no entry of `s` carries is absent from the map built from `s`.
proof fn lemma_pairs_map_no_key(s: Seq<(Seq<char>, Seq<char>)>, k: Seq<char>)
    requires
        forall|j: int| 0 <= j < s.len() ==> s[j].0 != k,
    ensures
        !pairs_map(s).contains_key(k),
    decreases s.len(),
{
    if s.len() > 0 {
        lemma_pairs_map_no_key(s.drop_last(), k);
    }
}

/// Replacing the value of entry `i`, whose key is unique in `s`, changes the
/// map built from `s` exactly at that key.
proof fn lemma_pairs_map_update_same_key(s: Seq<(Seq<char>, Seq<char>)>, i: int, v: Seq<char>)
    requires
        0 <= i < s.len(),
        forall|j: int| 0 <= j < s.len() && j != i ==> s[j].0 != s[i].0,
    ensures
        pairs_map(s.update(i, (s[i].0, v))) == pairs_map(s).insert(s[i].0, v),
    decreases s.len(),
{
    let t = s.update(i, (s[i].0, v));
    if i == s.len() - 1 {
        assert(t.drop_last() =~= s.drop_last());
        assert(pairs_map(t) =~= pairs_map(s).insert(s[i].0, v));
    } else {
        assert(t.drop_last() =~= s.drop_last().update(i, (s[i].0, v)));
        assert(s.drop_last()[i] == s[i]);
        lemma_pairs_map_update_same_key(s.drop_last(), i, v);
        assert(t.last() == s.last());
        assert(pairs_map(t) =~= pairs_map(s).insert(s[i].0, v));
    }
}

/// One workspace: a cloned repository, its processes and its ports.
#[derive(Debug, Clone)]
pub struct Slot {
    pub name: String,
    pub repo_path: String,
    pub branch: String,
    pub clone_path: String,
    pub status: SlotStatus,
    pub agent_status: AgentStatus,
    pub port_allocations: Vec<PortAllocation>,
    pub services: DiscoveredServices,
    pub created_at: i64,
    pub aspire_started_at: Option<i64>,
    pub agent_started_at: Option<i64>,
    pub last_agent_output_at: Option<i64>,
}

impl Slot {
    /// A freshly provisioned slot: no agent, no ports, no services.
    pub fn new(name: String, repo_path: String, branch: String, clone_path: String, now: i64) -> (r:
        Slot)
        ensures
            r.name == name,
            r.repo_path == repo_path,
            r.branch == branch,
            r.clone_path == clone_path,
            r.status is Provisioning,
            r.agent_status is Inactive,
            r.port_allocations@.len() == 0,
            r.services.dashboard_url is None,
            r.services.service_urls@.len() == 0,
            r.services.keys_unique(),
            r.created_at == now,
            r.aspire_started_at is None,
            r.agent_started_at is None,
            r.last_agent_output_at is None,
    {
        Slot {
            name,
            repo_path,
            branch,
            clone_path,
            status: SlotStatus::Provisioning,
            agent_status: AgentStatus::Inactive,
            port_allocations: Vec::new(),
            services: DiscoveredServices::new(),
            created_at: now,
            aspire_started_at: None,
            agent_started_at: None,
            last_agent_output_at: None,
        }
    }

    /// The terminal-multiplexer session name of this slot.
    pub fn tmux_session(&self) -> (r: String)
        ensures
            r@ == "ao-"@ + self.name@,
    {
        let mut r = String::from_str("ao-");
        r.append(self.name.as_str());
        r
    }

    /// The path of the captured service-stack log inside the clone.
    pub fn aspire_log_path(&self) -> (r: String)
        ensures
            r@ == self.clone_path@ + "/.aspire-orchestrator-aspire.log"@,
    {
        let mut r = self.clone_path.clone();
        r.append("/.aspire-orchestrator-aspire.log");
        r
    }

    /// The path of the captured agent log inside the clone.
    pub fn agent_log_path(&self) -> (r: String)
        ensures
            r@ == self.clone_path@ + "/.aspire-orchestrator-agent.log"@,
    {
        let mut r = self.clone_path.clone();
        r.append("/.aspire-orchestrator-agent.log");
        r
    }
}

/// The per-repository manifest: the service-composition entry point, setup
/// commands, and user-pinned port overrides.
#[derive(Debug, Clone)]
pub struct OrchestratorConfig {
    pub apphost: String,
    pub setup: Vec<String>,
    pub port_overrides: Vec<(String, u16)>,
}

/// A repository candidate discovered by a filesystem scan or a hosting
/// provider listing.
#[derive(Debug, Clone)]
pub struct RepoCandidate {
    pub name: String,
    pub local_path: Option<String>,
    pub remote_url: Option<String>,
}

impl RepoCandidate {
    /// The value to fill into a source field: the local path if available,
    /// else the remote URL, else the bare name.
    pub fn source_value(&self) -> (r: &str)
        ensures
            r@ == if self.local_path is Some {
                self.local_path->0@
            } else if self.remote_url is Some {
                self.remote_url->0@
            } else {
                self.name@
            },
    {
        if let Some(p) = &self.local_path {
            p.as_str()
        } else if let Some(u) = &self.remote_url {
            u.as_str()
        } else {
            self.name.as_str()
        }
    }

    /// The label shown for this candidate.
    pub fn display_label(&self) -> (r: &str)
        ensures
            r@ == self.name@,
    {
        self.name.as_str()
    }

    /// Where the repository lives: the local path, or a remote marker.
    pub fn location_hint(&self) -> (r: &str)
        ensures
            r@ == if self.local_path is Some {
                self.local_path->0@
            } else {
                "(remote)"@
            },
    {
        if let Some(p) = &self.local_path {
            p.as_str()
        } else {
            "(remote)"
        }
    }

    /// Whether this candidate has a local clone.
    pub fn is_local(&self) -> (r: bool)
        ensures
            r == (self.local_path is Some),
    {
        self.local_path.is_some()
    }
}

/// Descriptor written by a detached agent-host process: its TCP port and
/// its process id.
#[derive(Debug, Clone, PartialEq, Eq, Structural)]
pub struct AgentHostInfo {
    pub port: u16,
    pub pid: u32,
}

/// A named multi-slot template.
#[derive(Debug, Clone)]
pub struct Blueprint {
    pub name: String,
    pub description: Option<String>,
    pub defaults: Option<BlueprintDefaults>,
    pub slots: Vec<BlueprintSlotEntry>,
}

/// Default values applied to all blueprint entries unless overridden.
#[derive(Debug, Clone)]
pub struct BlueprintDefaults {
    pub source: Option<String>,
    pub auto_start_aspire: Option<bool>,
    pub auto_spawn_agent: Option<bool>,
    pub agent: Option<BlueprintAgentConfig>,
}

/// Agent configuration carried by a blueprint.
#[derive(Debug, Clone)]
pub struct BlueprintAgentConfig {
    pub prompt_template: Option<String>,
    pub allowed_tools: Option<String>,
    pub max_turns: Option<u32>,
}

/// A single slot entry of a blueprint.
#[derive(Debug, Clone)]
pub struct BlueprintSlotEntry {
    pub name: String,
    pub branch: Option<String>,
    pub source: Option<String>,
    pub auto_start_aspire: Option<bool>,
    pub auto_spawn_agent: Option<bool>,
    pub agent: Option<BlueprintAgentConfig>,
}

/// One blueprint entry after merging the defaults into it.
#[derive(Debug, Clone)]
pub struct ResolvedBlueprintSlot {
    pub name: String,
    pub source: String,
    pub branch: Option<String>,
    pub auto_start_aspire: bool,
    pub auto_spawn_agent: bool,
    pub prompt: Option<String>,
    pub allowed_tools: Option<String>,
    pub max_turns: Option<u32>,
}

} // verus!
