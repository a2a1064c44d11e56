//! The slot registry: the canonical list of slots, composed with the port
//! allocator. Creation and destruction keep one invariant at all times:
//! the ports held by live slots are exactly the ports the allocator
//! tracks, no two slots share a name, and no two slots share a port.
//!
//! The long-running work around these decisions (cloning, spawning,
//! killing, persisting) happens outside; callers consult and mutate the
//! registry between those steps.

use vstd::prelude::*;

verus! {

use crate::discovery::{dashboard_of, svc_matches_from};
use crate::errors::OrchestratorError;
use crate::models::{opt_str, pairs_map, AgentStatus, DiscoveredServices, PortAllocation, Slot, SlotStatus};
use crate::ports::{overrides_alloc, PortAllocator};
use crate::text::str_eq;
use vstd::string::StringExecFns;

/// The set of ports a list of allocations holds.
pub open spec fn alloc_ports(a: Seq<PortAllocation>) -> Set<u16> {
    a.map_values(|p: PortAllocation| p.port).to_set()
}

/// The set of ports held across a list of slots.
pub open spec fn slots_ports(s: Seq<Slot>) -> Set<u16>
    decreases s.len(),
{
    if s.len() == 0 {
        Set::empty()
    } else {
        slots_ports(s.drop_last()).union(alloc_ports(s.last().port_allocations@))
    }
}

/// No two slots carry the same name.
pub open spec fn names_unique(s: Seq<Slot>) -> bool {
    forall|i: int, j: int| 0 <= i < j < s.len() ==> s[i].name@ != s[j].name@
}

/// No two slots hold the same port.
pub open spec fn ports_disjoint(s: Seq<Slot>) -> bool {
    forall|i: int, j: int|
        0 <= i < j < s.len() ==> alloc_ports(s[i].port_allocations@).disjoint(
            alloc_ports(s[j].port_allocations@),
        )
}

/// Each slot's ports are among the ports of the whole list.
proof fn lemma_slots_ports_member(s: Seq<Slot>, i: int)
    requires
        0 <= i < s.len(),
    ensures
        alloc_ports(s[i].port_allocations@).subset_of(slots_ports(s)),
    decreases s.len(),
{
    if i == s.len() - 1 {
    } else {
        assert(s.drop_last()[i] == s[i]);
        lemma_slots_ports_member(s.drop_last(), i);
    }
}

/// Updating one slot without touching its allocations keeps the ports of
/// the list.
proof fn lemma_slots_ports_update(s: Seq<Slot>, i: int, sl: Slot)
    requires
        0 <= i < s.len(),
        sl.port_allocations@ == s[i].port_allocations@,
    ensures
        slots_ports(s.update(i, sl)) == slots_ports(s),
    decreases s.len(),
{
    let t = s.update(i, sl);
    if i == s.len() - 1 {
        assert(t.drop_last() =~= s.drop_last());
        assert(slots_ports(t) =~= slots_ports(s));
    } else {
        assert(t.drop_last() =~= s.drop_last().update(i, sl));
        assert(s.drop_last()[i] == s[i]);
        lemma_slots_ports_update(s.drop_last(), i, sl);
        assert(t.last() == s.last());
        assert(slots_ports(t) =~= slots_ports(s));
    }
}

/// Removing one slot takes exactly its ports out of the list's ports,
/// provided no other slot shares them.
proof fn lemma_slots_ports_remove(s: Seq<Slot>, i: int)
    requires
        0 <= i < s.len(),
        ports_disjoint(s),
    ensures
        slots_ports(s.remove(i)) == slots_ports(s).difference(alloc_ports(s[i].port_allocations@)),
    decreases s.len(),
{
    let t = s.remove(i);
    let pi = alloc_ports(s[i].port_allocations@);
    if i == s.len() - 1 {
        assert(t =~= s.drop_last());
        assert forall|x: u16|
            slots_ports(s.drop_last()).contains(x) implies !pi.contains(x) || false by {
            if pi.contains(x) && slots_ports(s.drop_last()).contains(x) {
                lemma_slots_ports_no_stray(s.drop_last(), x);
                let j = choose|j: int|
                    0 <= j < s.drop_last().len() && alloc_ports(
                        s.drop_last()[j].port_allocations@,
                    ).contains(x);
                assert(s[j] == s.drop_last()[j]);
                assert(alloc_ports(s[j].port_allocations@).disjoint(pi));
            }
        }
        assert(slots_ports(t) =~= slots_ports(s).difference(pi));
    } else {
        assert(t.drop_last() =~= s.drop_last().remove(i));
        assert(s.drop_last()[i] == s[i]);
        assert(ports_disjoint(s.drop_last())) by {
            assert(forall|a: int, b: int|
                0 <= a < b < s.drop_last().len() ==> s.drop_last()[a] == s[a] && s.drop_last()[b]
                    == s[b]);
        }
        lemma_slots_ports_remove(s.drop_last(), i);
        assert(t.last() == s.last());
        let plast = alloc_ports(s.last().port_allocations@);
        assert(pi.disjoint(plast)) by {
            assert(alloc_ports(s[i].port_allocations@).disjoint(
                alloc_ports(s[s.len() - 1].port_allocations@),
            ));
        }
        assert(slots_ports(t) =~= slots_ports(s).difference(pi));
    }
}

/// A port in the list's ports belongs to some slot of the list.
proof fn lemma_slots_ports_no_stray(s: Seq<Slot>, x: u16)
    requires
        slots_ports(s).contains(x),
    ensures
        exists|j: int|
            0 <= j < s.len() && alloc_ports(#[trigger] s[j].port_allocations@).contains(x),
    decreases s.len(),
{
    if s.len() > 0 {
        if alloc_ports(s.last().port_allocations@).contains(x) {
            assert(s[s.len() - 1] == s.last());
        } else {
            lemma_slots_ports_no_stray(s.drop_last(), x);
            let j = choose|j: int|
                0 <= j < s.drop_last().len() && alloc_ports(
                    #[trigger] s.drop_last()[j].port_allocations@,
                ).contains(x);
            assert(s[j] == s.drop_last()[j]);
        }
    }
}

/// Two slots that agree on every observable field: the scalar fields are
/// equal outright, and the vector-backed fields hold the same elements.
pub open spec fn same_slot(a: Slot, b: Slot) -> bool {
    &&& a.name == b.name
    &&& a.repo_path == b.repo_path
    &&& a.branch == b.branch
    &&& a.clone_path == b.clone_path
    &&& a.status == b.status
    &&& a.agent_status == b.agent_status
    &&& a.port_allocations@ == b.port_allocations@
    &&& a.services.dashboard_url == b.services.dashboard_url
    &&& a.services.service_urls@ == b.services.service_urls@
    &&& a.created_at == b.created_at
    &&& a.aspire_started_at == b.aspire_started_at
    &&& a.agent_started_at == b.agent_started_at
    &&& a.last_agent_output_at == b.last_agent_output_at
}

/// A field-for-field copy of a slot.
pub fn clone_slot(s: &Slot) -> (r: Slot)
    ensures
        same_slot(r, *s),
{
    let mut allocations: Vec<PortAllocation> = Vec::new();
    let n = s.port_allocations.len();
    let mut i: usize = 0;
    while i < n
        invariant
            i <= n,
            n == s.port_allocations@.len(),
            allocations@ =~= s.port_allocations@.subrange(0, i as int),
        decreases n - i,
    {
        allocations.push(
            PortAllocation {
                name: s.port_allocations[i].name.clone(),
                port: s.port_allocations[i].port,
            },
        );
        assert(allocations@[i as int] == s.port_allocations@[i as int]);
        assert(allocations@ =~= s.port_allocations@.subrange(0, i + 1));
        i += 1;
    }
    assert(allocations@ =~= s.port_allocations@);

    let mut urls: Vec<(String, String)> = Vec::new();
    let m = s.services.service_urls.len();
    let mut j: usize = 0;
    while j < m
        invariant
            j <= m,
            m == s.services.service_urls@.len(),
            urls@ =~= s.services.service_urls@.subrange(0, j as int),
        decreases m - j,
    {
        urls.push((s.services.service_urls[j].0.clone(), s.services.service_urls[j].1.clone()));
        assert(urls@[j as int] == s.services.service_urls@[j as int]);
        assert(urls@ =~= s.services.service_urls@.subrange(0, j + 1));
        j += 1;
    }
    assert(urls@ =~= s.services.service_urls@);

    Slot {
        name: s.name.clone(),
        repo_path: s.repo_path.clone(),
        branch: s.branch.clone(),
        clone_path: s.clone_path.clone(),
        status: s.status,
        agent_status: s.agent_status,
        port_allocations: allocations,
        services: DiscoveredServices {
            dashboard_url: match &s.services.dashboard_url {
                Some(u) => Some(u.clone()),
                None => None,
            },
            service_urls: urls,
        },
        created_at: s.created_at,
        aspire_started_at: s.aspire_started_at,
        agent_started_at: s.agent_started_at,
        last_agent_output_at: s.last_agent_output_at,
    }
}

/// Updating one slot in place, keeping its name and its allocations,
/// preserves the registry's structural invariants.
proof fn lemma_update_preserves(s: Seq<Slot>, i: int, sl: Slot)
    requires
        0 <= i < s.len(),
        names_unique(s),
        ports_disjoint(s),
        sl.name@ == s[i].name@,
        sl.port_allocations@ == s[i].port_allocations@,
    ensures
        names_unique(s.update(i, sl)),
        ports_disjoint(s.update(i, sl)),
        slots_ports(s.update(i, sl)) == slots_ports(s),
{
    lemma_slots_ports_update(s, i, sl);
    let t = s.update(i, sl);
    assert forall|a: int, b: int| 0 <= a < b < t.len() implies t[a].name@ != t[b].name@ by {
        assert(t[a].name@ == s[a].name@);
        assert(t[b].name@ == s[b].name@);
    }
    assert forall|a: int, b: int|
        0 <= a < b < t.len() implies alloc_ports(t[a].port_allocations@).disjoint(
        alloc_ports(t[b].port_allocations@),
    ) by {
        assert(t[a].port_allocations@ == s[a].port_allocations@);
        assert(t[b].port_allocations@ == s[b].port_allocations@);
    }
}

/// The registry of live slots and the allocator that backs their ports.
pub struct SlotRegistry {
    pub slots: Vec<Slot>,
    pub allocator: PortAllocator,
}

impl SlotRegistry {
    /// The registry invariant: unique names, pairwise disjoint ports, and
    /// the ports of live slots are exactly the tracked set.
    pub open spec fn wf(&self) -> bool {
        &&& self.allocator.wf()
        &&& names_unique(self.slots@)
        &&& ports_disjoint(self.slots@)
        &&& slots_ports(self.slots@) == self.allocator.ports()
    }

    /// The registry holds a slot of this name.
    pub open spec fn has_name(&self, name: Seq<char>) -> bool {
        exists|i: int| 0 <= i < self.slots@.len() && (#[trigger] self.slots@[i].name@) == name
    }

    /// An empty registry.
    pub fn new() -> (r: SlotRegistry)
        ensures
            r.wf(),
            r.slots@.len() == 0,
            r.allocator.ports() == Set::<u16>::empty(),
            r.allocator.feed_rem() == Seq::<u16>::empty(),
    {
        SlotRegistry { slots: Vec::new(), allocator: PortAllocator::new() }
    }

    /// Hand candidate ports from the operating system to the allocator.
    pub fn offer_ports(&mut self, ports: &Vec<u16>)
        requires
            old(self).wf(),
        ensures
            final(self).wf(),
            final(self).slots@ == old(self).slots@,
            final(self).allocator.ports() == old(self).allocator.ports(),
            final(self).allocator.feed_rem() == old(self).allocator.feed_rem() + ports@,
    {
        self.allocator.offer_ports(ports);
    }

    /// The index of the slot carrying a name, if any.
    fn find_index(&self, name: &str) -> (r: Option<usize>)
        ensures
            match r {
                Some(i) => i < self.slots@.len() && self.slots@[i as int].name@ == name@,
                None => !self.has_name(name@),
            },
    {
        let n = self.slots.len();
        let mut i: usize = 0;
        while i < n
            invariant
                i <= n,
                n == self.slots@.len(),
                forall|j: int| 0 <= j < i ==> (#[trigger] self.slots@[j].name@) != name@,
            decreases n - i,
        {
            if str_eq(self.slots[i].name.as_str(), name) {
                return Some(i);
            }
            i += 1;
        }
        None
    }

    /// A copy of the slot carrying a name, if any.
    pub fn get_slot(&self, name: &str) -> (r: Option<Slot>)
        ensures
            match r {
                Some(sl) => self.has_name(name@) && sl.name@ == name@ && (exists|i: int|
                    0 <= i < self.slots@.len() && same_slot(sl, #[trigger] self.slots@[i])),
                None => !self.has_name(name@),
            },
    {
        match self.find_index(name) {
            Some(i) => {
                let sl = clone_slot(&self.slots[i]);
                assert(same_slot(sl, self.slots@[i as int]));
                Some(sl)
            },
            None => None,
        }
    }

    /// Register a freshly provisioned slot, allocating its ports from the
    /// pinned overrides with feed fallback. A duplicate name is rejected
    /// and changes nothing; a failed allocation changes nothing either.
    pub fn create_slot(&mut self, slot: Slot, overrides: &Vec<PortAllocation>) -> (r: Result<
        Slot,
        OrchestratorError,
    >)
        requires
            old(self).wf(),
            slot.port_allocations@.len() == 0,
        ensures
            final(self).wf(),
            old(self).has_name(slot.name@) ==> (r matches Err(e) && e is SlotAlreadyExists
                && final(self).slots@ == old(self).slots@ && final(self).allocator.ports() == old(self).allocator.ports()),
            !old(self).has_name(slot.name@) ==> match r {
                Ok(s2) => {
                    &&& (overrides_alloc(
                        old(self).allocator.ports(),
                        old(self).allocator.feed_rem(),
                        overrides@.map_values(|a: PortAllocation| (a.name@, a.port)),
                    ) matches Some(t) && final(self).slots@.last().port_allocations@.map_values(
                        |a: PortAllocation| (a.name@, a.port),
                    ) == t.0 && final(self).allocator.ports() == t.1)
                    &&& final(self).slots@.len() == old(self).slots@.len() + 1
                    &&& final(self).slots@.drop_last() == old(self).slots@
                    &&& (final(self).slots@.last() == (Slot {
                        port_allocations: final(self).slots@.last().port_allocations,
                        ..slot
                    }))
                    &&& same_slot(s2, final(self).slots@.last())
                },
                Err(e) => {
                    &&& e is PortAllocation
                    &&& overrides_alloc(
                        old(self).allocator.ports(),
                        old(self).allocator.feed_rem(),
                        overrides@.map_values(|a: PortAllocation| (a.name@, a.port)),
                    ) is None
                    &&& final(self).slots@ == old(self).slots@
                    &&& final(self).allocator.ports() == old(self).allocator.ports()
                },
            },
    {
        let name_taken = self.find_index(slot.name.as_str());
        if let Some(_) = name_taken {
            return Err(OrchestratorError::SlotAlreadyExists(slot.name.clone()));
        }
        match self.allocator.allocate_for_overrides(overrides) {
            Ok(granted) => {
                proof {
                    crate::ports::lemma_overrides_alloc_granted(
                        old(self).allocator.ports(),
                        old(self).allocator.feed_rem(),
                        overrides@.map_values(|a: PortAllocation| (a.name@, a.port)),
                    );
                }
                let mut s2 = slot;
                s2.port_allocations = granted;
                let ghost s2g = s2;
                let sl = clone_slot(&s2);
                self.slots.push(s2);
                proof {
                    let t = overrides_alloc(
                        old(self).allocator.ports(),
                        old(self).allocator.feed_rem(),
                        overrides@.map_values(|a: PortAllocation| (a.name@, a.port)),
                    )->0;
                    let news = self.slots@;
                    assert(news.drop_last() =~= old(self).slots@);
                    assert(news.last() == s2g);
                    let used0 = old(self).allocator.ports();
                    let m = s2g.port_allocations@.map_values(|p: PortAllocation| p.port);
                    let t0p = t.0.map_values(|pr: (Seq<char>, u16)| pr.1);
                    let pairs = s2g.port_allocations@.map_values(
                        |a: PortAllocation| (a.name@, a.port),
                    );
                    assert(pairs == t.0);
                    assert(m =~= t0p) by {
                        assert(forall|k: int|
                            0 <= k < m.len() ==> (#[trigger] t0p[k]) == t.0[k].1);
                        assert(forall|k: int|
                            0 <= k < m.len() ==> (#[trigger] m[k])
                                == s2g.port_allocations@[k].port);
                        assert(forall|k: int|
                            0 <= k < m.len() ==> (#[trigger] pairs[k]) == (
                            s2g.port_allocations@[k].name@,
                            s2g.port_allocations@[k].port,
                            ));
                    }
                    let gp = alloc_ports(s2g.port_allocations@);
                    assert(gp =~= t0p.to_set());
                    assert(t.1 == used0.union(t0p.to_set()));
                    assert forall|x: u16| gp.contains(x) implies !used0.contains(x) by {
                        let k = choose|k: int| 0 <= k < t0p.len() && (#[trigger] t0p[k]) == x;
                        assert(t.0[k].1 == x);
                        assert(!used0.contains((t.0[k]).1));
                    }
                    assert(slots_ports(news) =~= self.allocator.ports()) by {
                        assert(slots_ports(news) == slots_ports(old(self).slots@).union(gp));
                        assert(slots_ports(old(self).slots@) == used0);
                        assert(used0.union(gp) =~= used0.union(t0p.to_set()));
                    }
                    assert(names_unique(news)) by {
                        assert(forall|i: int|
                            0 <= i < old(self).slots@.len() ==> (#[trigger] news[i]) == old(self).slots@[i]);
                    }
                    assert(ports_disjoint(news)) by {
                        assert forall|i: int, j: int|
                            0 <= i < j < news.len() implies alloc_ports(
                            news[i].port_allocations@,
                        ).disjoint(alloc_ports(news[j].port_allocations@)) by {
                            if j == news.len() - 1 {
                                assert(news[i] == old(self).slots@[i]);
                                lemma_slots_ports_member(old(self).slots@, i);
                                assert forall|x: u16|
                                    alloc_ports(news[i].port_allocations@).contains(x) implies !gp
                                        .contains(x) by {
                                    assert(used0.contains(x));
                                }
                            } else {
                                assert(news[i] == old(self).slots@[i]);
                                assert(news[j] == old(self).slots@[j]);
                            }
                        }
                    }
                }
                Ok(sl)
            },
            Err(e) => {
                proof {
                    assert(e is PortAllocation);
                }
                Err(e)
            },
        }
    }

    /// Remove a slot and release every port it held; a name that is not
    /// registered changes nothing. The freed ports leave the tracked set.
    pub fn destroy_slot(&mut self, name: &str)
        requires
            old(self).wf(),
        ensures
            final(self).wf(),
            !old(self).has_name(name@) ==> *final(self) == *old(self),
            final(self).has_name(name@) == false,
            old(self).has_name(name@) ==> (exists|i: int|
                0 <= i < old(self).slots@.len() && old(self).slots@[i].name@ == name@
                    && final(self).slots@ == old(self).slots@.remove(i)
                    && final(self).allocator.ports() == old(self).allocator.ports().difference(
                    alloc_ports(#[trigger] old(self).slots@[i].port_allocations@),
                )),
    {
        let found = self.find_index(name);
        match found {
            None => {
                proof {
                    assert(*self == *old(self));
                }
            },
            Some(i) => {
                let ghost victim = self.slots@[i as int];
                let ghost vset = alloc_ports(victim.port_allocations@);
                let m = self.slots[i].port_allocations.len();
                let mut k: usize = 0;
                while k < m
                    invariant
                        k <= m,
                        i < self.slots@.len(),
                        self.slots@ == old(self).slots@,
                        victim == self.slots@[i as int],
                        m == victim.port_allocations@.len(),
                        self.allocator.wf(),
                        self.allocator.ports() == old(self).allocator.ports().difference(
                            victim.port_allocations@.subrange(0, k as int).map_values(
                                |p: PortAllocation| p.port,
                            ).to_set(),
                        ),
                    decreases m - k,
                {
                    let p = self.slots[i].port_allocations[k].port;
                    self.allocator.release(p);
                    proof {
                        let pre = victim.port_allocations@.subrange(0, k as int).map_values(
                            |p: PortAllocation| p.port,
                        );
                        let cur = victim.port_allocations@.subrange(0, k + 1).map_values(
                            |p: PortAllocation| p.port,
                        );
                        assert(cur =~= pre.push(p));
                        crate::ports::lemma_port_set_push(pre, p);
                        assert(old(self).allocator.ports().difference(pre.to_set()).remove(p)
                            =~= old(self).allocator.ports().difference(cur.to_set()));
                    }
                    k += 1;
                }
                proof {
                    assert(victim.port_allocations@.subrange(0, m as int)
                        =~= victim.port_allocations@);
                }
                self.slots.remove(i);
                proof {
                    let olds = old(self).slots@;
                    let t = self.slots@;
                    assert(t =~= olds.subrange(0, i as int) + olds.skip(i as int + 1));
                    assert(forall|a: int| 0 <= a < i ==> (#[trigger] t[a]) == olds[a]);
                    assert(forall|a: int|
                        i <= a < t.len() ==> (#[trigger] t[a]) == olds[a + 1]);
                    lemma_slots_ports_remove(olds, i as int);
                    assert(slots_ports(t) =~= self.allocator.ports());
                    assert forall|a: int, b: int|
                        0 <= a < b < t.len() implies t[a].name@ != t[b].name@ by {}
                    assert forall|a: int, b: int|
                        0 <= a < b < t.len() implies alloc_ports(t[a].port_allocations@).disjoint(
                        alloc_ports(t[b].port_allocations@),
                    ) by {}
                    assert(!self.has_name(name@)) by {
                        if self.has_name(name@) {
                            let j = choose|j: int|
                                0 <= j < t.len() && (#[trigger] t[j].name@) == name@;
                            assert(olds[i as int].name@ == name@);
                        }
                    }
                }
            },
        }
    }

    /// Reset the slots whose agent host is gone: any slot whose name is not
    /// in the live list goes back to Ready with no agent.
    pub fn reconnect(&mut self, live: &Vec<String>)
        requires
            old(self).wf(),
        ensures
            final(self).wf(),
            final(self).slots@.len() == old(self).slots@.len(),
            forall|i: int|
                0 <= i < old(self).slots@.len() ==> (#[trigger] final(self).slots@[i]) == (
                if live@.map_values(|s: String| s@).contains(old(self).slots@[i].name@) {
                    old(self).slots@[i]
                } else {
                    (Slot {
                        status: SlotStatus::Ready,
                        agent_status: AgentStatus::Inactive,
                        ..old(self).slots@[i]
                    })
                }),
    {
        let n = self.slots.len();
        let mut i: usize = 0;
        while i < n
            invariant
                i <= n,
                n == self.slots@.len(),
                n == old(self).slots@.len(),
                self.allocator == old(self).allocator,
                self.allocator.wf(),
                names_unique(self.slots@),
                ports_disjoint(self.slots@),
                slots_ports(self.slots@) == slots_ports(old(self).slots@),
                forall|j: int| i <= j < n ==> (#[trigger] self.slots@[j]) == old(self).slots@[j],
                forall|j: int|
                    0 <= j < i ==> (#[trigger] self.slots@[j]) == (if live@.map_values(
                        |s: String| s@,
                    ).contains(old(self).slots@[j].name@) {
                        old(self).slots@[j]
                    } else {
                        (Slot {
                            status: SlotStatus::Ready,
                            agent_status: AgentStatus::Inactive,
                            ..old(self).slots@[j]
                        })
                    }),
            decreases n - i,
        {
            let alive = contains_name(live, self.slots[i].name.as_str());
            if !alive {
                let ghost pre = self.slots@;
                let mut sl = self.slots.remove(i);
                sl.status = SlotStatus::Ready;
                sl.agent_status = AgentStatus::Inactive;
                self.slots.insert(i, sl);
                proof {
                    assert(self.slots@ =~= pre.update(i as int, self.slots@[i as int]));
                    lemma_update_preserves(pre, i as int, self.slots@[i as int]);
                }
            }
            i += 1;
        }
    }

    /// Set the lifecycle status of a slot; false when the name is unknown.
    pub fn set_status(&mut self, name: &str, status: SlotStatus) -> (r: bool)
        requires
            old(self).wf(),
        ensures
            final(self).wf(),
            r == old(self).has_name(name@),
            r ==> exists|i: int|
                0 <= i < old(self).slots@.len() && old(self).slots@[i].name@ == name@
                    && final(self).slots@ == old(self).slots@.update(
                    i,
                    (Slot { status, ..#[trigger] old(self).slots@[i] }),
                ),
            !r ==> *final(self) == *old(self),
    {
        match self.find_index(name) {
            Some(i) => {
                let ghost pre = self.slots@;
                let mut sl = self.slots.remove(i);
                sl.status = status;
                self.slots.insert(i, sl);
                proof {
                    assert(self.slots@ =~= pre.update(i as int, self.slots@[i as int]));
                    lemma_update_preserves(pre, i as int, self.slots@[i as int]);
                }
                true
            },
            None => false,
        }
    }

    /// Set the agent status of a slot; false when the name is unknown.
    pub fn set_agent_status(&mut self, name: &str, status: AgentStatus) -> (r: bool)
        requires
            old(self).wf(),
        ensures
            final(self).wf(),
            r == old(self).has_name(name@),
            r ==> exists|i: int|
                0 <= i < old(self).slots@.len() && old(self).slots@[i].name@ == name@
                    && final(self).slots@ == old(self).slots@.update(
                    i,
                    (Slot { agent_status: status, ..#[trigger] old(self).slots@[i] }),
                ),
            !r ==> *final(self) == *old(self),
    {
        match self.find_index(name) {
            Some(i) => {
                let ghost pre = self.slots@;
                let mut sl = self.slots.remove(i);
                sl.agent_status = status;
                self.slots.insert(i, sl);
                proof {
                    assert(self.slots@ =~= pre.update(i as int, self.slots@[i as int]));
                    lemma_update_preserves(pre, i as int, self.slots@[i as int]);
                }
                true
            },
            None => false,
        }
    }

    /// Record that the service stack of a slot is running since `now`.
    pub fn mark_stack_running(&mut self, name: &str, now: i64) -> (r: bool)
        requires
            old(self).wf(),
        ensures
            final(self).wf(),
            r == old(self).has_name(name@),
            r ==> exists|i: int|
                0 <= i < old(self).slots@.len() && old(self).slots@[i].name@ == name@
                    && final(self).slots@ == old(self).slots@.update(
                    i,
                    (Slot {
                        status: SlotStatus::Running,
                        aspire_started_at: Some(now),
                        ..#[trigger] old(self).slots@[i]
                    }),
                ),
            !r ==> *final(self) == *old(self),
    {
        match self.find_index(name) {
            Some(i) => {
                let ghost pre = self.slots@;
                let mut sl = self.slots.remove(i);
                sl.status = SlotStatus::Running;
                sl.aspire_started_at = Some(now);
                self.slots.insert(i, sl);
                proof {
                    assert(self.slots@ =~= pre.update(i as int, self.slots@[i as int]));
                    lemma_update_preserves(pre, i as int, self.slots@[i as int]);
                }
                true
            },
            None => false,
        }
    }

    /// Record that the service stack of a slot stopped: back to Ready, with
    /// the start time and the discovered services cleared.
    pub fn mark_stack_stopped(&mut self, name: &str) -> (r: bool)
        requires
            old(self).wf(),
        ensures
            final(self).wf(),
            r == old(self).has_name(name@),
            r ==> exists|i: int|
                0 <= i < old(self).slots@.len() && old(self).slots@[i].name@ == name@
                    && final(self).slots@[i].status is Ready && final(self).slots@[i].aspire_started_at is None && final(self).slots@[i].services.service_urls@.len() == 0 && final(self).slots@[i].services.dashboard_url is None && final(self).slots@ == old(self).slots@.update(i, (Slot {
                    status: final(self).slots@[i].status,
                    aspire_started_at: None,
                    services: final(self).slots@[i].services,
                    ..#[trigger] old(self).slots@[i]
                })),
            !r ==> *final(self) == *old(self),
    {
        match self.find_index(name) {
            Some(i) => {
                let ghost pre = self.slots@;
                let mut sl = self.slots.remove(i);
                sl.status = SlotStatus::Ready;
                sl.aspire_started_at = None;
                sl.services = DiscoveredServices::new();
                self.slots.insert(i, sl);
                proof {
                    assert(self.slots@ =~= pre.update(i as int, self.slots@[i as int]));
                    lemma_update_preserves(pre, i as int, self.slots@[i as int]);
                }
                true
            },
            None => false,
        }
    }

    /// Record that an agent is active for a slot since `now`.
    pub fn mark_agent_active(&mut self, name: &str, now: i64) -> (r: bool)
        requires
            old(self).wf(),
        ensures
            final(self).wf(),
            r == old(self).has_name(name@),
            r ==> exists|i: int|
                0 <= i < old(self).slots@.len() && old(self).slots@[i].name@ == name@
                    && final(self).slots@ == old(self).slots@.update(
                    i,
                    (Slot {
                        agent_status: AgentStatus::Active,
                        agent_started_at: Some(now),
                        ..#[trigger] old(self).slots@[i]
                    }),
                ),
            !r ==> *final(self) == *old(self),
    {
        match self.find_index(name) {
            Some(i) => {
                let ghost pre = self.slots@;
                let mut sl = self.slots.remove(i);
                sl.agent_status = AgentStatus::Active;
                sl.agent_started_at = Some(now);
                self.slots.insert(i, sl);
                proof {
                    assert(self.slots@ =~= pre.update(i as int, self.slots@[i as int]));
                    lemma_update_preserves(pre, i as int, self.slots@[i as int]);
                }
                true
            },
            None => false,
        }
    }


    /// Feed one line of service-stack output: the line joins the
    /// accumulated text, discovery reruns on the whole of it, and anything
    /// discovered is written back onto the named slot. Returns whether the
    /// slot's record changed.
    pub fn ingest_stack_line(&mut self, name: &str, accumulated: &mut String, line: &str) -> (r:
        bool)
        requires
            old(self).wf(),
        ensures
            final(self).wf(),
            final(accumulated)@ == old(accumulated)@ + line@ + "\n"@,
            r == (services_found(final(accumulated)@) && old(self).has_name(name@)),
            !r ==> final(self).slots@ == old(self).slots@ && final(self).allocator == old(self).allocator,
            r ==> exists|i: int|
                0 <= i < old(self).slots@.len() && old(self).slots@[i].name@ == name@ && final(self).slots@ == old(self).slots@.update(
                    i,
                    (Slot {
                        services: final(self).slots@[i].services,
                        ..#[trigger] old(self).slots@[i]
                    }),
                ) && opt_str(final(self).slots@[i].services.dashboard_url) == dashboard_of(
                    final(accumulated)@,
                ) && final(self).slots@[i].services.smap() == pairs_map(
                    svc_matches_from(final(accumulated)@, 0),
                ),
    {
        accumulated.append(line);
        accumulated.append("\n");
        let services = crate::discovery::parse_log_content(accumulated.as_str());
        let has_dash = services.dashboard_url.is_some();
        let has_urls = services.service_urls.len() > 0;
        proof {
            let acc = accumulated@;
            let list = svc_matches_from(acc, 0);
            let mapped = services.service_urls@.map_values(|p: (String, String)| (p.0@, p.1@));
            if list.len() > 0 {
                assert(pairs_map(list).contains_key(list.last().0));
                if mapped.len() == 0 {
                    assert(mapped =~= Seq::<(Seq<char>, Seq<char>)>::empty());
                    assert(pairs_map(mapped) =~= Map::<Seq<char>, Seq<char>>::empty());
                }
            }
            if mapped.len() > 0 {
                assert(pairs_map(mapped).contains_key(mapped.last().0));
                if list.len() == 0 {
                    assert(list =~= Seq::<(Seq<char>, Seq<char>)>::empty());
                    assert(pairs_map(list) =~= Map::<Seq<char>, Seq<char>>::empty());
                }
            }
            assert((services.service_urls@.len() > 0) == (list.len() > 0));
        }
        if has_dash || has_urls {
            self.set_services(name, services)
        } else {
            false
        }
    }

    /// Store freshly discovered services on a slot.
    pub fn set_services(&mut self, name: &str, services: DiscoveredServices) -> (r: bool)
        requires
            old(self).wf(),
        ensures
            final(self).wf(),
            r == old(self).has_name(name@),
            r ==> exists|i: int|
                0 <= i < old(self).slots@.len() && old(self).slots@[i].name@ == name@
                    && final(self).slots@ == old(self).slots@.update(
                    i,
                    (Slot { services, ..#[trigger] old(self).slots@[i] }),
                ),
            !r ==> *final(self) == *old(self),
    {
        match self.find_index(name) {
            Some(i) => {
                let ghost pre = self.slots@;
                let mut sl = self.slots.remove(i);
                sl.services = services;
                self.slots.insert(i, sl);
                proof {
                    assert(self.slots@ =~= pre.update(i as int, self.slots@[i as int]));
                    lemma_update_preserves(pre, i as int, self.slots@[i as int]);
                }
                true
            },
            None => false,
        }
    }
}

/// Whether accumulated service-stack output has revealed anything worth
/// recording: a dashboard URL or at least one service match.
pub open spec fn services_found(acc: Seq<char>) -> bool {
    dashboard_of(acc) is Some || svc_matches_from(acc, 0).len() > 0
}

/// Whether one of the strings holds the given characters.
pub fn contains_name(names: &Vec<String>, name: &str) -> (r: bool)
    ensures
        r == names@.map_values(|s: String| s@).contains(name@),
{
    let n = names.len();
    let mut i: usize = 0;
    while i < n
        invariant
            i <= n,
            n == names@.len(),
            forall|j: int| 0 <= j < i ==> (#[trigger] names@[j]@) != name@,
        decreases n - i,
    {
        if str_eq(names[i].as_str(), name) {
            assert(names@.map_values(|s: String| s@)[i as int] == name@);
            return true;
        }
        i += 1;
    }
    proof {
        let mapped = names@.map_values(|s: String| s@);
        if mapped.contains(name@) {
            let j = choose|j: int| 0 <= j < mapped.len() && (#[trigger] mapped[j]) == name@;
            assert(names@[j]@ == name@);
        }
    }
    false
}

} // verus!
