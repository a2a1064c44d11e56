//! The port allocator: a tracked set of in-use TCP ports, fed by a stream
//! of candidate ports that the surrounding program obtains from the
//! operating system.
//!
//! An allocation draws candidates from the front of the feed until one is
//! not already tracked, giving up after one hundred draws. User-pinned
//! overrides are honoured when the pinned port is free and fall back to
//! the feed otherwise.

use vstd::prelude::*;

verus! {

use vstd::string::StringExecFns;
use crate::errors::OrchestratorError;
use crate::models::PortAllocation;

/// The index of the first entry of `feed` not in `used`, looking at no
/// more than `limit` entries.
pub open spec fn first_untracked(feed: Seq<u16>, used: Set<u16>, limit: int) -> Option<int>
    decreases limit,
{
    if limit <= 0 || feed.len() == 0 {
        None
    } else if !used.contains(feed[0]) {
        Some(0)
    } else {
        match first_untracked(feed.skip(1), used, limit - 1) {
            Some(i) => Some(i + 1),
            None => None,
        }
    }
}

/// The outcome of allocating for a list of pinned (name, port) overrides,
/// in order: the granted pairs, the tracked set afterwards, and what is
/// left of the feed. A pinned port that is already tracked falls back to
/// the feed; a feed that yields nothing fails the whole request.
pub open spec fn overrides_alloc(
    used: Set<u16>,
    feed: Seq<u16>,
    ovr: Seq<(Seq<char>, u16)>,
) -> Option<(Seq<(Seq<char>, u16)>, Set<u16>, Seq<u16>)>
    decreases ovr.len(),
{
    if ovr.len() == 0 {
        Some((Seq::empty(), used, feed))
    } else {
        let nm = ovr[0].0;
        let p = ovr[0].1;
        if !used.contains(p) {
            match overrides_alloc(used.insert(p), feed, ovr.skip(1)) {
                Some(t) => Some((seq![(nm, p)] + t.0, t.1, t.2)),
                None => None,
            }
        } else {
            match first_untracked(feed, used, 100) {
                Some(idx) => match overrides_alloc(
                    used.insert(feed[idx]),
                    feed.skip(idx + 1),
                    ovr.skip(1),
                ) {
                    Some(t) => Some((seq![(nm, feed[idx])] + t.0, t.1, t.2)),
                    None => None,
                },
                None => None,
            }
        }
    }
}

/// A found index always lies within the feed and is never negative.
proof fn lemma_first_untracked_range(feed: Seq<u16>, used: Set<u16>, limit: int)
    ensures
        match first_untracked(feed, used, limit) {
            Some(i) => 0 <= i < feed.len() && !used.contains(feed[i]),
            None => true,
        },
    decreases limit,
{
    if limit <= 0 || feed.len() == 0 {
    } else if !used.contains(feed[0]) {
    } else {
        lemma_first_untracked_range(feed.skip(1), used, limit - 1);
    }
}

/// Pushing one element adds exactly that element to a sequence's set.
pub proof fn lemma_port_set_push(s: Seq<u16>, x: u16)
    ensures
        s.push(x).to_set() == s.to_set().insert(x),
{
    let t = s.push(x);
    assert forall|y: u16| t.to_set().contains(y) implies s.to_set().insert(x).contains(y) by {
        let i = choose|i: int| 0 <= i < t.len() && t[i] == y;
        if i < s.len() {
            assert(s[i] == y);
        }
    }
    assert forall|y: u16| s.to_set().insert(x).contains(y) implies t.to_set().contains(y) by {
        if s.contains(y) {
            let i = choose|i: int| 0 <= i < s.len() && s[i] == y;
            assert(t[i] == y);
        } else {
            assert(t[s.len() as int] == x);
        }
    }
    assert(t.to_set() =~= s.to_set().insert(x));
}


/// What a successful overrides allocation grants: one pair per override,
/// in order and under its name; every granted port is fresh and the ports
/// are pairwise distinct; and the tracked set afterwards is the old set
/// plus exactly the granted ports.
pub proof fn lemma_overrides_alloc_granted(
    used: Set<u16>,
    feed: Seq<u16>,
    ovr: Seq<(Seq<char>, u16)>,
)
    ensures
        match overrides_alloc(used, feed, ovr) {
            Some(t) => {
                &&& t.0.len() == ovr.len()
                &&& forall|k: int| 0 <= k < t.0.len() ==> (#[trigger] t.0[k]).0 == ovr[k].0
                &&& forall|k: int| 0 <= k < t.0.len() ==> !used.contains((#[trigger] t.0[k]).1)
                &&& forall|k: int, l: int| 0 <= k < l < t.0.len() ==> t.0[k].1 != t.0[l].1
                &&& t.1 == used.union(t.0.map_values(|pr: (Seq<char>, u16)| pr.1).to_set())
            },
            None => true,
        },
    decreases ovr.len(),
{
    if ovr.len() == 0 {
    } else {
        let nm = ovr[0].0;
        let p = ovr[0].1;
        if !used.contains(p) {
            lemma_overrides_alloc_granted(used.insert(p), feed, ovr.skip(1));
            match overrides_alloc(used.insert(p), feed, ovr.skip(1)) {
                Some(t2) => {
                    let t0 = seq![(nm, p)] + t2.0;
                    assert(t0[0] == (nm, p));
                    assert(forall|k: int| 1 <= k < t0.len() ==> (#[trigger] t0[k]) == t2.0[k - 1]);
                    assert(forall|k: int| 0 <= k < ovr.skip(1).len() ==> (#[trigger] ovr.skip(
                        1,
                    )[k]) == ovr[k + 1]);
                    let m0 = t0.map_values(|pr: (Seq<char>, u16)| pr.1);
                    let m2 = t2.0.map_values(|pr: (Seq<char>, u16)| pr.1);
                    assert(m0 =~= seq![p] + m2);
                    vstd::seq_lib::seq_to_set_distributes_over_add(seq![p], m2);
                    assert(seq![p].to_set() =~= Set::<u16>::empty().insert(p)) by {
                        assert(seq![p][0] == p);
                    }
                    assert(t2.1 =~= used.union(m0.to_set()));
                },
                None => {},
            }
        } else {
            match first_untracked(feed, used, 100) {
                Some(idx) => {
                    lemma_first_untracked_range(feed, used, 100);
                    let q = feed[idx];
                    lemma_overrides_alloc_granted(used.insert(q), feed.skip(idx + 1), ovr.skip(1));
                    match overrides_alloc(used.insert(q), feed.skip(idx + 1), ovr.skip(1)) {
                        Some(t2) => {
                            let t0 = seq![(nm, q)] + t2.0;
                            assert(t0[0] == (nm, q));
                            assert(forall|k: int|
                                1 <= k < t0.len() ==> (#[trigger] t0[k]) == t2.0[k - 1]);
                            assert(forall|k: int|
                                0 <= k < ovr.skip(1).len() ==> (#[trigger] ovr.skip(1)[k]) == ovr[k
                                    + 1]);
                            let m0 = t0.map_values(|pr: (Seq<char>, u16)| pr.1);
                            let m2 = t2.0.map_values(|pr: (Seq<char>, u16)| pr.1);
                            assert(m0 =~= seq![q] + m2);
                            vstd::seq_lib::seq_to_set_distributes_over_add(seq![q], m2);
                            assert(seq![q].to_set() =~= Set::<u16>::empty().insert(q)) by {
                                assert(seq![q][0] == q);
                            }
                            assert(t2.1 =~= used.union(m0.to_set()));
                        },
                        None => {},
                    }
                },
                None => {},
            }
        }
    }
}

/// Hands out unique TCP ports and tracks the set in use.
pub struct PortAllocator {
    allocated: Vec<u16>,
    feed: Vec<u16>,
    next: usize,
}

impl PortAllocator {
    /// The set of ports currently tracked as in use.
    pub closed spec fn ports(&self) -> Set<u16> {
        self.allocated@.to_set()
    }

    /// The candidate ports not yet drawn from the feed.
    pub closed spec fn feed_rem(&self) -> Seq<u16> {
        self.feed@.skip(self.next as int)
    }

    /// No port is tracked twice, and the feed cursor is in range.
    pub closed spec fn wf(&self) -> bool {
        &&& forall|i: int, j: int|
            0 <= i < j < self.allocated@.len() ==> self.allocated@[i] != self.allocated@[j]
        &&& self.next <= self.feed@.len()
    }

    /// An allocator tracking nothing, with an empty feed.
    pub fn new() -> (r: PortAllocator)
        ensures
            r.wf(),
            r.ports() == Set::<u16>::empty(),
            r.feed_rem() == Seq::<u16>::empty(),
    {
        let r = PortAllocator { allocated: Vec::new(), feed: Vec::new(), next: 0 };
        proof {
            assert(r.allocated@.to_set() =~= Set::<u16>::empty());
            assert(r.feed@.skip(0) =~= Seq::<u16>::empty());
        }
        r
    }

    /// Append candidate ports to the feed.
    pub fn offer_ports(&mut self, ports: &Vec<u16>)
        requires
            old(self).wf(),
        ensures
            final(self).wf(),
            final(self).ports() == old(self).ports(),
            final(self).feed_rem() == old(self).feed_rem() + ports@,
    {
        let mut i: usize = 0;
        let n = ports.len();
        while i < n
            invariant
                i <= n,
                n == ports@.len(),
                self.wf(),
                self.allocated@ == old(self).allocated@,
                self.next == old(self).next,
                self.feed@ == old(self).feed@ + ports@.subrange(0, i as int),
            decreases n - i,
        {
            self.feed.push(ports[i]);
            assert(self.feed@ =~= old(self).feed@ + ports@.subrange(0, i + 1));
            i += 1;
        }
        proof {
            assert(ports@.subrange(0, n as int) =~= ports@);
            assert(self.feed@.skip(self.next as int) =~= old(self).feed@.skip(
                old(self).next as int,
            ) + ports@);
        }
    }

    /// Whether a port is tracked as in use.
    pub fn is_tracked(&self, port: u16) -> (r: bool)
        ensures
            r == self.ports().contains(port),
    {
        let n = self.allocated.len();
        let mut i: usize = 0;
        while i < n
            invariant
                i <= n,
                n == self.allocated@.len(),
                forall|j: int| 0 <= j < i ==> self.allocated@[j] != port,
            decreases n - i,
        {
            if self.allocated[i] == port {
                assert(self.allocated@.contains(port));
                return true;
            }
            i += 1;
        }
        assert(!self.allocated@.contains(port));
        false
    }

    /// Draw ports from the feed until one is free, up to one hundred draws;
    /// track and return the first free one under the given logical name.
    pub fn allocate(&mut self, name: &str) -> (r: Result<PortAllocation, OrchestratorError>)
        requires
            old(self).wf(),
        ensures
            final(self).wf(),
            match r {
                Ok(a) => {
                    &&& a.name@ == name@
                    &&& (first_untracked(old(self).feed_rem(), old(self).ports(), 100)
                        matches Some(idx) && a.port == old(self).feed_rem()[idx]
                        && final(self).feed_rem() == old(self).feed_rem().skip(idx + 1))
                    &&& !old(self).ports().contains(a.port)
                    &&& final(self).ports() == old(self).ports().insert(a.port)
                },
                Err(e) => {
                    &&& e is PortAllocation
                    &&& first_untracked(old(self).feed_rem(), old(self).ports(), 100) is None
                    &&& final(self).ports() == old(self).ports()
                    &&& final(self).feed_rem().len() <= old(self).feed_rem().len()
                },
            },
    {
        let ghost used = old(self).ports();
        let ghost rem0 = old(self).feed_rem();
        let mut attempts: usize = 0;
        proof {
            assert(rem0.skip(0) =~= rem0);
            lemma_first_untracked_range(rem0, used, 100);
        }
        while attempts < 100 && self.next < self.feed.len()
            invariant
                attempts <= 100,
                self.wf(),
                self.allocated@ == old(self).allocated@,
                self.feed@ == old(self).feed@,
                self.next == old(self).next + attempts,
                used == self.ports(),
                rem0 == old(self).feed_rem(),
                self.feed_rem() == rem0.skip(attempts as int),
                match first_untracked(rem0, used, 100) {
                    Some(idx) => idx >= attempts && first_untracked(
                        self.feed_rem(),
                        used,
                        100 - attempts,
                    ) == Some(idx - attempts),
                    None => first_untracked(self.feed_rem(), used, 100 - attempts) is None,
                },
            decreases 100 - attempts,
        {
            let port = self.feed[self.next];
            let ghost att0 = attempts as int;
            let ghost rem_a = rem0.skip(att0);
            assert(port == rem_a[0]);
            let tracked_already = self.is_tracked(port);
            self.next += 1;
            attempts += 1;
            proof {
                assert(self.feed@.skip(self.next as int) =~= rem0.skip(att0 + 1));
                assert(rem_a.skip(1) =~= rem0.skip(att0 + 1));
            }
            if !tracked_already {
                proof {
                    assert(first_untracked(rem_a, used, 100 - att0) == Some(0int));
                }
                let ghost before = self.allocated@;
                self.allocated.push(port);
                proof {
                    let a = self.allocated@;
                    lemma_port_set_push(before, port);
                    assert(a.to_set() =~= used.insert(port));
                    assert forall|i: int, j: int| 0 <= i < j < a.len() implies a[i] != a[j] by {
                        if j == a.len() - 1 {
                            assert(before.contains(before[i]));
                            assert(used.contains(a[i]));
                        }
                    }
                }
                return Ok(PortAllocation { name: String::from_str(name), port });
            } else {
                proof {
                    assert(used.contains(rem_a[0]));
                    lemma_first_untracked_range(rem_a.skip(1), used, 100 - att0 - 1);
                    assert(first_untracked(rem_a, used, 100 - att0) == (match first_untracked(
                        rem_a.skip(1),
                        used,
                        100 - att0 - 1,
                    ) {
                        Some(i) => Some(i + 1),
                        None => None::<int>,
                    }));
                }
            }
        }
        proof {
            if attempts < 100 {
                assert(self.feed_rem().len() == 0);
            }
            assert(first_untracked(self.feed_rem(), used, 100 - attempts) is None);
            assert(first_untracked(rem0, used, 100) is None);
        }
        Err(
            OrchestratorError::PortAllocation(
                String::from_str("could not find an available port after 100 attempts"),
            ),
        )
    }

    /// Allocate for user-pinned overrides, in order: a pinned port that is
    /// free is granted as pinned; one already in use falls back to the feed.
    pub fn allocate_for_overrides(&mut self, overrides: &Vec<PortAllocation>) -> (r: Result<
        Vec<PortAllocation>,
        OrchestratorError,
    >)
        requires
            old(self).wf(),
        ensures
            final(self).wf(),
            match r {
                Ok(v) => overrides_alloc(
                    old(self).ports(),
                    old(self).feed_rem(),
                    overrides@.map_values(|a: PortAllocation| (a.name@, a.port)),
                ) == Some(
                    (
                        v@.map_values(|a: PortAllocation| (a.name@, a.port)),
                        final(self).ports(),
                        final(self).feed_rem(),
                    ),
                ),
                Err(e) => {
                    &&& e is PortAllocation
                    &&& overrides_alloc(
                        old(self).ports(),
                        old(self).feed_rem(),
                        overrides@.map_values(|a: PortAllocation| (a.name@, a.port)),
                    ) is None
                    &&& final(self).ports() == old(self).ports()
                    &&& final(self).feed_rem().len() <= old(self).feed_rem().len()
                },
            },
    {
        let ghost full = overrides@.map_values(|a: PortAllocation| (a.name@, a.port));
        let mut out: Vec<PortAllocation> = Vec::new();
        let n = overrides.len();
        let mut i: usize = 0;
        proof {
            assert(full.skip(0) =~= full);
            match overrides_alloc(self.ports(), self.feed_rem(), full) {
                Some(t) => {
                    assert(out@.map_values(|a: PortAllocation| (a.name@, a.port)) + t.0 =~= t.0);
                },
                None => {},
            }
            assert(out@.map_values(|a: PortAllocation| a.port).to_set() =~= Set::<u16>::empty());
            assert(old(self).ports().union(Set::<u16>::empty()) =~= old(self).ports());
        }
        while i < n
            invariant
                i <= n,
                n == overrides@.len(),
                full == overrides@.map_values(|a: PortAllocation| (a.name@, a.port)),
                self.wf(),
                self.ports() == old(self).ports().union(
                    out@.map_values(|a: PortAllocation| a.port).to_set(),
                ),
                self.feed_rem().len() <= old(self).feed_rem().len(),
                forall|k: int|
                    0 <= k < out@.len() ==> !old(self).ports().contains(
                        #[trigger] out@[k].port,
                    ),
                forall|k: int, l: int|
                    0 <= k < l < out@.len() ==> out@[k].port != out@[l].port,
                overrides_alloc(old(self).ports(), old(self).feed_rem(), full) == (match
                    overrides_alloc(self.ports(), self.feed_rem(), full.skip(i as int)) {
                    Some(t) => Some(
                        (out@.map_values(|a: PortAllocation| (a.name@, a.port)) + t.0, t.1, t.2),
                    ),
                    None => None::<(Seq<(Seq<char>, u16)>, Set<u16>, Seq<u16>)>,
                }),
            decreases n - i,
        {
            let ghost pre_ports = self.ports();
            let ghost pre_feed = self.feed_rem();
            let ghost pre_out = out@.map_values(|a: PortAllocation| (a.name@, a.port));
            let name = &overrides[i].name;
            let port = overrides[i].port;
            assert(full.skip(i as int)[0] == (name@, port));
            if !self.is_tracked(port) {
                let ghost before = self.allocated@;
                self.allocated.push(port);
                proof {
                    let a = self.allocated@;
                    lemma_port_set_push(before, port);
                    assert(a.to_set() =~= pre_ports.insert(port));
                    assert forall|x: int, y: int| 0 <= x < y < a.len() implies a[x] != a[y] by {
                        if y == a.len() - 1 {
                            assert(before.contains(before[x]));
                            assert(pre_ports.contains(a[x]));
                        }
                    }
                }
                let ghost out0 = out@;
                out.push(PortAllocation { name: name.clone(), port });
                proof {
                    let out_pre = out0;
                    assert(out@.subrange(0, out@.len() - 1) =~= out0);
                    assert(out@.map_values(|a: PortAllocation| a.port) =~= out0.map_values(
                        |a: PortAllocation| a.port,
                    ).push(port));
                    assert(!old(self).ports().contains(port));
                    assert(!out0.map_values(|a: PortAllocation| a.port).to_set().contains(port));
                    assert forall|k: int| 0 <= k < out@.len() implies !old(self).ports().contains(
                        #[trigger] out@[k].port,
                    ) by {
                        if k < out0.len() {
                            assert(out@[k] == out0[k]);
                        }
                    }
                    assert forall|k: int, l: int| 0 <= k < l < out@.len() implies out@[k].port
                        != out@[l].port by {
                        if l == out@.len() - 1 {
                            assert(out0.map_values(|a: PortAllocation| a.port)[k] == out0[k].port);
                        }
                    }

                    assert(out@.map_values(|a: PortAllocation| a.port) =~= out_pre.map_values(
                        |a: PortAllocation| a.port,
                    ).push(port));
                    lemma_port_set_push(out_pre.map_values(|a: PortAllocation| a.port), port);
                    assert(old(self).ports().union(
                        out_pre.map_values(|a: PortAllocation| a.port).to_set().insert(port),
                    ) =~= old(self).ports().union(
                        out_pre.map_values(|a: PortAllocation| a.port).to_set(),
                    ).insert(port));
                    assert(out@.map_values(|a: PortAllocation| (a.name@, a.port)) =~= pre_out
                        + seq![(name@, port)]);
                    assert(full.skip(i as int).skip(1) =~= full.skip(i + 1));
                    assert(overrides_alloc(pre_ports, pre_feed, full.skip(i as int)) == (match
                        overrides_alloc(pre_ports.insert(port), pre_feed, full.skip(i + 1)) {
                        Some(t) => Some((seq![(name@, port)] + t.0, t.1, t.2)),
                        None => None::<(Seq<(Seq<char>, u16)>, Set<u16>, Seq<u16>)>,
                    }));
                    match overrides_alloc(self.ports(), self.feed_rem(), full.skip(i + 1)) {
                        Some(t) => {
                            assert((pre_out + seq![(name@, port)]) + t.0 =~= pre_out + (seq![
                                (name@, port),
                            ] + t.0));
                        },
                        None => {},
                    }
                }
            } else {
                match self.allocate(name.as_str()) {
                    Ok(a) => {
                        let ghost pair = (a.name@, a.port);
                        let ghost out0 = out@;
                        out.push(a);
                        proof {
                            let out_pre = out0;
                            assert(out@.subrange(0, out@.len() - 1) =~= out0);
                            assert(out@.map_values(|a: PortAllocation| a.port) =~=
                                out0.map_values(|a: PortAllocation| a.port).push(pair.1));
                            assert(!old(self).ports().contains(pair.1));
                            assert(!out0.map_values(|a: PortAllocation| a.port).to_set().contains(
                                pair.1,
                            ));
                            assert forall|k: int| 0 <= k < out@.len() implies !old(
                                self,
                            ).ports().contains(#[trigger] out@[k].port) by {
                                if k < out0.len() {
                                    assert(out@[k] == out0[k]);
                                }
                            }
                            assert forall|k: int, l: int| 0 <= k < l < out@.len() implies
                                out@[k].port != out@[l].port by {
                                if l == out@.len() - 1 {
                                    assert(out0.map_values(|a: PortAllocation| a.port)[k]
                                        == out0[k].port);
                                }
                            }

                            assert(out@.map_values(|a: PortAllocation| a.port) =~=
                                out_pre.map_values(|a: PortAllocation| a.port).push(pair.1));
                            lemma_port_set_push(
                                out_pre.map_values(|a: PortAllocation| a.port),
                                pair.1,
                            );
                            assert(old(self).ports().union(
                                out_pre.map_values(
                                    |a: PortAllocation| a.port,
                                ).to_set().insert(pair.1),
                            ) =~= old(self).ports().union(
                                out_pre.map_values(|a: PortAllocation| a.port).to_set(),
                            ).insert(pair.1));
                            let fi = first_untracked(pre_feed, pre_ports, 100);
                            lemma_first_untracked_range(pre_feed, pre_ports, 100);
                            assert(fi is Some);
                            let idx = fi->0;
                            assert(pair == (name@, pre_feed[idx]));
                            assert(out@.map_values(|a: PortAllocation| (a.name@, a.port)) =~=
                                pre_out + seq![pair]);
                            assert(full.skip(i as int).skip(1) =~= full.skip(i + 1));
                            assert(overrides_alloc(pre_ports, pre_feed, full.skip(i as int))
                                == (match overrides_alloc(
                                pre_ports.insert(pre_feed[idx]),
                                pre_feed.skip(idx + 1),
                                full.skip(i + 1),
                            ) {
                                Some(t) => Some((seq![pair] + t.0, t.1, t.2)),
                                None => None::<(Seq<(Seq<char>, u16)>, Set<u16>, Seq<u16>)>,
                            }));
                            match overrides_alloc(self.ports(), self.feed_rem(), full.skip(i + 1)) {
                                Some(t) => {
                                    assert((pre_out + seq![pair]) + t.0 =~= pre_out + (seq![pair]
                                        + t.0));
                                },
                                None => {},
                            }
                        }
                    },
                    Err(e) => {
                        proof {
                            assert(overrides_alloc(pre_ports, pre_feed, full.skip(i as int))
                                is None);
                        }
                        let ghost granted = out@;
                        proof {
                            assert(granted.skip(0) =~= granted);
                        }
                        let m = out.len();
                        let mut k: usize = 0;
                        while k < m
                            invariant
                                k <= m,
                                m == granted.len(),
                                out@ == granted,
                                self.wf(),
                                self.feed_rem().len() <= old(self).feed_rem().len(),
                                self.ports() == old(self).ports().union(
                                    granted.skip(k as int).map_values(
                                        |a: PortAllocation| a.port,
                                    ).to_set(),
                                ),
                                forall|q: int|
                                    0 <= q < granted.len() ==> !old(self).ports().contains(
                                        #[trigger] granted[q].port,
                                    ),
                                forall|q: int, l: int|
                                    0 <= q < l < granted.len() ==> granted[q].port
                                        != granted[l].port,
                            decreases m - k,
                        {
                            let p = out[k].port;
                            self.release(p);
                            proof {
                                let rest = granted.skip(k + 1).map_values(
                                    |a: PortAllocation| a.port,
                                ).to_set();
                                let restk = granted.skip(k as int).map_values(
                                    |a: PortAllocation| a.port,
                                ).to_set();
                                assert forall|x: u16| restk.remove(p).contains(x) implies
                                    rest.contains(x) by {
                                    let sk = granted.skip(k as int).map_values(
                                        |a: PortAllocation| a.port,
                                    );
                                    let q = choose|q: int| 0 <= q < sk.len() && sk[q] == x;
                                    assert(granted[k + q].port == x);
                                    assert(q != 0);
                                    assert(granted.skip(k + 1).map_values(
                                        |a: PortAllocation| a.port,
                                    )[q - 1] == x);
                                }
                                assert forall|x: u16| rest.contains(x) implies
                                    restk.remove(p).contains(x) by {
                                    let sk1 = granted.skip(k + 1).map_values(
                                        |a: PortAllocation| a.port,
                                    );
                                    let q = choose|q: int| 0 <= q < sk1.len() && sk1[q] == x;
                                    assert(granted[k + 1 + q].port == x);
                                    assert(granted.skip(k as int).map_values(
                                        |a: PortAllocation| a.port,
                                    )[q + 1] == x);
                                    assert(granted[k as int].port == p);
                                    assert(x != p);
                                }
                                assert(restk.remove(p) =~= rest);
                                assert(old(self).ports().union(restk).remove(p) =~= old(
                                    self,
                                ).ports().union(rest));
                            }
                            k += 1;
                        }
                        proof {
                            assert(granted.skip(m as int).map_values(
                                |a: PortAllocation| a.port,
                            ).to_set() =~= Set::<u16>::empty());
                            assert(self.ports() =~= old(self).ports());
                        }
                        return Err(e);
                    },
                }
            }
            i += 1;
        }
        proof {
            let e = Seq::<(Seq<char>, u16)>::empty();
            assert(full.skip(n as int) =~= e);
            assert(overrides_alloc(self.ports(), self.feed_rem(), e) == Some(
                (e, self.ports(), self.feed_rem()),
            ));
            assert(out@.map_values(|a: PortAllocation| (a.name@, a.port)) + e =~= out@.map_values(
                |a: PortAllocation| (a.name@, a.port),
            ));
            assert(overrides_alloc(old(self).ports(), old(self).feed_rem(), full) == Some(
                (
                    out@.map_values(|a: PortAllocation| (a.name@, a.port)),
                    self.ports(),
                    self.feed_rem(),
                ),
            ));
        }
        Ok(out)
    }

    /// Stop tracking a port; releasing an untracked port changes nothing.
    pub fn release(&mut self, port: u16)
        requires
            old(self).wf(),
        ensures
            final(self).wf(),
            final(self).ports() == old(self).ports().remove(port),
            final(self).feed_rem() == old(self).feed_rem(),
    {
        let n = self.allocated.len();
        let mut i: usize = 0;
        while i < n
            invariant
                i <= n,
                n == self.allocated@.len(),
                self.wf(),
                self.allocated@ == old(self).allocated@,
                self.feed@ == old(self).feed@,
                self.next == old(self).next,
                forall|j: int| 0 <= j < i ==> self.allocated@[j] != port,
            decreases n - i,
        {
            if self.allocated[i] == port {
                let ghost before = self.allocated@;
                self.allocated.remove(i);
                proof {
                    assert(self.allocated@ =~= before.subrange(0, i as int) + before.skip(i + 1));
                    assert(self.allocated@.to_set() =~= before.to_set().remove(port)) by {
                        assert(forall|x: u16|
                            self.allocated@.to_set().contains(x) == (self.allocated@.contains(
                                x,
                            )));
                        assert(forall|j: int|
                            0 <= j < before.len() && j != i ==> self.allocated@.contains(
                                #[trigger] before[j],
                            )) by {
                            assert(forall|j: int|
                                0 <= j < i ==> self.allocated@[j] == before[j]);
                            assert(forall|j: int|
                                i < j < before.len() ==> self.allocated@[j - 1] == before[j]);
                        }
                        assert(forall|j: int|
                            0 <= j < self.allocated@.len() ==> (#[trigger] self.allocated@[j]
                                == before[if j < i {
                                j
                            } else {
                                j + 1
                            }]));
                    }
                }
                return ;
            }
            i += 1;
        }
        proof {
            assert(!self.allocated@.contains(port));
            assert(self.allocated@.to_set() =~= old(self).allocated@.to_set().remove(port));
        }
    }
}

} // verus!
