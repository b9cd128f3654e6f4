//! Links and the routing indices: for each port, which links are attached
//! to it. The graph keeps one index for input ports (which links feed a
//! port) and one for output ports (which links a port feeds).

use crate::ids::{LinkId, NodeId, PortId};
use crate::ring::RingBuffer;
use vstd::prelude::*;

verus! {

/// A directed edge from one node's output port to another node's input
/// port, owning the ring buffer that carries its samples.
pub struct Link {
    pub id: LinkId,
    /// The upstream end: the output port samples leave from.
    pub lhs: (NodeId, PortId),
    /// The downstream end: the input port samples arrive at.
    pub rhs: (NodeId, PortId),
    /// The buffer between the two; the upstream task commits into it and
    /// the downstream task (consumer 0) releases from it.
    pub buffer: RingBuffer,
}

impl Link {
    pub open spec fn wf(self) -> bool {
        &&& self.buffer.wf()
        &&& self.buffer.num_consumers() == 1
        &&& self.buffer.is_live(0)
        &&& self.buffer.capacity() >= crate::BLOCK_SIZE
    }
}

/// One entry of a routing index: the links incident to one port.
#[verifier::ext_equal]
pub struct RouteEntry {
    pub node: NodeId,
    pub port: PortId,
    pub links: Vec<LinkId>,
}

/// A routing index: for each port, which links are attached to it. The
/// graph keeps one for input ports (which links feed a port) and one for
/// output ports (which links a port feeds).
pub struct RoutingIndex {
    pub entries: Vec<RouteEntry>,
}

impl RoutingIndex {
    /// Keys are unique and no entry lists a link twice.
    pub open spec fn wf(self) -> bool {
        &&& forall|i: int, j: int|
            0 <= i < j < self.entries@.len() ==> !(self.entries@[i].node == self.entries@[j].node
                && self.entries@[i].port == self.entries@[j].port)
        &&& forall|i: int, k1: int, k2: int|
            0 <= i < self.entries@.len() && 0 <= k1 < k2 < self.entries@[i].links@.len()
                ==> self.entries@[i].links@[k1] != self.entries@[i].links@[k2]
    }

    /// Whether the index has an entry for this port.
    #[verifier::opaque]
    pub open spec fn has_key(self, n: NodeId, p: PortId) -> bool {
        exists|i: int|
            0 <= i < self.entries@.len() && self.entries@[i].node == n && self.entries@[i].port
                == p
    }

    /// The position of this port's entry.
    pub open spec fn key_index(self, n: NodeId, p: PortId) -> int {
        choose|i: int|
            0 <= i < self.entries@.len() && self.entries@[i].node == n && self.entries@[i].port
                == p
    }

    /// The links attached to this port, in attachment order; empty when the
    /// port has no entry.
    #[verifier::opaque]
    pub open spec fn links_of(self, n: NodeId, p: PortId) -> Seq<LinkId> {
        if self.has_key(n, p) {
            self.entries@[self.key_index(n, p)].links@
        } else {
            Seq::empty()
        }
    }

    /// Whether any entry lists this link.
    #[verifier::opaque]
    pub open spec fn lid_in(self, lid: LinkId) -> bool {
        exists|i: int| 0 <= i < self.entries@.len() && self.entries@[i].links@.contains(lid)
    }

    /// Each entry's links are exactly what the index reports for its key.
    pub proof fn lemma_entry_links(self, i: int)
        requires
            self.wf(),
            0 <= i < self.entries@.len(),
        ensures
            self.has_key(self.entries@[i].node, self.entries@[i].port),
            self.links_of(self.entries@[i].node, self.entries@[i].port)
                == self.entries@[i].links@,
    {
        reveal(RoutingIndex::has_key);
        reveal(RoutingIndex::links_of);
        let e = self.entries@[i];
        assert(self.has_key(e.node, e.port));
        let ki = self.key_index(e.node, e.port);
        assert(self.entries@[ki].node == e.node && self.entries@[ki].port == e.port);
        if ki != i {
            assert(false);
        }
    }

    pub fn new() -> (r: RoutingIndex)
        ensures
            r.wf(),
            r.entries@.len() == 0,
            forall|n: NodeId, p: PortId| #[trigger] r.links_of(n, p) == Seq::<LinkId>::empty(),
            forall|lid: LinkId| !#[trigger] r.lid_in(lid),
    {
        proof {
            reveal(RoutingIndex::has_key);
            reveal(RoutingIndex::links_of);
            reveal(RoutingIndex::lid_in);
        }
        RoutingIndex { entries: Vec::new() }
    }

    /// Drop every entry.
    pub fn clear(&mut self)
        ensures
            final(self).wf(),
            final(self).entries@.len() == 0,
            forall|n: NodeId, p: PortId|
                #[trigger] final(self).links_of(n, p) == Seq::<LinkId>::empty(),
            forall|lid: LinkId| !#[trigger] final(self).lid_in(lid),
    {
        proof {
            reveal(RoutingIndex::has_key);
            reveal(RoutingIndex::links_of);
            reveal(RoutingIndex::lid_in);
        }
        self.entries = Vec::new();
    }

    /// The links attached to this port, in attachment order.
    pub fn get_links(&self, n: NodeId, p: PortId) -> (r: Vec<LinkId>)
        requires
            self.wf(),
        ensures
            r@ == self.links_of(n, p),
    {
        proof {
            reveal(RoutingIndex::has_key);
            reveal(RoutingIndex::links_of);
        }
        let mut i: usize = 0;
        while i < self.entries.len()
            invariant
                self.wf(),
                i <= self.entries@.len(),
                forall|j: int|
                    0 <= j < i ==> !((#[trigger] self.entries@[j]).node == n
                        && self.entries@[j].port == p),
            decreases self.entries@.len() - i,
        {
            let e = &self.entries[i];
            if e.node.get() == n.get() && e.port.get() == p.get() {
                let mut r: Vec<LinkId> = Vec::new();
                let mut k: usize = 0;
                while k < e.links.len()
                    invariant
                        k <= e.links@.len(),
                        r@ == e.links@.subrange(0, k as int),
                    decreases e.links@.len() - k,
                {
                    r.push(e.links[k]);
                    k = k + 1;
                }
                proof {
                    reveal(RoutingIndex::has_key);
                    reveal(RoutingIndex::links_of);
                    assert(r@ =~= e.links@);
                    assert(self.has_key(n, p));
                    let ki = self.key_index(n, p);
                    assert(self.entries@[ki].node == n && self.entries@[ki].port == p);
                    if ki != i {
                        assert(false);
                    }
                }
                return r;
            }
            i = i + 1;
        }
        proof {
            reveal(RoutingIndex::has_key);
            reveal(RoutingIndex::links_of);
            if self.has_key(n, p) {
                let ki = self.key_index(n, p);
                assert(self.entries@[ki].node == n && self.entries@[ki].port == p);
                assert(false);
            }
        }
        Vec::new()
    }

    /// Find the position of this port's entry.
    pub fn find_key(&self, n: NodeId, p: PortId) -> (r: Option<usize>)
        requires
            self.wf(),
        ensures
            match r {
                Some(i) => self.has_key(n, p) && i < self.entries@.len()
                    && self.entries@[i as int].node == n && self.entries@[i as int].port == p
                    && self.key_index(n, p) == i,
                None => !self.has_key(n, p),
            },
    {
        proof {
            reveal(RoutingIndex::has_key);
            reveal(RoutingIndex::links_of);
        }
        let mut i: usize = 0;
        while i < self.entries.len()
            invariant
                self.wf(),
                i <= self.entries@.len(),
                forall|j: int|
                    0 <= j < i ==> !((#[trigger] self.entries@[j]).node == n
                        && self.entries@[j].port == p),
            decreases self.entries@.len() - i,
        {
            let e = &self.entries[i];
            if e.node.get() == n.get() && e.port.get() == p.get() {
                proof {
                    reveal(RoutingIndex::has_key);
                    reveal(RoutingIndex::links_of);
                    assert(self.has_key(n, p));
                    let ki = self.key_index(n, p);
                    assert(self.entries@[ki].node == n && self.entries@[ki].port == p);
                    if ki != i {
                        assert(false);
                    }
                }
                return Some(i);
            }
            i = i + 1;
        }
        proof {
            reveal(RoutingIndex::has_key);
            if self.has_key(n, p) {
                let ki = self.key_index(n, p);
                assert(self.entries@[ki].node == n && self.entries@[ki].port == p);
                assert(false);
            }
        }
        None
    }

    /// Attach a link to a port, creating the port's entry if none exists.
    pub fn insert(&mut self, n: NodeId, p: PortId, lid: LinkId)
        requires
            old(self).wf(),
            !old(self).lid_in(lid),
        ensures
            final(self).wf(),
            final(self).links_of(n, p) == old(self).links_of(n, p).push(lid),
            forall|n2: NodeId, p2: PortId|
                !(n2 == n && p2 == p) ==> #[trigger] final(self).links_of(n2, p2) == old(
                    self,
                ).links_of(n2, p2),
            forall|l2: LinkId|
                #[trigger] final(self).lid_in(l2) <==> (old(self).lid_in(l2) || l2 == lid),
    {
        proof {
            reveal(RoutingIndex::lid_in);
        }
        let ghost orig = *self;
        let found = self.find_key(n, p);
        match found {
            Some(fi) => {
                proof {
                    assert(!orig.entries@[fi as int].links@.contains(lid)) by {
                        reveal(RoutingIndex::lid_in);
                        if orig.entries@[fi as int].links@.contains(lid) {
                            assert(orig.lid_in(lid));
                        }
                    }
                }
                let entry = &self.entries[fi];
                let mut links: Vec<LinkId> = Vec::new();
                let mut k: usize = 0;
                while k < entry.links.len()
                    invariant
                        k <= entry.links@.len(),
                        links@ == entry.links@.subrange(0, k as int),
                    decreases entry.links@.len() - k,
                {
                    links.push(entry.links[k]);
                    k = k + 1;
                }
                proof {
                    assert(links@ =~= entry.links@);
                }
                links.push(lid);
                let node2 = entry.node;
                let port2 = entry.port;
                self.entries.set(fi, RouteEntry { node: node2, port: port2, links });
                proof {
                    Self::lemma_after_update(orig, *self, n, p, fi as int, lid);
                }
            }
            None => {
                let mut links: Vec<LinkId> = Vec::new();
                links.push(lid);
                self.entries.push(RouteEntry { node: n, port: p, links });
                proof {
                    Self::lemma_after_append(orig, *self, n, p, lid);
                }
            }
        }
    }

    /// Find the first position of a link in a list.
    fn find_lid(links: &Vec<LinkId>, lid: LinkId) -> (r: Option<usize>)
        ensures
            match r {
                Some(k) => k < links@.len() && links@[k as int] == lid && forall|j: int|
                    0 <= j < k ==> links@[j] != lid,
                None => !links@.contains(lid),
            },
    {
        let mut k: usize = 0;
        while k < links.len()
            invariant
                k <= links@.len(),
                forall|j: int| 0 <= j < k ==> links@[j] != lid,
            decreases links@.len() - k,
        {
            if links[k].get() == lid.get() {
                return Some(k);
            }
            k = k + 1;
        }
        proof {
            if links@.contains(lid) {
                let j = choose|j: int| 0 <= j < links@.len() && links@[j] == lid;
                assert(false);
            }
        }
        None
    }

    /// Detach a link from a port. The link must not be listed anywhere
    /// else, which the graph's routing invariant guarantees.
    pub fn remove(&mut self, n: NodeId, p: PortId, lid: LinkId)
        requires
            old(self).wf(),
            forall|i: int|
                0 <= i < old(self).entries@.len() && (#[trigger] old(
                    self,
                ).entries@[i]).links@.contains(lid) ==> old(self).entries@[i].node == n && old(
                    self,
                ).entries@[i].port == p,
        ensures
            final(self).wf(),
            final(self).links_of(n, p) == old(self).links_of(n, p).remove_value(lid),
            forall|n2: NodeId, p2: PortId|
                !(n2 == n && p2 == p) ==> #[trigger] final(self).links_of(n2, p2) == old(
                    self,
                ).links_of(n2, p2),
            !final(self).lid_in(lid),
            forall|l2: LinkId|
                l2 != lid ==> (#[trigger] final(self).lid_in(l2) <==> old(self).lid_in(l2)),
    {
        proof {
            reveal(RoutingIndex::has_key);
            reveal(RoutingIndex::links_of);
            reveal(RoutingIndex::lid_in);
        }
        let ghost orig = *self;
        let found = self.find_key(n, p);
        match found {
            Some(fi) => {
                let entry = &self.entries[fi];
                let pos = Self::find_lid(&entry.links, lid);
                match pos {
                    Some(kp) => {
                        let mut links: Vec<LinkId> = Vec::new();
                        let mut k2: usize = 0;
                        while k2 < entry.links.len()
                            invariant
                                k2 <= entry.links@.len(),
                                links@ == entry.links@.subrange(0, k2 as int),
                            decreases entry.links@.len() - k2,
                        {
                            links.push(entry.links[k2]);
                            k2 = k2 + 1;
                        }
                        proof {
                            assert(links@ =~= entry.links@);
                        }
                        links.remove(kp);
                        let node2 = entry.node;
                        let port2 = entry.port;
                        self.entries.set(fi, RouteEntry { node: node2, port: port2, links });
                        proof {
                            Self::lemma_after_remove(orig, *self, n, p, fi as int, kp as int, lid);
                        }
                    }
                    None => {
                        proof {
                            assert(!orig.entries@[fi as int].links@.contains(lid));
                            orig.links_of(n, p).index_of_first_ensures(lid);
                            assert(orig.links_of(n, p).remove_value(lid) == orig.links_of(n, p));
                            assert(!orig.lid_in(lid)) by {
                                if orig.lid_in(lid) {
                                    let i = choose|i: int|
                                        0 <= i < orig.entries@.len()
                                            && orig.entries@[i].links@.contains(lid);
                                    assert(orig.entries@[i].node == n && orig.entries@[i].port
                                        == p);
                                    let ki = orig.key_index(n, p);
                                    if i != fi {
                                        assert(false);
                                    }
                                }
                            }
                        }
                    }
                }
            }
            None => {
                proof {
                    assert(orig.links_of(n, p) =~= Seq::<LinkId>::empty());
                    assert(!orig.links_of(n, p).contains(lid));
                    orig.links_of(n, p).index_of_first_ensures(lid);
                    assert(orig.links_of(n, p).remove_value(lid) == orig.links_of(n, p));
                    assert(!orig.lid_in(lid)) by {
                        if orig.lid_in(lid) {
                            let i = choose|i: int|
                                0 <= i < orig.entries@.len() && orig.entries@[i].links@.contains(
                                    lid,
                                );
                            assert(orig.entries@[i].node == n && orig.entries@[i].port == p);
                            assert(orig.has_key(n, p));
                            assert(false);
                        }
                    }
                }
            }
        }
    }

    /// After replacing the keyed entry with one lacking the removed link,
    /// the index maps as stated by `remove`.
    #[verifier::spinoff_prover]
    proof fn lemma_after_remove(orig: RoutingIndex, cur: RoutingIndex, n: NodeId, p: PortId, fi: int, kp: int, lid: LinkId)
        requires
            orig.wf(),
            forall|i: int|
                0 <= i < orig.entries@.len() && (#[trigger] orig.entries@[i]).links@.contains(lid)
                    ==> orig.entries@[i].node == n && orig.entries@[i].port == p,
            0 <= fi < orig.entries@.len(),
            orig.entries@[fi].node == n,
            orig.entries@[fi].port == p,
            0 <= kp < orig.entries@[fi].links@.len(),
            orig.entries@[fi].links@[kp] == lid,
            forall|j: int| 0 <= j < kp ==> orig.entries@[fi].links@[j] != lid,
            cur.entries@ == orig.entries@.update(
                fi,
                RouteEntry { node: n, port: p, links: cur.entries@[fi].links },
            ),
            cur.entries@[fi].links@ == orig.entries@[fi].links@.remove(kp),
        ensures
            cur.wf(),
            cur.links_of(n, p) == orig.links_of(n, p).remove_value(lid),
            forall|n2: NodeId, p2: PortId|
                !(n2 == n && p2 == p) ==> #[trigger] cur.links_of(n2, p2) == orig.links_of(
                    n2,
                    p2,
                ),
            !cur.lid_in(lid),
            forall|l2: LinkId| l2 != lid ==> (#[trigger] cur.lid_in(l2) <==> orig.lid_in(l2)),
    {
        reveal(RoutingIndex::has_key);
        reveal(RoutingIndex::links_of);
        reveal(RoutingIndex::lid_in);
        let olinks = orig.entries@[fi].links@;
        let clinks = cur.entries@[fi].links@;
        assert(orig.has_key(n, p));
        assert(cur.entries@[fi].node == n && cur.entries@[fi].port == p);
        assert(cur.has_key(n, p));
        assert forall|i: int| 0 <= i < cur.entries@.len() implies (#[trigger] cur.entries@[i]).node
            == orig.entries@[i].node && cur.entries@[i].port == orig.entries@[i].port by {}
        let ki = cur.key_index(n, p);
        assert(cur.entries@[ki].node == n && cur.entries@[ki].port == p);
        if ki != fi {
            assert(false);
        }
        let ko = orig.key_index(n, p);
        if ko != fi {
            assert(false);
        }
        // the entry's links stay duplicate-free: a subsequence of distinct ones
        assert forall|i: int, k1: int, k2: int|
            0 <= i < cur.entries@.len() && 0 <= k1 < k2 < cur.entries@[i].links@.len() implies
            cur.entries@[i].links@[k1] != cur.entries@[i].links@[k2] by {
            if i == fi {
                if k1 < kp && k2 < kp {
                } else if k1 < kp {
                    assert(clinks[k2] == olinks[k2 + 1]);
                } else {
                    assert(clinks[k1] == olinks[k1 + 1]);
                    assert(clinks[k2] == olinks[k2 + 1]);
                }
            }
        }
        // remove_value removes exactly the position found
        assert(olinks[kp] == lid);
        assert(olinks.contains(lid));
        olinks.index_of_first_ensures(lid);
        assert(olinks.index_of_first(lid) == Some(kp)) by {
            match olinks.index_of_first(lid) {
                Some(io) => {
                    if io < kp {
                        assert(olinks[io] == lid);
                        assert(false);
                    }
                    if io > kp {
                        assert(false);
                    }
                }
                None => {
                    assert(false);
                }
            }
        }
        assert(cur.links_of(n, p) == orig.links_of(n, p).remove_value(lid));
        assert forall|n2: NodeId, p2: PortId|
            !(n2 == n && p2 == p) implies #[trigger] cur.links_of(n2, p2) == orig.links_of(
            n2,
            p2,
        ) by {
            if cur.has_key(n2, p2) {
                let ci = cur.key_index(n2, p2);
                assert(cur.entries@[ci].node == n2 && cur.entries@[ci].port == p2);
                assert(orig.has_key(n2, p2));
                let oi = orig.key_index(n2, p2);
                if oi != ci {
                    assert(false);
                }
                assert(ci != fi);
            } else {
                if orig.has_key(n2, p2) {
                    let oi = orig.key_index(n2, p2);
                    assert(cur.entries@[oi].node == n2 && cur.entries@[oi].port == p2);
                    assert(false);
                }
            }
        }
        assert(!cur.lid_in(lid)) by {
            if cur.lid_in(lid) {
                let i = choose|i: int|
                    0 <= i < cur.entries@.len() && cur.entries@[i].links@.contains(lid);
                let k = choose|k: int|
                    0 <= k < cur.entries@[i].links@.len() && cur.entries@[i].links@[k] == lid;
                if i == fi {
                    if k < kp {
                        assert(olinks[k] == lid);
                        assert(false);
                    } else {
                        assert(olinks[k + 1] == lid);
                        assert(false);
                    }
                } else {
                    assert(orig.entries@[i].links@.contains(lid));
                    assert(orig.entries@[i].node == n && orig.entries@[i].port == p);
                    assert(false);
                }
            }
        }
        assert forall|l2: LinkId| l2 != lid implies (#[trigger] cur.lid_in(l2) <==> orig.lid_in(
            l2,
        )) by {
            if cur.lid_in(l2) {
                let i = choose|i: int|
                    0 <= i < cur.entries@.len() && cur.entries@[i].links@.contains(l2);
                if i == fi {
                    let k = choose|k: int|
                        0 <= k < cur.entries@[i].links@.len() && cur.entries@[i].links@[k] == l2;
                    if k < kp {
                        assert(olinks[k] == l2);
                    } else {
                        assert(olinks[k + 1] == l2);
                    }
                    assert(olinks.contains(l2));
                    assert(orig.lid_in(l2));
                } else {
                    assert(orig.entries@[i].links@.contains(l2));
                    assert(orig.lid_in(l2));
                }
            }
            if orig.lid_in(l2) {
                let i = choose|i: int|
                    0 <= i < orig.entries@.len() && orig.entries@[i].links@.contains(l2);
                if i == fi {
                    let k = choose|k: int|
                        0 <= k < orig.entries@[i].links@.len() && orig.entries@[i].links@[k]
                            == l2;
                    if k < kp {
                        assert(clinks[k] == l2);
                    } else if k == kp {
                        assert(false);
                    } else {
                        assert(clinks[k - 1] == l2);
                    }
                    assert(clinks.contains(l2));
                    assert(cur.lid_in(l2));
                } else {
                    assert(cur.entries@[i].links@.contains(l2));
                    assert(cur.lid_in(l2));
                }
            }
        }
    }

    /// After replacing the entry at `fi` with one holding the same key and
    /// its links plus `lid`, the index maps as stated by `insert`.
    #[verifier::spinoff_prover]
    proof fn lemma_after_update(orig: RoutingIndex, cur: RoutingIndex, n: NodeId, p: PortId, fi: int, lid: LinkId)
        requires
            orig.wf(),
            !orig.lid_in(lid),
            0 <= fi < orig.entries@.len(),
            orig.entries@[fi].node == n,
            orig.entries@[fi].port == p,
            cur.entries@ == orig.entries@.update(
                fi,
                RouteEntry {
                    node: n,
                    port: p,
                    links: cur.entries@[fi].links,
                },
            ),
            cur.entries@[fi].links@ == orig.entries@[fi].links@.push(lid),
        ensures
            cur.wf(),
            cur.links_of(n, p) == orig.links_of(n, p).push(lid),
            forall|n2: NodeId, p2: PortId|
                !(n2 == n && p2 == p) ==> #[trigger] cur.links_of(n2, p2) == orig.links_of(
                    n2,
                    p2,
                ),
            forall|l2: LinkId| #[trigger] cur.lid_in(l2) <==> (orig.lid_in(l2) || l2 == lid),
    {
        reveal(RoutingIndex::has_key);
        reveal(RoutingIndex::links_of);
        reveal(RoutingIndex::lid_in);
        assert(orig.has_key(n, p));
        assert(cur.entries@[fi].node == n && cur.entries@[fi].port == p);
        assert(cur.has_key(n, p));
        // keys unchanged entry-wise, so key uniqueness carries over
        assert forall|i: int| 0 <= i < cur.entries@.len() implies (#[trigger] cur.entries@[i]).node
            == orig.entries@[i].node && cur.entries@[i].port == orig.entries@[i].port by {}
        let ki = cur.key_index(n, p);
        assert(cur.entries@[ki].node == n && cur.entries@[ki].port == p);
        if ki != fi {
            assert(false);
        }
        let ko = orig.key_index(n, p);
        if ko != fi {
            assert(false);
        }
        // no-duplicate links in the updated entry: lid was nowhere, so not here
        assert(!orig.entries@[fi].links@.contains(lid)) by {
            if orig.entries@[fi].links@.contains(lid) {
                assert(orig.lid_in(lid));
            }
        }
        assert forall|i: int, k1: int, k2: int|
            0 <= i < cur.entries@.len() && 0 <= k1 < k2 < cur.entries@[i].links@.len() implies
            cur.entries@[i].links@[k1] != cur.entries@[i].links@[k2] by {
            if i == fi {
                let olinks = orig.entries@[fi].links@;
                if k2 < olinks.len() {
                } else {
                    assert(cur.entries@[i].links@[k2] == lid);
                    assert(cur.entries@[i].links@[k1] == olinks[k1]);
                    assert(olinks.contains(olinks[k1]));
                }
            }
        }
        assert forall|n2: NodeId, p2: PortId|
            !(n2 == n && p2 == p) implies #[trigger] cur.links_of(n2, p2) == orig.links_of(
            n2,
            p2,
        ) by {
            if cur.has_key(n2, p2) {
                let ci = cur.key_index(n2, p2);
                assert(cur.entries@[ci].node == n2 && cur.entries@[ci].port == p2);
                assert(orig.entries@[ci].node == n2 && orig.entries@[ci].port == p2);
                assert(orig.has_key(n2, p2));
                let oi = orig.key_index(n2, p2);
                assert(orig.entries@[oi].node == n2 && orig.entries@[oi].port == p2);
                if oi != ci {
                    assert(false);
                }
                assert(ci != fi);
                assert(cur.entries@[ci].links@ == orig.entries@[ci].links@);
            } else {
                if orig.has_key(n2, p2) {
                    let oi = orig.key_index(n2, p2);
                    assert(cur.entries@[oi].node == n2 && cur.entries@[oi].port == p2);
                    assert(false);
                }
            }
        }
        assert forall|l2: LinkId| #[trigger] cur.lid_in(l2) <==> (orig.lid_in(l2) || l2
            == lid) by {
            if cur.lid_in(l2) {
                let i = choose|i: int|
                    0 <= i < cur.entries@.len() && cur.entries@[i].links@.contains(l2);
                if i == fi {
                    let k = choose|k: int|
                        0 <= k < cur.entries@[fi].links@.len() && cur.entries@[fi].links@[k]
                            == l2;
                    if k < orig.entries@[fi].links@.len() {
                        assert(orig.entries@[fi].links@.contains(l2));
                        assert(orig.lid_in(l2));
                    } else {
                        assert(l2 == lid);
                    }
                } else {
                    assert(orig.entries@[i].links@.contains(l2));
                    assert(orig.lid_in(l2));
                }
            }
            if orig.lid_in(l2) {
                let i = choose|i: int|
                    0 <= i < orig.entries@.len() && orig.entries@[i].links@.contains(l2);
                if i == fi {
                    let k = choose|k: int|
                        0 <= k < orig.entries@[fi].links@.len() && orig.entries@[fi].links@[k]
                            == l2;
                    assert(cur.entries@[fi].links@[k] == l2);
                    assert(cur.entries@[fi].links@.contains(l2));
                } else {
                    assert(cur.entries@[i].links@.contains(l2));
                }
                assert(cur.lid_in(l2));
            }
            if l2 == lid {
                let k = cur.entries@[fi].links@.len() - 1;
                assert(cur.entries@[fi].links@[k] == lid);
                assert(cur.entries@[fi].links@.contains(lid));
                assert(cur.lid_in(lid));
            }
        }
        assert(cur.links_of(n, p) == orig.links_of(n, p).push(lid));
    }

    /// After appending a fresh entry for an unkeyed port, the index maps as
    /// stated by `insert`.
    #[verifier::spinoff_prover]
    proof fn lemma_after_append(orig: RoutingIndex, cur: RoutingIndex, n: NodeId, p: PortId, lid: LinkId)
        requires
            orig.wf(),
            !orig.lid_in(lid),
            !orig.has_key(n, p),
            cur.entries@.len() == orig.entries@.len() + 1,
            cur.entries@ == orig.entries@.push(cur.entries@[orig.entries@.len() as int]),
            cur.entries@[orig.entries@.len() as int].node == n,
            cur.entries@[orig.entries@.len() as int].port == p,
            cur.entries@[orig.entries@.len() as int].links@ == Seq::<LinkId>::empty().push(lid),
        ensures
            cur.wf(),
            cur.links_of(n, p) == orig.links_of(n, p).push(lid),
            forall|n2: NodeId, p2: PortId|
                !(n2 == n && p2 == p) ==> #[trigger] cur.links_of(n2, p2) == orig.links_of(
                    n2,
                    p2,
                ),
            forall|l2: LinkId| #[trigger] cur.lid_in(l2) <==> (orig.lid_in(l2) || l2 == lid),
    {
        reveal(RoutingIndex::has_key);
        reveal(RoutingIndex::links_of);
        reveal(RoutingIndex::lid_in);
        let last = orig.entries@.len() as int;
        assert forall|i: int, j: int|
            0 <= i < j < cur.entries@.len() implies !(cur.entries@[i].node == cur.entries@[j].node
            && cur.entries@[i].port == cur.entries@[j].port) by {
            if j == last {
                if cur.entries@[i].node == n && cur.entries@[i].port == p {
                    assert(orig.has_key(n, p));
                }
            }
        }
        assert(cur.has_key(n, p));
        let ki = cur.key_index(n, p);
        assert(cur.entries@[ki].node == n && cur.entries@[ki].port == p);
        if ki != last {
            assert(orig.entries@[ki].node == n && orig.entries@[ki].port == p);
            assert(orig.has_key(n, p));
            assert(false);
        }
        assert(cur.links_of(n, p) =~= orig.links_of(n, p).push(lid));
        assert forall|n2: NodeId, p2: PortId|
            !(n2 == n && p2 == p) implies #[trigger] cur.links_of(n2, p2) == orig.links_of(
            n2,
            p2,
        ) by {
            if cur.has_key(n2, p2) {
                let ci = cur.key_index(n2, p2);
                assert(cur.entries@[ci].node == n2 && cur.entries@[ci].port == p2);
                if ci == last {
                    assert(false);
                }
                assert(orig.has_key(n2, p2));
                let oi = orig.key_index(n2, p2);
                if oi != ci {
                    assert(false);
                }
            } else {
                if orig.has_key(n2, p2) {
                    let oi = orig.key_index(n2, p2);
                    assert(cur.entries@[oi].node == n2 && cur.entries@[oi].port == p2);
                    assert(false);
                }
            }
        }
        assert forall|l2: LinkId| #[trigger] cur.lid_in(l2) <==> (orig.lid_in(l2) || l2
            == lid) by {
            if cur.lid_in(l2) {
                let i = choose|i: int|
                    0 <= i < cur.entries@.len() && cur.entries@[i].links@.contains(l2);
                if i == last {
                    assert(l2 == lid);
                } else {
                    assert(orig.entries@[i].links@.contains(l2));
                    assert(orig.lid_in(l2));
                }
            }
            if orig.lid_in(l2) {
                let i = choose|i: int|
                    0 <= i < orig.entries@.len() && orig.entries@[i].links@.contains(l2);
                assert(cur.entries@[i].links@.contains(l2));
                assert(cur.lid_in(l2));
            }
            if l2 == lid {
                assert(cur.entries@[last].links@[0] == lid);
                assert(cur.entries@[last].links@.contains(lid));
                assert(cur.lid_in(lid));
            }
        }
    }
}

} // verus!
