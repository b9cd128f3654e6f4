//! The graph orchestrator: all nodes, all links and the two routing
//! indices that are the single source of truth for routing, plus the
//! recomputation of the per-port link lists a restarted task runs against.
//!
//! Every topology mutation stops and restarts exactly the nodes whose
//! incident links changed; an unrelated node's running task and buffered
//! data are left untouched.

use crate::ids::{IdGen, LinkId, NodeId, PortId};
use crate::nodes::{cfg_view, NodeCfg, NodeKind, Nodes};
use crate::ring::RingBuffer;
use crate::routing::{Link, RoutingIndex};
use vstd::prelude::*;

verus! {

/// The links leaving the given output port, in link order: what the
/// output routing index must list for that port.
pub open spec fn out_route(ls: Seq<Link>, n: NodeId, p: PortId) -> Seq<LinkId>
    decreases ls.len(),
{
    if ls.len() == 0 {
        Seq::empty()
    } else {
        out_route(ls.drop_last(), n, p) + if ls.last().lhs == (n, p) {
            seq![ls.last().id]
        } else {
            Seq::empty()
        }
    }
}

/// The links feeding the given input port, in link order: what the input
/// routing index must list for that port.
pub open spec fn in_route(ls: Seq<Link>, n: NodeId, p: PortId) -> Seq<LinkId>
    decreases ls.len(),
{
    if ls.len() == 0 {
        Seq::empty()
    } else {
        in_route(ls.drop_last(), n, p) + if ls.last().rhs == (n, p) {
            seq![ls.last().id]
        } else {
            Seq::empty()
        }
    }
}

/// Appending a link extends exactly its own port's routes.
pub proof fn lemma_route_push(ls: Seq<Link>, l: Link, n: NodeId, p: PortId)
    ensures
        out_route(ls.push(l), n, p) == out_route(ls, n, p) + (if l.lhs == (n, p) {
            seq![l.id]
        } else {
            Seq::<LinkId>::empty()
        }),
        in_route(ls.push(l), n, p) == in_route(ls, n, p) + (if l.rhs == (n, p) {
            seq![l.id]
        } else {
            Seq::<LinkId>::empty()
        }),
{
    assert(ls.push(l).drop_last() =~= ls);
    assert(ls.push(l).last() == l);
}

/// Every routed identity belongs to a link attached to that very port.
pub proof fn lemma_route_members(ls: Seq<Link>, n: NodeId, p: PortId)
    ensures
        forall|lid: LinkId|
            #[trigger] out_route(ls, n, p).contains(lid) ==> exists|k: int|
                0 <= k < ls.len() && (#[trigger] ls[k]).id == lid && ls[k].lhs == (n, p),
        forall|lid: LinkId|
            #[trigger] in_route(ls, n, p).contains(lid) ==> exists|k: int|
                0 <= k < ls.len() && (#[trigger] ls[k]).id == lid && ls[k].rhs == (n, p),
    decreases ls.len(),
{
    if ls.len() > 0 {
        lemma_route_members(ls.drop_last(), n, p);
        let last = ls.len() - 1;
        assert forall|lid: LinkId| #[trigger] out_route(ls, n, p).contains(lid) implies exists|
            k: int|
            0 <= k < ls.len() && (#[trigger] ls[k]).id == lid && ls[k].lhs == (n, p) by {
            let prefix = out_route(ls.drop_last(), n, p);
            let ix = choose|ix: int|
                0 <= ix < out_route(ls, n, p).len() && out_route(ls, n, p)[ix] == lid;
            if ix < prefix.len() {
                assert(prefix.contains(lid));
                let k = choose|k: int|
                    0 <= k < ls.drop_last().len() && ls.drop_last()[k].id == lid
                        && ls.drop_last()[k].lhs == (n, p);
                assert(ls[k].id == lid && ls[k].lhs == (n, p));
            } else {
                assert(ls[last].id == lid && ls[last].lhs == (n, p));
            }
        }
        assert forall|lid: LinkId| #[trigger] in_route(ls, n, p).contains(lid) implies exists|
            k: int|
            0 <= k < ls.len() && (#[trigger] ls[k]).id == lid && ls[k].rhs == (n, p) by {
            let prefix = in_route(ls.drop_last(), n, p);
            let ix = choose|ix: int|
                0 <= ix < in_route(ls, n, p).len() && in_route(ls, n, p)[ix] == lid;
            if ix < prefix.len() {
                assert(prefix.contains(lid));
                let k = choose|k: int|
                    0 <= k < ls.drop_last().len() && ls.drop_last()[k].id == lid
                        && ls.drop_last()[k].rhs == (n, p);
                assert(ls[k].id == lid && ls[k].rhs == (n, p));
            } else {
                assert(ls[last].id == lid && ls[last].rhs == (n, p));
            }
        }
    }
}

/// A link attached to a port has its identity in that port's route.
pub proof fn lemma_route_contains(ls: Seq<Link>, k: int)
    requires
        0 <= k < ls.len(),
    ensures
        ls[k].lhs == (ls[k].lhs.0, ls[k].lhs.1) && out_route(ls, ls[k].lhs.0, ls[k].lhs.1)
            .contains(ls[k].id),
        ls[k].rhs == (ls[k].rhs.0, ls[k].rhs.1) && in_route(ls, ls[k].rhs.0, ls[k].rhs.1)
            .contains(ls[k].id),
    decreases ls.len(),
{
    if k == ls.len() - 1 {
        let orr = out_route(ls, ls[k].lhs.0, ls[k].lhs.1);
        assert(ls.last().lhs == (ls[k].lhs.0, ls[k].lhs.1));
        assert(orr.last() == ls[k].id);
        let irr = in_route(ls, ls[k].rhs.0, ls[k].rhs.1);
        assert(ls.last().rhs == (ls[k].rhs.0, ls[k].rhs.1));
        assert(irr.last() == ls[k].id);
    } else {
        lemma_route_contains(ls.drop_last(), k);
        assert(ls.drop_last()[k] == ls[k]);
        let prefix = out_route(ls.drop_last(), ls[k].lhs.0, ls[k].lhs.1);
        let ix = choose|ix: int| 0 <= ix < prefix.len() && prefix[ix] == ls[k].id;
        assert(out_route(ls, ls[k].lhs.0, ls[k].lhs.1)[ix] == ls[k].id);
        let iprefix = in_route(ls.drop_last(), ls[k].rhs.0, ls[k].rhs.1);
        let iix = choose|iix: int| 0 <= iix < iprefix.len() && iprefix[iix] == ls[k].id;
        assert(in_route(ls, ls[k].rhs.0, ls[k].rhs.1)[iix] == ls[k].id);
    }
}

/// After appending the link `lhs -> rhs` and listing it at both its
/// endpoint ports, the two indices again list exactly every port's route.
#[verifier::spinoff_prover]
pub proof fn lemma_routes_after_push(oo: RoutingIndex, no: RoutingIndex, oi: RoutingIndex, ni: RoutingIndex, oldl: Seq<Link>, newl: Seq<Link>, lhs: (NodeId, PortId), rhs: (NodeId, PortId), lid: LinkId)
    requires
        forall|n: NodeId, p: PortId| #[trigger] oo.links_of(n, p) == out_route(oldl, n, p),
        forall|n: NodeId, p: PortId| #[trigger] oi.links_of(n, p) == in_route(oldl, n, p),
        newl.len() == oldl.len() + 1,
        forall|k: int| 0 <= k < oldl.len() ==> newl[k] == oldl[k],
        newl.last().id == lid,
        newl.last().lhs == lhs,
        newl.last().rhs == rhs,
        no.links_of(lhs.0, lhs.1) == oo.links_of(lhs.0, lhs.1).push(lid),
        ni.links_of(rhs.0, rhs.1) == oi.links_of(rhs.0, rhs.1).push(lid),
        forall|n2: NodeId, p2: PortId|
            !(n2 == lhs.0 && p2 == lhs.1) ==> #[trigger] no.links_of(n2, p2) == oo.links_of(
                n2,
                p2,
            ),
        forall|n2: NodeId, p2: PortId|
            !(n2 == rhs.0 && p2 == rhs.1) ==> #[trigger] ni.links_of(n2, p2) == oi.links_of(
                n2,
                p2,
            ),
    ensures
        forall|n: NodeId, p: PortId| #[trigger] no.links_of(n, p) == out_route(newl, n, p),
        forall|n: NodeId, p: PortId| #[trigger] ni.links_of(n, p) == in_route(newl, n, p),
{
    assert(newl =~= oldl.push(newl.last()));
    assert forall|n: NodeId, p: PortId| #[trigger] no.links_of(n, p) == out_route(
        newl,
        n,
        p,
    ) by {
        lemma_route_push(oldl, newl.last(), n, p);
        if n == lhs.0 && p == lhs.1 {
            assert(out_route(newl, n, p) =~= out_route(oldl, n, p).push(lid));
        } else {
            assert(out_route(newl, n, p) =~= out_route(oldl, n, p));
        }
    }
    assert forall|n: NodeId, p: PortId| #[trigger] ni.links_of(n, p) == in_route(
        newl,
        n,
        p,
    ) by {
        lemma_route_push(oldl, newl.last(), n, p);
        if n == rhs.0 && p == rhs.1 {
            assert(in_route(newl, n, p) =~= in_route(oldl, n, p).push(lid));
        } else {
            assert(in_route(newl, n, p) =~= in_route(oldl, n, p));
        }
    }
}


/// Removing an appended element that occurs nowhere earlier gives back the
/// original sequence.
proof fn lemma_remove_value_append_hit(a: Seq<LinkId>, x: LinkId)
    requires
        !a.contains(x),
    ensures
        (a + seq![x]).remove_value(x) == a,
{
    let s = a + seq![x];
    assert(s[a.len() as int] == x);
    assert(s.contains(x));
    s.index_of_first_ensures(x);
    match s.index_of_first(x) {
        Some(i) => {
            if i < a.len() {
                assert(a[i] == x);
                assert(false);
            }
            assert(s.remove(i) =~= a);
        }
        None => {
            assert(false);
        }
    }
}

/// Removing a value found in the front part of a concatenation leaves the
/// back part alone.
proof fn lemma_remove_value_append_elem(a: Seq<LinkId>, b: Seq<LinkId>, x: LinkId)
    requires
        a.contains(x),
    ensures
        (a + b).remove_value(x) == a.remove_value(x) + b,
{
    let s = a + b;
    a.index_of_first_ensures(x);
    s.index_of_first_ensures(x);
    match a.index_of_first(x) {
        Some(ia) => {
            match s.index_of_first(x) {
                Some(is_) => {
                    assert(s[ia] == x);
                    if is_ > ia {
                        assert(false);
                    }
                    if is_ < ia {
                        assert(s[is_] == a[is_]);
                        assert(false);
                    }
                    assert(s.remove(is_) =~= a.remove(ia) + b);
                }
                None => {
                    assert(s[ia] == x);
                    assert(s.contains(x));
                    assert(false);
                }
            }
        }
        None => {
            assert(false);
        }
    }
}

/// Removing the link at position `k` removes exactly its identity from its
/// own ports' routes and leaves every other route unchanged.
#[verifier::spinoff_prover]
pub proof fn lemma_route_remove(ls: Seq<Link>, k: int, n: NodeId, p: PortId)
    requires
        0 <= k < ls.len(),
        forall|i: int, j: int| 0 <= i < j < ls.len() ==> ls[i].id != ls[j].id,
    ensures
        out_route(ls.remove(k), n, p) == if ls[k].lhs == (n, p) {
            out_route(ls, n, p).remove_value(ls[k].id)
        } else {
            out_route(ls, n, p)
        },
        in_route(ls.remove(k), n, p) == if ls[k].rhs == (n, p) {
            in_route(ls, n, p).remove_value(ls[k].id)
        } else {
            in_route(ls, n, p)
        },
    decreases ls.len(),
{
    let last = ls.len() - 1;
    let dl = ls.drop_last();
    if k == last {
        assert(ls.remove(k) =~= dl);
        if ls[k].lhs == (n, p) {
            assert(!out_route(dl, n, p).contains(ls[k].id)) by {
                lemma_route_members(dl, n, p);
                if out_route(dl, n, p).contains(ls[k].id) {
                    let k2 = choose|k2: int|
                        0 <= k2 < dl.len() && dl[k2].id == ls[k].id && dl[k2].lhs == (n, p);
                    assert(ls[k2].id == ls[k].id);
                    assert(false);
                }
            }
            assert(out_route(ls, n, p) == out_route(dl, n, p) + seq![ls[k].id]);
            lemma_remove_value_append_hit(out_route(dl, n, p), ls[k].id);
        } else {
            assert(out_route(ls, n, p) =~= out_route(dl, n, p));
        }
        if ls[k].rhs == (n, p) {
            assert(!in_route(dl, n, p).contains(ls[k].id)) by {
                lemma_route_members(dl, n, p);
                if in_route(dl, n, p).contains(ls[k].id) {
                    let k2 = choose|k2: int|
                        0 <= k2 < dl.len() && dl[k2].id == ls[k].id && dl[k2].rhs == (n, p);
                    assert(ls[k2].id == ls[k].id);
                    assert(false);
                }
            }
            assert(in_route(ls, n, p) == in_route(dl, n, p) + seq![ls[k].id]);
            lemma_remove_value_append_hit(in_route(dl, n, p), ls[k].id);
        } else {
            assert(in_route(ls, n, p) =~= in_route(dl, n, p));
        }
    } else {
        assert forall|i: int, j: int| 0 <= i < j < dl.len() implies dl[i].id != dl[j].id by {
            assert(dl[i] == ls[i] && dl[j] == ls[j]);
        }
        lemma_route_remove(dl, k, n, p);
        assert(ls.remove(k).drop_last() =~= dl.remove(k));
        assert(ls.remove(k).last() == ls.last());
        assert(dl[k] == ls[k]);
        let ocontrib = if ls.last().lhs == (n, p) {
            seq![ls.last().id]
        } else {
            Seq::<LinkId>::empty()
        };
        assert(out_route(ls.remove(k), n, p) == out_route(dl.remove(k), n, p) + ocontrib);
        assert(out_route(ls, n, p) == out_route(dl, n, p) + ocontrib);
        if ls[k].lhs == (n, p) {
            lemma_route_contains(dl, k);
            assert(out_route(dl, n, p).contains(ls[k].id));
            lemma_remove_value_append_elem(out_route(dl, n, p), ocontrib, ls[k].id);
        }
        let icontrib = if ls.last().rhs == (n, p) {
            seq![ls.last().id]
        } else {
            Seq::<LinkId>::empty()
        };
        assert(in_route(ls.remove(k), n, p) == in_route(dl.remove(k), n, p) + icontrib);
        assert(in_route(ls, n, p) == in_route(dl, n, p) + icontrib);
        if ls[k].rhs == (n, p) {
            lemma_route_contains(dl, k);
            assert(in_route(dl, n, p).contains(ls[k].id));
            lemma_remove_value_append_elem(in_route(dl, n, p), icontrib, ls[k].id);
        }
    }
}

/// After removing the link at `kpos` and dropping its identity from both
/// its endpoint ports' entries, the two indices again list exactly every
/// port's route.
#[verifier::spinoff_prover]
pub proof fn lemma_routes_after_remove(oo: RoutingIndex, no: RoutingIndex, oi: RoutingIndex, ni: RoutingIndex, oldl: Seq<Link>, newl: Seq<Link>, l: Link, kpos: int)
    requires
        forall|n: NodeId, p: PortId| #[trigger] oo.links_of(n, p) == out_route(oldl, n, p),
        forall|n: NodeId, p: PortId| #[trigger] oi.links_of(n, p) == in_route(oldl, n, p),
        forall|i: int, j: int| 0 <= i < j < oldl.len() ==> oldl[i].id != oldl[j].id,
        0 <= kpos < oldl.len(),
        oldl[kpos] == l,
        newl == oldl.remove(kpos),
        no.links_of(l.lhs.0, l.lhs.1) == oo.links_of(l.lhs.0, l.lhs.1).remove_value(l.id),
        ni.links_of(l.rhs.0, l.rhs.1) == oi.links_of(l.rhs.0, l.rhs.1).remove_value(l.id),
        forall|n2: NodeId, p2: PortId|
            !(n2 == l.lhs.0 && p2 == l.lhs.1) ==> #[trigger] no.links_of(n2, p2) == oo.links_of(
                n2,
                p2,
            ),
        forall|n2: NodeId, p2: PortId|
            !(n2 == l.rhs.0 && p2 == l.rhs.1) ==> #[trigger] ni.links_of(n2, p2) == oi.links_of(
                n2,
                p2,
            ),
    ensures
        forall|n: NodeId, p: PortId| #[trigger] no.links_of(n, p) == out_route(newl, n, p),
        forall|n: NodeId, p: PortId| #[trigger] ni.links_of(n, p) == in_route(newl, n, p),
{
    assert forall|n: NodeId, p: PortId| #[trigger] no.links_of(n, p) == out_route(
        newl,
        n,
        p,
    ) by {
        lemma_route_remove(oldl, kpos, n, p);
    }
    assert forall|n: NodeId, p: PortId| #[trigger] ni.links_of(n, p) == in_route(
        newl,
        n,
        p,
    ) by {
        lemma_route_remove(oldl, kpos, n, p);
    }
}

/// The links that survive deleting a node: those that do not touch it, in
/// their original order, with their buffered data.
pub open spec fn drop_incident(ls: Seq<Link>, nid: NodeId) -> Seq<Link>
    decreases ls.len(),
{
    if ls.len() == 0 {
        Seq::empty()
    } else {
        drop_incident(ls.drop_last(), nid) + if Graph::incident(ls.last(), nid) {
            Seq::empty()
        } else {
            seq![ls.last()]
        }
    }
}

/// What survives is exactly the non-incident links.
pub proof fn lemma_drop_incident_facts(ls: Seq<Link>, nid: NodeId)
    ensures
        drop_incident(ls, nid).len() <= ls.len(),
        forall|j: int|
            0 <= j < drop_incident(ls, nid).len() ==> !Graph::incident(
                #[trigger] drop_incident(ls, nid)[j],
                nid,
            ) && ls.contains(drop_incident(ls, nid)[j]),
        forall|ko: int|
            0 <= ko < ls.len() && !Graph::incident(#[trigger] ls[ko], nid) ==> drop_incident(
                ls,
                nid,
            ).contains(ls[ko]),
    decreases ls.len(),
{
    if ls.len() > 0 {
        let dl = ls.drop_last();
        lemma_drop_incident_facts(dl, nid);
        let r = drop_incident(ls, nid);
        let rp = drop_incident(dl, nid);
        assert forall|j: int|
            0 <= j < r.len() implies !Graph::incident(#[trigger] r[j], nid) && ls.contains(
            r[j],
        ) by {
            if j < rp.len() {
                assert(r[j] == rp[j]);
                assert(dl.contains(rp[j]));
                let ko = choose|ko: int| 0 <= ko < dl.len() && dl[ko] == rp[j];
                assert(ls[ko] == rp[j]);
            } else {
                assert(r[j] == ls.last());
                assert(ls[ls.len() - 1] == ls.last());
            }
        }
        assert forall|ko: int|
            0 <= ko < ls.len() && !Graph::incident(#[trigger] ls[ko], nid) implies r.contains(
            ls[ko],
        ) by {
            if ko < ls.len() - 1 {
                assert(dl[ko] == ls[ko]);
                assert(rp.contains(ls[ko]));
                let j = choose|j: int| 0 <= j < rp.len() && rp[j] == ls[ko];
                assert(r[j] == ls[ko]);
            } else {
                assert(r[r.len() - 1] == ls.last());
            }
        }
    }
}

/// A port's route reads only link identities and endpoints, never the
/// buffered samples.
pub proof fn lemma_routes_ignore_buffers(a: Seq<Link>, b: Seq<Link>, n: NodeId, p: PortId)
    requires
        a.len() == b.len(),
        forall|k: int|
            0 <= k < a.len() ==> (#[trigger] b[k]).id == a[k].id && b[k].lhs == a[k].lhs
                && b[k].rhs == a[k].rhs,
    ensures
        out_route(b, n, p) == out_route(a, n, p),
        in_route(b, n, p) == in_route(a, n, p),
    decreases a.len(),
{
    if a.len() > 0 {
        assert forall|k: int|
            0 <= k < a.drop_last().len() implies (#[trigger] b.drop_last()[k]).id
            == a.drop_last()[k].id && b.drop_last()[k].lhs == a.drop_last()[k].lhs
            && b.drop_last()[k].rhs == a.drop_last()[k].rhs by {
            assert(b[k].id == a[k].id && b[k].lhs == a[k].lhs && b[k].rhs == a[k].rhs);
        }
        lemma_routes_ignore_buffers(a.drop_last(), b.drop_last(), n, p);
        assert(b.last().lhs == a.last().lhs && b.last().rhs == a.last().rhs && b.last().id
            == a.last().id);
    }
}

/// One persisted node: its identity, its canvas position and its type's
/// configuration.
pub struct NodeRecord {
    pub id: u64,
    pub position: (i64, i64),
    pub cfg: NodeCfg,
}

/// One persisted link: its two `(node, port)` endpoints as raw identities,
/// re-resolved against the restored port registries.
pub struct LinkRecord {
    pub lhs: (u64, u64),
    pub rhs: (u64, u64),
}

/// The persisted graph: an ordered list of node records and a list of link
/// records.
pub struct GraphConfig {
    pub nodes: Vec<NodeRecord>,
    pub links: Vec<LinkRecord>,
}

/// One node of the graph with its position on the canvas and its running
/// task, if any. The task value models the identity of the spawned
/// execution task: a restart always produces a fresh value.
pub struct NodeSlot {
    pub node: Nodes,
    pub position: (i64, i64),
    pub task: Option<u64>,
}

/// The graph orchestrator: all nodes, all links and the routing indices.
pub struct Graph {
    pub nodes: Vec<NodeSlot>,
    pub links: Vec<Link>,
    /// Which links feed a given input port.
    pub inputs: RoutingIndex,
    /// Which links a given output port feeds.
    pub outputs: RoutingIndex,
    pub node_gen: IdGen,
    pub port_gen: IdGen,
    pub link_gen: IdGen,
    /// Source of fresh task identities.
    pub task_gen: u64,
}

impl Graph {
    pub open spec fn has_node(self, nid: NodeId) -> bool {
        exists|i: int| 0 <= i < self.nodes@.len() && self.nodes@[i].node.id_spec() == nid
    }

    pub open spec fn node_index(self, nid: NodeId) -> int {
        choose|i: int| 0 <= i < self.nodes@.len() && self.nodes@[i].node.id_spec() == nid
    }

    /// The node with this identity.
    pub open spec fn node_at(self, nid: NodeId) -> Nodes {
        self.nodes@[self.node_index(nid)].node
    }

    /// The task of the node with this identity.
    pub open spec fn task_of(self, nid: NodeId) -> Option<u64> {
        self.nodes@[self.node_index(nid)].task
    }

    pub open spec fn has_link(self, lid: LinkId) -> bool {
        exists|k: int| 0 <= k < self.links@.len() && self.links@[k].id == lid
    }

    pub open spec fn link_index(self, lid: LinkId) -> int {
        choose|k: int| 0 <= k < self.links@.len() && self.links@[k].id == lid
    }

    /// Whether this link touches the node, at either end.
    pub open spec fn incident(l: Link, nid: NodeId) -> bool {
        l.lhs.0 == nid || l.rhs.0 == nid
    }

    /// Whether any link touches the node.
    pub open spec fn has_incident(self, nid: NodeId) -> bool {
        exists|k: int| 0 <= k < self.links@.len() && Self::incident(self.links@[k], nid)
    }

    /// Whether the two nodes share a link that touches `nid`.
    pub open spec fn is_neighbor(self, nid: NodeId, other: NodeId) -> bool {
        other != nid && exists|k: int|
            0 <= k < self.links@.len() && Self::incident(#[trigger] self.links@[k], nid)
                && Self::incident(self.links@[k], other)
    }

    /// The port is a registered input port of an existing node.
    pub open spec fn is_input_port(self, end: (NodeId, PortId)) -> bool {
        self.has_node(end.0) && self.node_at(end.0).inputs_spec().contains_id(end.1)
    }

    /// The port is a registered output port of an existing node.
    pub open spec fn is_output_port(self, end: (NodeId, PortId)) -> bool {
        self.has_node(end.0) && self.node_at(end.0).outputs_spec().contains_id(end.1)
    }

    /// The structural half of the invariant: identities are unique and
    /// generator-backed, every node and link is well-formed, the routing
    /// indices list exactly the links at exactly their endpoint ports, and
    /// link endpoints are registered ports of existing nodes. Opaque:
    /// proofs state which parts they use by revealing it.
    #[verifier::opaque]
    pub open spec fn wf_structure(self) -> bool {
        &&& self.node_gen.wf()
        &&& self.port_gen.wf()
        &&& self.link_gen.wf()
        &&& forall|i: int, j: int|
            0 <= i < j < self.nodes@.len() ==> self.nodes@[i].node.id_spec()
                != self.nodes@[j].node.id_spec()
        &&& forall|i: int| 0 <= i < self.nodes@.len() ==> (#[trigger] self.nodes@[i]).node.wf()
        &&& forall|i: int|
            0 <= i < self.nodes@.len() ==> self.node_gen.produced().contains(
                (#[trigger] self.nodes@[i]).node.id_spec().0,
            )
        &&& forall|k: int, m: int|
            0 <= k < m < self.links@.len() ==> self.links@[k].id != self.links@[m].id
        &&& forall|k: int|
            0 <= k < self.links@.len() ==> self.link_gen.produced().contains(
                (#[trigger] self.links@[k]).id.0,
            )
        &&& forall|k: int| 0 <= k < self.links@.len() ==> (#[trigger] self.links@[k]).wf()
        &&& self.inputs.wf()
        &&& self.outputs.wf()
        &&& forall|n: NodeId, p: PortId|
            #[trigger] self.outputs.links_of(n, p) == out_route(self.links@, n, p)
        &&& forall|n: NodeId, p: PortId|
            #[trigger] self.inputs.links_of(n, p) == in_route(self.links@, n, p)
        &&& forall|k: int|
            0 <= k < self.links@.len() ==> self.is_output_port((#[trigger] self.links@[k]).lhs)
                && self.is_input_port(self.links@[k].rhs)
    }

    /// The scheduling half of the invariant: a node runs a task exactly
    /// when it has an incident link, and task identities stay below the
    /// counter.
    #[verifier::opaque]
    pub open spec fn wf_tasks(self) -> bool {
        &&& forall|i: int|
            0 <= i < self.nodes@.len() ==> ((#[trigger] self.nodes@[i]).task.is_some()
                <==> self.has_incident(self.nodes@[i].node.id_spec()))
        &&& forall|i: int|
            0 <= i < self.nodes@.len() && (#[trigger] self.nodes@[i]).task.is_some()
                ==> self.nodes@[i].task.unwrap() < self.task_gen
    }

    /// The graph's invariant.
    pub open spec fn wf(self) -> bool {
        self.wf_structure() && self.wf_tasks()
    }

    /// The structural half of the invariant does not depend on tasks or on
    /// the task counter.
    #[verifier::spinoff_prover]
    proof fn lemma_structure_stable(x: Graph, y: Graph)
        requires
            x.wf_structure(),
            y.links == x.links,
            y.inputs == x.inputs,
            y.outputs == x.outputs,
            y.node_gen == x.node_gen,
            y.port_gen == x.port_gen,
            y.link_gen == x.link_gen,
            y.nodes@.len() == x.nodes@.len(),
            forall|j: int| 0 <= j < x.nodes@.len() ==> (#[trigger] y.nodes@[j]).node == x.nodes@[j].node,
        ensures
            y.wf_structure(),
    {
        reveal(Graph::wf_structure);
        Self::lemma_same_nodes(x, y);
        assert forall|k: int|
            0 <= k < y.links@.len() implies y.is_output_port((#[trigger] y.links@[k]).lhs)
            && y.is_input_port(y.links@[k].rhs) by {
            assert(x.is_output_port(x.links@[k].lhs));
            assert(x.is_input_port(x.links@[k].rhs));
        }
    }

    /// The task clauses of the invariant alone.    /// The task clauses of the invariant alone.
    proof fn lemma_wf_tasks(self)
        requires
            self.wf(),
        ensures
            forall|i: int|
                0 <= i < self.nodes@.len() ==> ((#[trigger] self.nodes@[i]).task.is_some()
                    <==> self.has_incident(self.nodes@[i].node.id_spec())),
            forall|i: int|
                0 <= i < self.nodes@.len() && (#[trigger] self.nodes@[i]).task.is_some()
                    ==> self.nodes@[i].task.unwrap() < self.task_gen,
    {
        reveal(Graph::wf_tasks);
    }

    /// Spell the whole invariant out as separate facts.
    proof fn lemma_wf_unfold(self)
        requires
            self.wf(),
        ensures
            self.node_gen.wf(),
            self.port_gen.wf(),
            self.link_gen.wf(),
            forall|i: int, j: int|
                0 <= i < j < self.nodes@.len() ==> self.nodes@[i].node.id_spec()
                    != self.nodes@[j].node.id_spec(),
            forall|i: int| 0 <= i < self.nodes@.len() ==> (#[trigger] self.nodes@[i]).node.wf(),
            forall|i: int|
                0 <= i < self.nodes@.len() ==> self.node_gen.produced().contains(
                    (#[trigger] self.nodes@[i]).node.id_spec().0,
                ),
            forall|k: int, m: int|
                0 <= k < m < self.links@.len() ==> self.links@[k].id != self.links@[m].id,
            forall|k: int|
                0 <= k < self.links@.len() ==> self.link_gen.produced().contains(
                    (#[trigger] self.links@[k]).id.0,
                ),
            forall|k: int| 0 <= k < self.links@.len() ==> (#[trigger] self.links@[k]).wf(),
            self.inputs.wf(),
            self.outputs.wf(),
            forall|n: NodeId, p: PortId|
                #[trigger] self.outputs.links_of(n, p) == out_route(self.links@, n, p),
            forall|n: NodeId, p: PortId|
                #[trigger] self.inputs.links_of(n, p) == in_route(self.links@, n, p),
            forall|k: int|
                0 <= k < self.links@.len() ==> self.is_output_port(
                    (#[trigger] self.links@[k]).lhs,
                ) && self.is_input_port(self.links@[k].rhs),
            forall|i: int|
                0 <= i < self.nodes@.len() ==> ((#[trigger] self.nodes@[i]).task.is_some()
                    <==> self.has_incident(self.nodes@[i].node.id_spec())),
            forall|i: int|
                0 <= i < self.nodes@.len() && (#[trigger] self.nodes@[i]).task.is_some()
                    ==> self.nodes@[i].task.unwrap() < self.task_gen,
    {
        reveal(Graph::wf_structure);
        reveal(Graph::wf_tasks);
    }

    /// Assemble the invariant back from its separate facts.
    proof fn lemma_wf_fold(self)
        requires
            self.node_gen.wf(),
            self.port_gen.wf(),
            self.link_gen.wf(),
            forall|i: int, j: int|
                0 <= i < j < self.nodes@.len() ==> self.nodes@[i].node.id_spec()
                    != self.nodes@[j].node.id_spec(),
            forall|i: int| 0 <= i < self.nodes@.len() ==> (#[trigger] self.nodes@[i]).node.wf(),
            forall|i: int|
                0 <= i < self.nodes@.len() ==> self.node_gen.produced().contains(
                    (#[trigger] self.nodes@[i]).node.id_spec().0,
                ),
            forall|k: int, m: int|
                0 <= k < m < self.links@.len() ==> self.links@[k].id != self.links@[m].id,
            forall|k: int|
                0 <= k < self.links@.len() ==> self.link_gen.produced().contains(
                    (#[trigger] self.links@[k]).id.0,
                ),
            forall|k: int| 0 <= k < self.links@.len() ==> (#[trigger] self.links@[k]).wf(),
            self.inputs.wf(),
            self.outputs.wf(),
            forall|n: NodeId, p: PortId|
                #[trigger] self.outputs.links_of(n, p) == out_route(self.links@, n, p),
            forall|n: NodeId, p: PortId|
                #[trigger] self.inputs.links_of(n, p) == in_route(self.links@, n, p),
            forall|k: int|
                0 <= k < self.links@.len() ==> self.is_output_port(
                    (#[trigger] self.links@[k]).lhs,
                ) && self.is_input_port(self.links@[k].rhs),
            forall|i: int|
                0 <= i < self.nodes@.len() ==> ((#[trigger] self.nodes@[i]).task.is_some()
                    <==> self.has_incident(self.nodes@[i].node.id_spec())),
            forall|i: int|
                0 <= i < self.nodes@.len() && (#[trigger] self.nodes@[i]).task.is_some()
                    ==> self.nodes@[i].task.unwrap() < self.task_gen,
        ensures
            self.wf(),
    {
        reveal(Graph::wf_structure);
        reveal(Graph::wf_tasks);
    }

    /// The parts of the invariant that lookups and checks lean on.
    pub proof fn lemma_wf_basics(self)
        requires
            self.wf(),
        ensures
            forall|i: int, j: int|
                0 <= i < j < self.nodes@.len() ==> self.nodes@[i].node.id_spec()
                    != self.nodes@[j].node.id_spec(),
            forall|k: int, m: int|
                0 <= k < m < self.links@.len() ==> self.links@[k].id != self.links@[m].id,
            forall|i: int| 0 <= i < self.nodes@.len() ==> (#[trigger] self.nodes@[i]).node.wf(),
            forall|i: int|
                0 <= i < self.nodes@.len() ==> self.node_gen.produced().contains(
                    (#[trigger] self.nodes@[i]).node.id_spec().0,
                ),
            forall|k: int| 0 <= k < self.links@.len() ==> (#[trigger] self.links@[k]).wf(),
            self.inputs.wf(),
            self.outputs.wf(),
            self.node_gen.wf(),
            self.port_gen.wf(),
            self.link_gen.wf(),
    {
        reveal(Graph::wf_structure);
    }

    /// An empty graph.
    pub fn new() -> (g: Graph)
        ensures
            g.wf(),
            g.nodes@.len() == 0,
            g.links@.len() == 0,
            g.node_gen.next() == 0,
            g.port_gen.next() == 0,
            g.link_gen.next() == 0,
            g.task_gen == 0,
    {
        let g = Graph {
            nodes: Vec::new(),
            links: Vec::new(),
            inputs: RoutingIndex::new(),
            outputs: RoutingIndex::new(),
            node_gen: IdGen::new(),
            port_gen: IdGen::new(),
            link_gen: IdGen::new(),
            task_gen: 0,
        };
        proof {
            reveal(Graph::wf_structure);
        reveal(Graph::wf_tasks);
            assert forall|n: NodeId, p: PortId| #[trigger] g.outputs.links_of(n, p) == out_route(
                g.links@,
                n,
                p,
            ) by {}
            assert forall|n: NodeId, p: PortId| #[trigger] g.inputs.links_of(n, p) == in_route(
                g.links@,
                n,
                p,
            ) by {}
        }
        g
    }

    /// Find the position of the node with this identity.
    pub fn find_node(&self, nid: NodeId) -> (r: Option<usize>)
        requires
            forall|x: int, y: int|
                0 <= x < y < self.nodes@.len() ==> self.nodes@[x].node.id_spec()
                    != self.nodes@[y].node.id_spec(),
        ensures
            match r {
                Some(i) => self.has_node(nid) && i < self.nodes@.len()
                    && self.nodes@[i as int].node.id_spec() == nid && self.node_index(nid) == i,
                None => !self.has_node(nid),
            },
    {
        let mut i: usize = 0;
        while i < self.nodes.len()
            invariant
                forall|x: int, y: int|
                    0 <= x < y < self.nodes@.len() ==> self.nodes@[x].node.id_spec()
                        != self.nodes@[y].node.id_spec(),
                i <= self.nodes@.len(),
                forall|j: int| 0 <= j < i ==> (#[trigger] self.nodes@[j]).node.id_spec() != nid,
            decreases self.nodes@.len() - i,
        {
            if self.nodes[i].node.id().get() == nid.get() {
                proof {
                    assert(self.has_node(nid));
                    let ki = self.node_index(nid);
                    assert(self.nodes@[ki].node.id_spec() == nid);
                    if ki != i {
                        assert(false);
                    }
                }
                return Some(i);
            }
            i = i + 1;
        }
        proof {
            if self.has_node(nid) {
                let ki = self.node_index(nid);
                assert(self.nodes@[ki].node.id_spec() == nid);
                assert(false);
            }
        }
        None
    }

    /// Find the position of the link with this identity.
    pub fn find_link(&self, lid: LinkId) -> (r: Option<usize>)
        requires
            forall|x: int, y: int|
                0 <= x < y < self.links@.len() ==> self.links@[x].id != self.links@[y].id,
        ensures
            match r {
                Some(k) => self.has_link(lid) && k < self.links@.len()
                    && self.links@[k as int].id == lid && self.link_index(lid) == k,
                None => !self.has_link(lid),
            },
    {
        let mut k: usize = 0;
        while k < self.links.len()
            invariant
                forall|x: int, y: int|
                    0 <= x < y < self.links@.len() ==> self.links@[x].id != self.links@[y].id,
                k <= self.links@.len(),
                forall|j: int| 0 <= j < k ==> (#[trigger] self.links@[j]).id != lid,
            decreases self.links@.len() - k,
        {
            if self.links[k].id.get() == lid.get() {
                proof {
                    assert(self.has_link(lid));
                    let ki = self.link_index(lid);
                    assert(self.links@[ki].id == lid);
                    if ki != k {
                        assert(false);
                    }
                }
                return Some(k);
            }
            k = k + 1;
        }
        proof {
            if self.has_link(lid) {
                let ki = self.link_index(lid);
                assert(self.links@[ki].id == lid);
                assert(false);
            }
        }
        None
    }

    /// Whether any link touches this node right now.
    fn incident_exists(&self, nid: NodeId) -> (r: bool)
        ensures
            r == self.has_incident(nid),
    {
        let mut k: usize = 0;
        while k < self.links.len()
            invariant
                k <= self.links@.len(),
                forall|j: int|
                    0 <= j < k ==> !Self::incident(#[trigger] self.links@[j], nid),
            decreases self.links@.len() - k,
        {
            let l = &self.links[k];
            if l.lhs.0.get() == nid.get() || l.rhs.0.get() == nid.get() {
                proof {
                    assert(Self::incident(self.links@[k as int], nid));
                }
                return true;
            }
            k = k + 1;
        }
        proof {
            if self.has_incident(nid) {
                let j = choose|j: int|
                    0 <= j < self.links@.len() && Self::incident(self.links@[j], nid);
                assert(false);
            }
        }
        false
    }

    /// Stop the node at this position and start it again when it has an
    /// incident link: its task, if any, is replaced by a fresh one. A node
    /// with no incident link stays stopped.
    fn restart_slot(&mut self, i: usize)
        requires
            i < old(self).nodes@.len(),
            old(self).task_gen < u64::MAX,
        ensures
            final(self).nodes@.len() == old(self).nodes@.len(),
            final(self).nodes@[i as int].node == old(self).nodes@[i as int].node,
            final(self).nodes@[i as int].position == old(self).nodes@[i as int].position,
            final(self).nodes@[i as int].task == if old(self).has_incident(
                old(self).nodes@[i as int].node.id_spec(),
            ) {
                Some(old(self).task_gen)
            } else {
                None
            },
            forall|j: int|
                0 <= j < old(self).nodes@.len() && j != i ==> final(self).nodes@[j] == old(self).nodes@[j],
            final(self).links == old(self).links,
            final(self).inputs == old(self).inputs,
            final(self).outputs == old(self).outputs,
            final(self).node_gen == old(self).node_gen,
            final(self).port_gen == old(self).port_gen,
            final(self).link_gen == old(self).link_gen,
            final(self).task_gen == if old(self).has_incident(
                old(self).nodes@[i as int].node.id_spec(),
            ) {
                (old(self).task_gen + 1) as u64
            } else {
                old(self).task_gen
            },
    {
        let nid = self.nodes[i].node.id();
        let running = self.incident_exists(nid);
        let t: Option<u64>;
        if running {
            t = Some(self.task_gen);
            self.task_gen = self.task_gen + 1;
        } else {
            t = None;
        }
        let slot = &mut self.nodes[i];
        slot.task = t;
    }

    /// Incidence only depends on the links.
    proof fn lemma_incident_same(a: Graph, b: Graph, nid: NodeId)
        requires
            a.links@ == b.links@,
        ensures
            a.has_incident(nid) == b.has_incident(nid),
    {
        if a.has_incident(nid) {
            let k = choose|k: int|
                0 <= k < a.links@.len() && Self::incident(a.links@[k], nid);
            assert(Self::incident(b.links@[k], nid));
        }
        if b.has_incident(nid) {
            let k = choose|k: int|
                0 <= k < b.links@.len() && Self::incident(b.links@[k], nid);
            assert(Self::incident(a.links@[k], nid));
        }
    }

    /// With distinct node identities, looking a slot's identity up finds
    /// that slot.
    proof fn lemma_node_at(self, i: int)
        requires
            forall|a: int, b: int|
                0 <= a < b < self.nodes@.len() ==> self.nodes@[a].node.id_spec()
                    != self.nodes@[b].node.id_spec(),
            0 <= i < self.nodes@.len(),
        ensures
            self.has_node(self.nodes@[i].node.id_spec()),
            self.node_index(self.nodes@[i].node.id_spec()) == i,
            self.node_at(self.nodes@[i].node.id_spec()) == self.nodes@[i].node,
            self.task_of(self.nodes@[i].node.id_spec()) == self.nodes@[i].task,
    {
        let nid = self.nodes@[i].node.id_spec();
        assert(self.has_node(nid));
        let ki = self.node_index(nid);
        assert(self.nodes@[ki].node.id_spec() == nid);
        if ki != i {
            assert(false);
        }
    }



    /// Two graphs with the same node values (tasks aside) agree on node
    /// lookups and port classification.
    proof fn lemma_same_nodes(x: Graph, y: Graph)
        requires
            x.nodes@.len() == y.nodes@.len(),
            forall|j: int| 0 <= j < x.nodes@.len() ==> x.nodes@[j].node == y.nodes@[j].node,
            forall|i: int, j: int|
                0 <= i < j < x.nodes@.len() ==> x.nodes@[i].node.id_spec()
                    != x.nodes@[j].node.id_spec(),
        ensures
            forall|nid: NodeId| #[trigger] x.has_node(nid) <==> y.has_node(nid),
            forall|nid: NodeId|
                #[trigger] x.has_node(nid) ==> x.node_index(nid) == y.node_index(nid)
                    && x.node_at(nid) == y.node_at(nid),
            forall|end: (NodeId, PortId)|
                #[trigger] x.is_output_port(end) == y.is_output_port(end),
            forall|end: (NodeId, PortId)|
                #[trigger] x.is_input_port(end) == y.is_input_port(end),
    {
        assert forall|nid: NodeId| #[trigger] x.has_node(nid) <==> y.has_node(nid) by {
            if x.has_node(nid) {
                let i = choose|i: int|
                    0 <= i < x.nodes@.len() && x.nodes@[i].node.id_spec() == nid;
                assert(y.nodes@[i].node.id_spec() == nid);
            }
            if y.has_node(nid) {
                let i = choose|i: int|
                    0 <= i < y.nodes@.len() && y.nodes@[i].node.id_spec() == nid;
                assert(x.nodes@[i].node.id_spec() == nid);
            }
        }
        assert forall|nid: NodeId| #[trigger] x.has_node(nid) implies x.node_index(nid)
            == y.node_index(nid) && x.node_at(nid) == y.node_at(nid) by {
            let xi = x.node_index(nid);
            assert(x.nodes@[xi].node.id_spec() == nid);
            let yi = y.node_index(nid);
            assert(y.nodes@[yi].node.id_spec() == nid);
            assert(x.nodes@[yi].node.id_spec() == nid);
            if xi != yi {
                assert(false);
            }
        }
    }

    /// A freshly generated identity is no indexed link: every routed
    /// identity belongs to an existing link, whose identity the link
    /// generator produced.
    proof fn lemma_fresh_lid_unindexed(self, lid: LinkId)
        requires
            self.wf(),
            !self.link_gen.produced().contains(lid.0),
        ensures
            !self.inputs.lid_in(lid),
            !self.outputs.lid_in(lid),
            !self.has_link(lid),
    {
        reveal(Graph::wf_structure);
        reveal(Graph::wf_tasks);
        reveal(RoutingIndex::lid_in);
        if self.outputs.lid_in(lid) {
            let i = choose|i: int|
                0 <= i < self.outputs.entries@.len() && self.outputs.entries@[i].links@.contains(
                    lid,
                );
            self.outputs.lemma_entry_links(i);
            let e = self.outputs.entries@[i];
            assert(out_route(self.links@, e.node, e.port).contains(lid));
            lemma_route_members(self.links@, e.node, e.port);
            let k = choose|k: int|
                0 <= k < self.links@.len() && self.links@[k].id == lid && self.links@[k].lhs == (
                e.node,
                e.port,
            );
            assert(self.link_gen.produced().contains(lid.0));
            assert(false);
        }
        if self.inputs.lid_in(lid) {
            let i = choose|i: int|
                0 <= i < self.inputs.entries@.len() && self.inputs.entries@[i].links@.contains(
                    lid,
                );
            self.inputs.lemma_entry_links(i);
            let e = self.inputs.entries@[i];
            assert(in_route(self.links@, e.node, e.port).contains(lid));
            lemma_route_members(self.links@, e.node, e.port);
            let k = choose|k: int|
                0 <= k < self.links@.len() && self.links@[k].id == lid && self.links@[k].rhs == (
                e.node,
                e.port,
            );
            assert(false);
        }
        if self.has_link(lid) {
            let k = self.link_index(lid);
            assert(self.links@[k].id == lid);
            assert(false);
        }
    }

    /// Whether this end is a registered input port of an existing node.
    fn check_input_port(&self, end: (NodeId, PortId)) -> (r: bool)
        requires
            self.wf(),
        ensures
            r == self.is_input_port(end),
    {
        proof {
            self.lemma_wf_basics();
        }
        match self.find_node(end.0) {
            Some(i) => self.nodes[i].node.inputs().get_portid_idx(end.1).is_some(),
            None => false,
        }
    }

    /// Whether this end is a registered output port of an existing node.
    fn check_output_port(&self, end: (NodeId, PortId)) -> (r: bool)
        requires
            self.wf(),
        ensures
            r == self.is_output_port(end),
    {
        proof {
            self.lemma_wf_basics();
        }
        match self.find_node(end.0) {
            Some(i) => self.nodes[i].node.outputs().get_portid_idx(end.1).is_some(),
            None => false,
        }
    }

    /// What an accepted connection does to the graph: one fresh link from
    /// `lhs` to `rhs` with an empty buffer, listed at both endpoint ports of
    /// both routing indices, the two endpoint nodes restarted with fresh
    /// tasks, and everything else — other nodes' tasks, other ports'
    /// routing, every existing link's buffered data — untouched.
    pub open spec fn link_added(self, post: Graph, lhs: (NodeId, PortId), rhs: (NodeId, PortId)) -> bool {
        let nl = LinkId { 0: self.link_gen.next() };
        &&& post.links@.len() == self.links@.len() + 1
        &&& forall|k: int| 0 <= k < self.links@.len() ==> post.links@[k] == self.links@[k]
        &&& post.links@.last().id == nl
        &&& post.links@.last().lhs == lhs
        &&& post.links@.last().rhs == rhs
        &&& post.links@.last().buffer.history() == Seq::<i32>::empty()
        &&& post.links@.last().buffer.capacity() == crate::LINK_CAPACITY
        &&& post.outputs.links_of(lhs.0, lhs.1) == self.outputs.links_of(lhs.0, lhs.1).push(nl)
        &&& post.inputs.links_of(rhs.0, rhs.1) == self.inputs.links_of(rhs.0, rhs.1).push(nl)
        &&& forall|n2: NodeId, p2: PortId|
            !(n2 == lhs.0 && p2 == lhs.1) ==> #[trigger] post.outputs.links_of(n2, p2)
                == self.outputs.links_of(n2, p2)
        &&& forall|n2: NodeId, p2: PortId|
            !(n2 == rhs.0 && p2 == rhs.1) ==> #[trigger] post.inputs.links_of(n2, p2)
                == self.inputs.links_of(n2, p2)
        &&& post.nodes@.len() == self.nodes@.len()
        &&& forall|j: int|
            0 <= j < self.nodes@.len() ==> (#[trigger] post.nodes@[j]).node
                == self.nodes@[j].node && post.nodes@[j].position == self.nodes@[j].position
        &&& forall|j: int|
            0 <= j < self.nodes@.len() && self.nodes@[j].node.id_spec() != lhs.0
                && self.nodes@[j].node.id_spec() != rhs.0
                ==> (#[trigger] post.nodes@[j]).task == self.nodes@[j].task
        &&& forall|j: int|
            0 <= j < self.nodes@.len() && (self.nodes@[j].node.id_spec() == lhs.0
                || self.nodes@[j].node.id_spec() == rhs.0)
                ==> ((#[trigger] post.nodes@[j]).task matches Some(t) && t >= self.task_gen)
    }

    /// Create the link `lhs -> rhs`: accepted exactly when `lhs` is a
    /// registered output port and `rhs` a registered input port of existing
    /// nodes. An accepted link gets a fresh identity and an empty buffer, is
    /// listed at both endpoint ports, and exactly the two endpoint nodes
    /// are restarted; a rejected attempt leaves the graph unchanged.
    #[verifier::spinoff_prover]
    #[verifier::rlimit(100)]
    pub fn add_link(&mut self, lhs: (NodeId, PortId), rhs: (NodeId, PortId)) -> (r: Option<
        LinkId,
    >)
        requires
            old(self).wf(),
            old(self).link_gen.can_generate(),
            old(self).task_gen + 2 <= u64::MAX,
        ensures
            final(self).wf(),
            r is Some <==> (old(self).is_output_port(lhs) && old(self).is_input_port(rhs)),
            r is None ==> *final(self) == *old(self),
            r matches Some(lid) ==> lid.0 == old(self).link_gen.next() && old(self).link_added(
                *final(self),
                lhs,
                rhs,
            ),
            final(self).node_gen == old(self).node_gen,
            final(self).port_gen == old(self).port_gen,
            old(self).task_gen <= final(self).task_gen <= old(self).task_gen + 2,
            final(self).link_gen.next() <= old(self).link_gen.next() + 1,
    {
        if !(self.check_output_port(lhs) && self.check_input_port(rhs)) {
            return None;
        }
        let ghost prev = *old(self);
        proof {
            prev.lemma_wf_basics();
        }
        let lid = LinkId::generate(&mut self.link_gen);
        proof {
            prev.lemma_fresh_lid_unindexed(lid);
        }
        let buffer = RingBuffer::new(crate::LINK_CAPACITY);
        self.outputs.insert(lhs.0, lhs.1, lid);
        self.inputs.insert(rhs.0, rhs.1, lid);
        self.links.push(Link { id: lid, lhs, rhs, buffer });
        let ia = match self.find_node(lhs.0) {
            Some(i) => i,
            None => {
                proof {
                    assert(false);
                }
                0
            }
        };
        let ib = match self.find_node(rhs.0) {
            Some(i) => i,
            None => {
                proof {
                    assert(false);
                }
                0
            }
        };
        let ghost m1 = *self;
        proof {
            let nl = m1.links@.len() - 1;
            assert(Self::incident(m1.links@[nl], lhs.0) && Self::incident(m1.links@[nl], rhs.0));
            assert(m1.has_incident(lhs.0) && m1.has_incident(rhs.0));
        }
        self.restart_slot(ia);
        let ghost m2 = *self;
        proof {
            Self::lemma_incident_same(m1, m2, rhs.0);
            assert(m2.has_incident(rhs.0));
            assert(m1.nodes@[ia as int].node.id_spec() == lhs.0);
            assert(m2.nodes@[ia as int].task == Some(m1.task_gen));
            assert(m2.task_gen == m1.task_gen + 1);
        }
        self.restart_slot(ib);
        proof {
            assert(m2.nodes@[ib as int].node.id_spec() == rhs.0);
            assert(self.nodes@[ib as int].task == Some(m2.task_gen));
            assert(self.task_gen == m2.task_gen + 1);
            if ib as int != ia as int {
                assert(self.nodes@[ia as int].task == Some(m1.task_gen));
            }
            assert(prev.task_gen == m1.task_gen);
            self.lemma_add_link_wf(prev, lhs, rhs, lid, ia as int, ib as int);
        }
        Some(lid)
    }

    /// Re-establish the graph invariant at the end of `add_link`.
    #[verifier::spinoff_prover]
    #[verifier::rlimit(100)]
    proof fn lemma_add_link_wf(self, prev: Graph, lhs: (NodeId, PortId), rhs: (NodeId, PortId), lid: LinkId, ia: int, ib: int)
        requires
            prev.wf(),
            !prev.link_gen.produced().contains(lid.0),
            prev.is_output_port(lhs),
            prev.is_input_port(rhs),
            self.nodes@.len() == prev.nodes@.len(),
            forall|j: int|
                0 <= j < prev.nodes@.len() ==> (#[trigger] self.nodes@[j]).node
                    == prev.nodes@[j].node,
            0 <= ia < self.nodes@.len(),
            0 <= ib < self.nodes@.len(),
            self.nodes@[ia].node.id_spec() == lhs.0,
            self.nodes@[ib].node.id_spec() == rhs.0,
            forall|j: int|
                0 <= j < prev.nodes@.len() && j != ia && j != ib ==> (
                #[trigger] self.nodes@[j]).task == prev.nodes@[j].task,
            self.nodes@[ia].task matches Some(t) && prev.task_gen <= t < self.task_gen,
            self.nodes@[ib].task matches Some(t) && prev.task_gen <= t < self.task_gen,
            prev.task_gen <= self.task_gen,
            self.links@.len() == prev.links@.len() + 1,
            forall|k: int| 0 <= k < prev.links@.len() ==> self.links@[k] == prev.links@[k],
            self.links@.last().id == lid,
            self.links@.last().lhs == lhs,
            self.links@.last().rhs == rhs,
            self.links@.last().wf(),
            self.node_gen == prev.node_gen,
            self.port_gen == prev.port_gen,
            self.link_gen.wf(),
            forall|x: u64|
                prev.link_gen.produced().contains(x) ==> self.link_gen.produced().contains(x),
            self.link_gen.produced().contains(lid.0),
            self.inputs.wf(),
            self.outputs.wf(),
            self.outputs.links_of(lhs.0, lhs.1) == prev.outputs.links_of(lhs.0, lhs.1).push(lid),
            self.inputs.links_of(rhs.0, rhs.1) == prev.inputs.links_of(rhs.0, rhs.1).push(lid),
            forall|n2: NodeId, p2: PortId|
                !(n2 == lhs.0 && p2 == lhs.1) ==> #[trigger] self.outputs.links_of(n2, p2)
                    == prev.outputs.links_of(n2, p2),
            forall|n2: NodeId, p2: PortId|
                !(n2 == rhs.0 && p2 == rhs.1) ==> #[trigger] self.inputs.links_of(n2, p2)
                    == prev.inputs.links_of(n2, p2),
        ensures
            self.wf(),
    {
        let cur = self;
        let nl = prev.links@.len() as int;
        prev.lemma_wf_unfold();
        Self::lemma_same_nodes(prev, cur);
        assert(cur.links@ =~= prev.links@.push(cur.links@.last()));
        assert forall|k: int| 0 <= k < nl implies (#[trigger] prev.links@[k]).id != lid by {
            assert(prev.link_gen.produced().contains(prev.links@[k].id.0));
        }
        lemma_routes_after_push(
            prev.outputs,
            cur.outputs,
            prev.inputs,
            cur.inputs,
            prev.links@,
            cur.links@,
            lhs,
            rhs,
            lid,
        );
        assert forall|k: int|
            0 <= k < cur.links@.len() implies cur.is_output_port((#[trigger] cur.links@[k]).lhs)
            && cur.is_input_port(cur.links@[k].rhs) by {
            if k < nl {
                assert(prev.is_output_port(prev.links@[k].lhs));
                assert(prev.is_input_port(prev.links@[k].rhs));
            } else {
                assert(prev.is_output_port(lhs) && prev.is_input_port(rhs));
            }
        }
        Self::lemma_add_link_tasks(prev, cur, lhs, rhs, ia, ib);
        assert forall|i: int|
            0 <= i < cur.nodes@.len() implies (#[trigger] cur.nodes@[i]).node.wf()
            && cur.node_gen.produced().contains(cur.nodes@[i].node.id_spec().0) by {
            assert(cur.nodes@[i].node == prev.nodes@[i].node);
        }
        assert(cur.wf_structure()) by {
            reveal(Graph::wf_structure);
        }
        assert(cur.wf_tasks()) by {
            reveal(Graph::wf_tasks);
        }
    }

    /// After adding a link, a node runs exactly when a link touches it, and
    /// every task identity stays below the counter.
    #[verifier::spinoff_prover]
    proof fn lemma_add_link_tasks(prev: Graph, cur: Graph, lhs: (NodeId, PortId), rhs: (NodeId, PortId), ia: int, ib: int)
        requires
            cur.nodes@.len() == prev.nodes@.len(),
            forall|j: int|
                0 <= j < prev.nodes@.len() ==> (#[trigger] cur.nodes@[j]).node
                    == prev.nodes@[j].node,
            forall|i: int, j: int|
                0 <= i < j < cur.nodes@.len() ==> cur.nodes@[i].node.id_spec()
                    != cur.nodes@[j].node.id_spec(),
            0 <= ia < cur.nodes@.len(),
            0 <= ib < cur.nodes@.len(),
            cur.nodes@[ia].node.id_spec() == lhs.0,
            cur.nodes@[ib].node.id_spec() == rhs.0,
            forall|j: int|
                0 <= j < prev.nodes@.len() && j != ia && j != ib ==> (
                #[trigger] cur.nodes@[j]).task == prev.nodes@[j].task,
            cur.nodes@[ia].task matches Some(t) && prev.task_gen <= t < cur.task_gen,
            cur.nodes@[ib].task matches Some(t) && prev.task_gen <= t < cur.task_gen,
            prev.task_gen <= cur.task_gen,
            cur.links@.len() == prev.links@.len() + 1,
            forall|k: int| 0 <= k < prev.links@.len() ==> cur.links@[k] == prev.links@[k],
            cur.links@.last().lhs == lhs,
            cur.links@.last().rhs == rhs,
            forall|i: int|
                0 <= i < prev.nodes@.len() ==> ((#[trigger] prev.nodes@[i]).task.is_some()
                    <==> prev.has_incident(prev.nodes@[i].node.id_spec())),
            forall|i: int|
                0 <= i < prev.nodes@.len() && (#[trigger] prev.nodes@[i]).task.is_some()
                    ==> prev.nodes@[i].task.unwrap() < prev.task_gen,
        ensures
            forall|i: int|
                0 <= i < cur.nodes@.len() ==> ((#[trigger] cur.nodes@[i]).task.is_some()
                    <==> cur.has_incident(cur.nodes@[i].node.id_spec())),
            forall|i: int|
                0 <= i < cur.nodes@.len() && (#[trigger] cur.nodes@[i]).task.is_some()
                    ==> cur.nodes@[i].task.unwrap() < cur.task_gen,
    {
        let nl = prev.links@.len() as int;
        assert forall|j: int| 0 <= j < cur.nodes@.len() implies ((
        #[trigger] cur.nodes@[j]).task.is_some() <==> cur.has_incident(
            cur.nodes@[j].node.id_spec(),
        )) by {
            let jid = cur.nodes@[j].node.id_spec();
            if j == ia || j == ib {
                assert(Self::incident(cur.links@[nl], jid));
                assert(cur.has_incident(jid));
            } else {
                if cur.has_incident(jid) {
                    let k = choose|k: int|
                        0 <= k < cur.links@.len() && Self::incident(cur.links@[k], jid);
                    if k < nl {
                        assert(Self::incident(prev.links@[k], jid));
                        assert(prev.has_incident(jid));
                    } else {
                        assert(jid == lhs.0 || jid == rhs.0);
                        assert(false);
                    }
                }
                if prev.has_incident(jid) {
                    let k = choose|k: int|
                        0 <= k < prev.links@.len() && Self::incident(prev.links@[k], jid);
                    assert(Self::incident(cur.links@[k], jid));
                    assert(cur.has_incident(jid));
                }
            }
        }
        assert forall|j: int|
            0 <= j < cur.nodes@.len() && (#[trigger] cur.nodes@[j]).task.is_some() implies
            cur.nodes@[j].task.unwrap() < cur.task_gen by {
            if j != ia && j != ib {
                assert(prev.nodes@[j].task.unwrap() < prev.task_gen);
            }
        }
    }

    /// Which way a candidate edge runs: the output side first, then the
    /// input side.
    pub open spec fn oriented(self, a: (NodeId, PortId), b: (NodeId, PortId)) -> (
        (NodeId, PortId),
        (NodeId, PortId),
    ) {
        if self.is_input_port(a) && self.is_output_port(b) {
            (b, a)
        } else {
            (a, b)
        }
    }

    /// The two ends can be connected: exactly one is an input port and the
    /// other an output port.
    pub open spec fn connectable(self, a: (NodeId, PortId), b: (NodeId, PortId)) -> bool {
        (self.is_input_port(a) && self.is_output_port(b)) || (self.is_output_port(a)
            && self.is_input_port(b))
    }

    /// Connect two ports, whichever way round the user drew them. Both-input
    /// and both-output attempts are rejected and leave the graph unchanged;
    /// an accepted attempt adds the oriented link and restarts exactly the
    /// two endpoint nodes.
    pub fn connect(&mut self, a: (NodeId, PortId), b: (NodeId, PortId)) -> (r: bool)
        requires
            old(self).wf(),
            old(self).link_gen.can_generate(),
            old(self).task_gen + 2 <= u64::MAX,
        ensures
            final(self).wf(),
            r == old(self).connectable(a, b),
            !r ==> *final(self) == *old(self),
            r ==> old(self).link_added(
                *final(self),
                old(self).oriented(a, b).0,
                old(self).oriented(a, b).1,
            ),
            final(self).node_gen == old(self).node_gen,
            final(self).port_gen == old(self).port_gen,
            old(self).task_gen <= final(self).task_gen <= old(self).task_gen + 2,
    {
        let a_in = self.check_input_port(a);
        let b_out = self.check_output_port(b);
        if a_in && b_out {
            let r = self.add_link(b, a);
            proof {
                assert(r is Some);
            }
            true
        } else {
            match self.add_link(a, b) {
                Some(_) => true,
                None => false,
            }
        }
    }

    /// A link's identity is listed only at the entries of its own endpoint
    /// ports.
    #[verifier::spinoff_prover]
    proof fn lemma_lid_only_at_keys(self, l: Link, kpos: int)
        requires
            self.wf(),
            0 <= kpos < self.links@.len(),
            self.links@[kpos] == l,
        ensures
            forall|i: int|
                0 <= i < self.outputs.entries@.len() && (
                #[trigger] self.outputs.entries@[i]).links@.contains(l.id)
                    ==> self.outputs.entries@[i].node == l.lhs.0 && self.outputs.entries@[i].port
                    == l.lhs.1,
            forall|i: int|
                0 <= i < self.inputs.entries@.len() && (
                #[trigger] self.inputs.entries@[i]).links@.contains(l.id)
                    ==> self.inputs.entries@[i].node == l.rhs.0 && self.inputs.entries@[i].port
                    == l.rhs.1,
    {
        reveal(Graph::wf_structure);
        reveal(Graph::wf_tasks);
        assert forall|i: int|
            0 <= i < self.outputs.entries@.len() && (
            #[trigger] self.outputs.entries@[i]).links@.contains(l.id) implies
            self.outputs.entries@[i].node == l.lhs.0 && self.outputs.entries@[i].port
                == l.lhs.1 by {
            self.outputs.lemma_entry_links(i);
            let e = self.outputs.entries@[i];
            assert(out_route(self.links@, e.node, e.port).contains(l.id));
            lemma_route_members(self.links@, e.node, e.port);
            let k2 = choose|k2: int|
                0 <= k2 < self.links@.len() && self.links@[k2].id == l.id && self.links@[k2].lhs
                    == (e.node, e.port);
            if k2 != kpos {
                assert(false);
            }
        }
        assert forall|i: int|
            0 <= i < self.inputs.entries@.len() && (
            #[trigger] self.inputs.entries@[i]).links@.contains(l.id) implies
            self.inputs.entries@[i].node == l.rhs.0 && self.inputs.entries@[i].port == l.rhs.1 by {
            self.inputs.lemma_entry_links(i);
            let e = self.inputs.entries@[i];
            assert(in_route(self.links@, e.node, e.port).contains(l.id));
            lemma_route_members(self.links@, e.node, e.port);
            let k2 = choose|k2: int|
                0 <= k2 < self.links@.len() && self.links@[k2].id == l.id && self.links@[k2].rhs
                    == (e.node, e.port);
            if k2 != kpos {
                assert(false);
            }
        }
    }

    /// What removing a link does: the link and its buffered data are gone,
    /// its identity is dropped from both routing indices, exactly the two
    /// former endpoint nodes are restarted (stopped when no incident link
    /// remains), and every other node's task and every other link — its
    /// buffered data included — are untouched.
    #[verifier::opaque]
    pub open spec fn link_removed(self, post: Graph, l: Link, k: int) -> bool {
        &&& post.links@ == self.links@.remove(k)
        &&& !post.has_link(l.id)
        &&& post.outputs.links_of(l.lhs.0, l.lhs.1) == self.outputs.links_of(
            l.lhs.0,
            l.lhs.1,
        ).remove_value(l.id)
        &&& post.inputs.links_of(l.rhs.0, l.rhs.1) == self.inputs.links_of(
            l.rhs.0,
            l.rhs.1,
        ).remove_value(l.id)
        &&& forall|n2: NodeId, p2: PortId|
            !(n2 == l.lhs.0 && p2 == l.lhs.1) ==> #[trigger] post.outputs.links_of(n2, p2)
                == self.outputs.links_of(n2, p2)
        &&& forall|n2: NodeId, p2: PortId|
            !(n2 == l.rhs.0 && p2 == l.rhs.1) ==> #[trigger] post.inputs.links_of(n2, p2)
                == self.inputs.links_of(n2, p2)
        &&& !post.outputs.lid_in(l.id)
        &&& !post.inputs.lid_in(l.id)
        &&& post.nodes@.len() == self.nodes@.len()
        &&& forall|j: int|
            0 <= j < self.nodes@.len() ==> (#[trigger] post.nodes@[j]).node
                == self.nodes@[j].node && post.nodes@[j].position == self.nodes@[j].position
        &&& forall|j: int|
            0 <= j < self.nodes@.len() && self.nodes@[j].node.id_spec() != l.lhs.0
                && self.nodes@[j].node.id_spec() != l.rhs.0
                ==> (#[trigger] post.nodes@[j]).task == self.nodes@[j].task
        &&& forall|j: int|
            0 <= j < self.nodes@.len() && (self.nodes@[j].node.id_spec() == l.lhs.0
                || self.nodes@[j].node.id_spec() == l.rhs.0) ==> ((#[trigger] post.nodes@[j]).task
                matches Some(t) ==> t >= self.task_gen)
    }

    /// Remove a link: drop it from both routing indices, discard its buffer
    /// and restart its two endpoint nodes. Removing an unknown identity
    /// leaves the graph unchanged.
    #[verifier::spinoff_prover]
    #[verifier::rlimit(100)]
    pub fn remove_link(&mut self, lid: LinkId) -> (r: bool)
        requires
            old(self).wf(),
            old(self).task_gen + 2 <= u64::MAX,
        ensures
            final(self).wf(),
            r == old(self).has_link(lid),
            !r ==> *final(self) == *old(self),
            r ==> old(self).link_removed(
                *final(self),
                old(self).links@[old(self).link_index(lid)],
                old(self).link_index(lid),
            ),
            final(self).node_gen == old(self).node_gen,
            final(self).port_gen == old(self).port_gen,
            final(self).link_gen == old(self).link_gen,
            old(self).task_gen <= final(self).task_gen <= old(self).task_gen + 2,
    {
        let ghost prev = *old(self);
        proof {
            prev.lemma_wf_basics();
            prev.lemma_wf_tasks();
        }
        let kpos = match self.find_link(lid) {
            Some(k) => k,
            None => {
                return false;
            }
        };
        let dropped = self.detach_link_at(kpos);
        let lhs = dropped.0;
        let rhs = dropped.1;
        proof {
            assert(prev.is_output_port(lhs) && prev.is_input_port(rhs)) by {
                reveal(Graph::wf_structure);
        reveal(Graph::wf_tasks);
            }
        }
        let ia = match self.find_node(lhs.0) {
            Some(i) => i,
            None => {
                proof {
                    assert(false);
                }
                0
            }
        };
        let ib = match self.find_node(rhs.0) {
            Some(i) => i,
            None => {
                proof {
                    assert(false);
                }
                0
            }
        };
        let ghost m1 = *self;
        self.restart_slot(ia);
        let ghost m2 = *self;
        proof {
            Self::lemma_incident_same(m1, m2, m2.nodes@[ib as int].node.id_spec());
            assert(m1.nodes@[ia as int].node.id_spec() == lhs.0);
            assert(m2.nodes@[ib as int].node.id_spec() == rhs.0);
        }
        self.restart_slot(ib);
        proof {
            Self::lemma_incident_same(m1, *self, lhs.0);
            Self::lemma_incident_same(m1, *self, rhs.0);
            assert(prev.task_gen == m1.task_gen);
            let cur = *self;
            let l = prev.links@[kpos as int];
            Self::lemma_structure_stable(m1, cur);
            assert(cur.wf_tasks()) by {
                Self::lemma_remove_link_tasks(prev, cur, l, kpos as int, ia as int, ib as int);
                reveal(Graph::wf_tasks);
            }
            assert(prev.link_removed(cur, l, kpos as int)) by {
                reveal(Graph::link_removed);
            }
        }
        true
    }

    /// Drop the link at this position from both routing indices and from
    /// the link list; the endpoint nodes are not yet restarted, so the task
    /// bookkeeping is the caller's to mend.
    #[verifier::spinoff_prover]
    #[verifier::rlimit(100)]
    fn detach_link_at(&mut self, kpos: usize) -> (ends: ((NodeId, PortId), (NodeId, PortId)))
        requires
            old(self).wf(),
            kpos < old(self).links@.len(),
        ensures
            ({
                let l = old(self).links@[kpos as int];
                &&& ends == (l.lhs, l.rhs)
                &&& final(self).links@ == old(self).links@.remove(kpos as int)
                &&& final(self).nodes == old(self).nodes
                &&& final(self).node_gen == old(self).node_gen
                &&& final(self).port_gen == old(self).port_gen
                &&& final(self).link_gen == old(self).link_gen
                &&& final(self).task_gen == old(self).task_gen
                &&& final(self).inputs.wf()
                &&& final(self).outputs.wf()
                &&& final(self).outputs.links_of(l.lhs.0, l.lhs.1) == old(self).outputs.links_of(
                    l.lhs.0,
                    l.lhs.1,
                ).remove_value(l.id)
                &&& final(self).inputs.links_of(l.rhs.0, l.rhs.1) == old(self).inputs.links_of(
                    l.rhs.0,
                    l.rhs.1,
                ).remove_value(l.id)
                &&& forall|n2: NodeId, p2: PortId|
                    !(n2 == l.lhs.0 && p2 == l.lhs.1) ==> #[trigger] final(self).outputs.links_of(
                        n2,
                        p2,
                    ) == old(self).outputs.links_of(n2, p2)
                &&& forall|n2: NodeId, p2: PortId|
                    !(n2 == l.rhs.0 && p2 == l.rhs.1) ==> #[trigger] final(self).inputs.links_of(
                        n2,
                        p2,
                    ) == old(self).inputs.links_of(n2, p2)
                &&& !final(self).outputs.lid_in(l.id)
                &&& !final(self).inputs.lid_in(l.id)
                &&& !final(self).has_link(l.id)
                &&& final(self).wf_structure()
            }),
    {
        let ghost prev = *old(self);
        proof {
            prev.lemma_wf_basics();
            prev.lemma_lid_only_at_keys(prev.links@[kpos as int], kpos as int);
        }
        let lhs = self.links[kpos].lhs;
        let rhs = self.links[kpos].rhs;
        let lid = self.links[kpos].id;
        self.outputs.remove(lhs.0, lhs.1, lid);
        self.inputs.remove(rhs.0, rhs.1, lid);
        let dropped = self.links.remove(kpos);
        proof {
            let cur = *self;
            prev.lemma_wf_unfold();
            lemma_routes_after_remove(
                prev.outputs,
                cur.outputs,
                prev.inputs,
                cur.inputs,
                prev.links@,
                cur.links@,
                prev.links@[kpos as int],
                kpos as int,
            );
            Self::lemma_links_survive(prev, cur, kpos as int);
            assert(!cur.has_link(lid)) by {
                if cur.has_link(lid) {
                    let k = cur.link_index(lid);
                    assert(cur.links@[k].id == lid);
                    let ko = if k < kpos as int {
                        k
                    } else {
                        k + 1
                    };
                    assert(cur.links@[k] == prev.links@[ko]);
                    assert(false);
                }
            }
            assert(cur.wf_structure()) by {
                reveal(Graph::wf_structure);
            }
        }
        (lhs, rhs)
    }

    /// The links surviving a removal keep their distinct generator-backed
    /// identities, their well-formed buffers and their registered endpoint
    /// ports.
    #[verifier::spinoff_prover]
    proof fn lemma_links_survive(prev: Graph, cur: Graph, kpos: int)
        requires
            0 <= kpos < prev.links@.len(),
            cur.links@ == prev.links@.remove(kpos),
            cur.link_gen == prev.link_gen,
            cur.nodes@.len() == prev.nodes@.len(),
            forall|j: int|
                0 <= j < prev.nodes@.len() ==> (#[trigger] cur.nodes@[j]).node
                    == prev.nodes@[j].node,
            forall|i: int, j: int|
                0 <= i < j < prev.nodes@.len() ==> prev.nodes@[i].node.id_spec()
                    != prev.nodes@[j].node.id_spec(),
            forall|k: int, m: int|
                0 <= k < m < prev.links@.len() ==> prev.links@[k].id != prev.links@[m].id,
            forall|k: int|
                0 <= k < prev.links@.len() ==> prev.link_gen.produced().contains(
                    (#[trigger] prev.links@[k]).id.0,
                ),
            forall|k: int| 0 <= k < prev.links@.len() ==> (#[trigger] prev.links@[k]).wf(),
            forall|k: int|
                0 <= k < prev.links@.len() ==> prev.is_output_port(
                    (#[trigger] prev.links@[k]).lhs,
                ) && prev.is_input_port(prev.links@[k].rhs),
        ensures
            forall|k: int, m: int|
                0 <= k < m < cur.links@.len() ==> cur.links@[k].id != cur.links@[m].id,
            forall|k: int|
                0 <= k < cur.links@.len() ==> cur.link_gen.produced().contains(
                    (#[trigger] cur.links@[k]).id.0,
                ),
            forall|k: int| 0 <= k < cur.links@.len() ==> (#[trigger] cur.links@[k]).wf(),
            forall|k: int|
                0 <= k < cur.links@.len() ==> cur.is_output_port(
                    (#[trigger] cur.links@[k]).lhs,
                ) && cur.is_input_port(cur.links@[k].rhs),
    {
        Self::lemma_same_nodes(prev, cur);
        assert forall|k: int|
            0 <= k < cur.links@.len() implies cur.is_output_port((#[trigger] cur.links@[k]).lhs)
            && cur.is_input_port(cur.links@[k].rhs) by {
            let ko = if k < kpos {
                k
            } else {
                k + 1
            };
            assert(cur.links@[k] == prev.links@[ko]);
            assert(prev.is_output_port(prev.links@[ko].lhs));
            assert(prev.is_input_port(prev.links@[ko].rhs));
        }
        assert forall|k: int, m: int|
            0 <= k < m < cur.links@.len() implies cur.links@[k].id != cur.links@[m].id by {
            let ko = if k < kpos {
                k
            } else {
                k + 1
            };
            let mo = if m < kpos {
                m
            } else {
                m + 1
            };
            assert(cur.links@[k] == prev.links@[ko] && cur.links@[m] == prev.links@[mo]);
        }
        assert forall|k: int|
            0 <= k < cur.links@.len() implies cur.link_gen.produced().contains(
            (#[trigger] cur.links@[k]).id.0) && (#[trigger] cur.links@[k]).wf() by {
            let ko = if k < kpos {
                k
            } else {
                k + 1
            };
            assert(cur.links@[k] == prev.links@[ko]);
        }
    }

    /// After removing a link, a node runs exactly when a link still touches
    /// it, and every task identity stays below the counter.
    #[verifier::spinoff_prover]
    proof fn lemma_remove_link_tasks(prev: Graph, cur: Graph, l: Link, kpos: int, ia: int, ib: int)
        requires
            cur.nodes@.len() == prev.nodes@.len(),
            forall|j: int|
                0 <= j < prev.nodes@.len() ==> (#[trigger] cur.nodes@[j]).node
                    == prev.nodes@[j].node,
            forall|i: int, j: int|
                0 <= i < j < cur.nodes@.len() ==> cur.nodes@[i].node.id_spec()
                    != cur.nodes@[j].node.id_spec(),
            0 <= ia < cur.nodes@.len(),
            0 <= ib < cur.nodes@.len(),
            cur.nodes@[ia].node.id_spec() == l.lhs.0,
            cur.nodes@[ib].node.id_spec() == l.rhs.0,
            forall|j: int|
                0 <= j < prev.nodes@.len() && j != ia && j != ib ==> (
                #[trigger] cur.nodes@[j]).task == prev.nodes@[j].task,
            cur.nodes@[ia].task matches Some(t) ==> prev.task_gen <= t < cur.task_gen,
            cur.nodes@[ib].task matches Some(t) ==> prev.task_gen <= t < cur.task_gen,
            cur.nodes@[ia].task.is_some() == cur.has_incident(l.lhs.0),
            cur.nodes@[ib].task.is_some() == cur.has_incident(l.rhs.0),
            prev.task_gen <= cur.task_gen,
            0 <= kpos < prev.links@.len(),
            prev.links@[kpos] == l,
            cur.links@ == prev.links@.remove(kpos),
            forall|i: int|
                0 <= i < prev.nodes@.len() ==> ((#[trigger] prev.nodes@[i]).task.is_some()
                    <==> prev.has_incident(prev.nodes@[i].node.id_spec())),
            forall|i: int|
                0 <= i < prev.nodes@.len() && (#[trigger] prev.nodes@[i]).task.is_some()
                    ==> prev.nodes@[i].task.unwrap() < prev.task_gen,
        ensures
            forall|i: int|
                0 <= i < cur.nodes@.len() ==> ((#[trigger] cur.nodes@[i]).task.is_some()
                    <==> cur.has_incident(cur.nodes@[i].node.id_spec())),
            forall|i: int|
                0 <= i < cur.nodes@.len() && (#[trigger] cur.nodes@[i]).task.is_some()
                    ==> cur.nodes@[i].task.unwrap() < cur.task_gen,
    {
        assert forall|j: int| 0 <= j < cur.nodes@.len() implies ((
        #[trigger] cur.nodes@[j]).task.is_some() <==> cur.has_incident(
            cur.nodes@[j].node.id_spec(),
        )) by {
            let jid = cur.nodes@[j].node.id_spec();
            if j == ia || j == ib {
            } else {
                assert(jid != l.lhs.0 && jid != l.rhs.0);
                if cur.has_incident(jid) {
                    let k = choose|k: int|
                        0 <= k < cur.links@.len() && Self::incident(cur.links@[k], jid);
                    let ko = if k < kpos {
                        k
                    } else {
                        k + 1
                    };
                    assert(cur.links@[k] == prev.links@[ko]);
                    assert(Self::incident(prev.links@[ko], jid));
                    assert(prev.has_incident(jid));
                }
                if prev.has_incident(jid) {
                    let k = choose|k: int|
                        0 <= k < prev.links@.len() && Self::incident(prev.links@[k], jid);
                    if k == kpos {
                        assert(false);
                    }
                    let kc = if k < kpos {
                        k
                    } else {
                        k - 1
                    };
                    assert(cur.links@[kc] == prev.links@[k]);
                    assert(Self::incident(cur.links@[kc], jid));
                    assert(cur.has_incident(jid));
                }
            }
        }
        assert forall|j: int|
            0 <= j < cur.nodes@.len() && (#[trigger] cur.nodes@[j]).task.is_some() implies
            cur.nodes@[j].task.unwrap() < cur.task_gen by {
            if j != ia && j != ib {
                assert(prev.nodes@[j].task.unwrap() < prev.task_gen);
            }
        }
    }

    /// An identity that is no link's is listed in neither routing index.
    pub proof fn lemma_unlinked_not_indexed(self, lid: LinkId)
        requires
            self.wf(),
            !self.has_link(lid),
        ensures
            !self.inputs.lid_in(lid),
            !self.outputs.lid_in(lid),
    {
        reveal(Graph::wf_structure);
        reveal(RoutingIndex::lid_in);
        if self.outputs.lid_in(lid) {
            let i = choose|i: int|
                0 <= i < self.outputs.entries@.len() && self.outputs.entries@[i].links@.contains(
                    lid,
                );
            self.outputs.lemma_entry_links(i);
            let e = self.outputs.entries@[i];
            assert(out_route(self.links@, e.node, e.port).contains(lid));
            lemma_route_members(self.links@, e.node, e.port);
            let k = choose|k: int|
                0 <= k < self.links@.len() && self.links@[k].id == lid && self.links@[k].lhs == (
                e.node,
                e.port,
            );
            assert(self.has_link(lid));
            assert(false);
        }
        if self.inputs.lid_in(lid) {
            let i = choose|i: int|
                0 <= i < self.inputs.entries@.len() && self.inputs.entries@[i].links@.contains(
                    lid,
                );
            self.inputs.lemma_entry_links(i);
            let e = self.inputs.entries@[i];
            assert(in_route(self.links@, e.node, e.port).contains(lid));
            lemma_route_members(self.links@, e.node, e.port);
            let k = choose|k: int|
                0 <= k < self.links@.len() && self.links@[k].id == lid && self.links@[k].rhs == (
                e.node,
                e.port,
            );
            assert(self.has_link(lid));
            assert(false);
        }
    }

    /// Dropping a node that no link touches keeps the structural half of
    /// the invariant.
    #[verifier::spinoff_prover]
    proof fn lemma_structure_after_node_removal(x: Graph, y: Graph, np: int)
        requires
            x.wf_structure(),
            0 <= np < x.nodes@.len(),
            y.nodes@ == x.nodes@.remove(np),
            y.links == x.links,
            y.inputs == x.inputs,
            y.outputs == x.outputs,
            y.node_gen == x.node_gen,
            y.port_gen == x.port_gen,
            y.link_gen == x.link_gen,
            forall|k: int|
                0 <= k < x.links@.len() ==> !Graph::incident(
                    #[trigger] x.links@[k],
                    x.nodes@[np].node.id_spec(),
                ),
        ensures
            y.wf_structure(),
    {
        reveal(Graph::wf_structure);
        assert forall|i: int, j: int|
            0 <= i < j < y.nodes@.len() implies y.nodes@[i].node.id_spec()
            != y.nodes@[j].node.id_spec() by {
            let io = if i < np {
                i
            } else {
                i + 1
            };
            let jo = if j < np {
                j
            } else {
                j + 1
            };
            assert(y.nodes@[i] == x.nodes@[io] && y.nodes@[j] == x.nodes@[jo]);
        }
        assert forall|i: int|
            0 <= i < y.nodes@.len() implies (#[trigger] y.nodes@[i]).node.wf()
            && y.node_gen.produced().contains(y.nodes@[i].node.id_spec().0) by {
            let io = if i < np {
                i
            } else {
                i + 1
            };
            assert(y.nodes@[i] == x.nodes@[io]);
        }
        assert forall|k: int|
            0 <= k < y.links@.len() implies y.is_output_port((#[trigger] y.links@[k]).lhs)
            && y.is_input_port(y.links@[k].rhs) by {
            assert(x.is_output_port(x.links@[k].lhs) && x.is_input_port(x.links@[k].rhs));
            let lend = x.links@[k].lhs;
            let rend = x.links@[k].rhs;
            let xi = x.node_index(lend.0);
            assert(x.nodes@[xi].node.id_spec() == lend.0);
            assert(xi != np);
            let yi = if xi < np {
                xi
            } else {
                xi - 1
            };
            assert(y.nodes@[yi] == x.nodes@[xi]);
            assert(y.has_node(lend.0));
            let yy = y.node_index(lend.0);
            assert(y.nodes@[yy].node.id_spec() == lend.0);
            if yy != yi {
                let yyo = if yy < np {
                    yy
                } else {
                    yy + 1
                };
                assert(x.nodes@[yyo].node.id_spec() == lend.0);
                assert(false);
            }
            let xr = x.node_index(rend.0);
            assert(x.nodes@[xr].node.id_spec() == rend.0);
            assert(xr != np);
            let yr = if xr < np {
                xr
            } else {
                xr - 1
            };
            assert(y.nodes@[yr] == x.nodes@[xr]);
            assert(y.has_node(rend.0));
            let yyr = y.node_index(rend.0);
            assert(y.nodes@[yyr].node.id_spec() == rend.0);
            if yyr != yr {
                let yyo = if yyr < np {
                    yyr
                } else {
                    yyr + 1
                };
                assert(x.nodes@[yyo].node.id_spec() == rend.0);
                assert(false);
            }
        }
    }

    /// Dropping a stopped node that no link touches keeps the scheduling
    /// half of the invariant.
    #[verifier::spinoff_prover]
    proof fn lemma_tasks_after_node_removal(x: Graph, y: Graph, np: int)
        requires
            x.wf_tasks(),
            0 <= np < x.nodes@.len(),
            y.nodes@ == x.nodes@.remove(np),
            y.links == x.links,
            y.task_gen == x.task_gen,
        ensures
            y.wf_tasks(),
    {
        reveal(Graph::wf_tasks);
        assert forall|i: int| 0 <= i < y.nodes@.len() implies ((
        #[trigger] y.nodes@[i]).task.is_some() <==> y.has_incident(
            y.nodes@[i].node.id_spec(),
        )) by {
            let io = if i < np {
                i
            } else {
                i + 1
            };
            assert(y.nodes@[i] == x.nodes@[io]);
            let jid = x.nodes@[io].node.id_spec();
            if y.has_incident(jid) {
                let k = choose|k: int|
                    0 <= k < y.links@.len() && Graph::incident(y.links@[k], jid);
                assert(Graph::incident(x.links@[k], jid));
                assert(x.has_incident(jid));
            }
            if x.has_incident(jid) {
                let k = choose|k: int|
                    0 <= k < x.links@.len() && Graph::incident(x.links@[k], jid);
                assert(Graph::incident(y.links@[k], jid));
                assert(y.has_incident(jid));
            }
        }
        assert forall|i: int|
            0 <= i < y.nodes@.len() && (#[trigger] y.nodes@[i]).task.is_some() implies
            y.nodes@[i].task.unwrap() < y.task_gen by {
            let io = if i < np {
                i
            } else {
                i + 1
            };
            assert(y.nodes@[i] == x.nodes@[io]);
        }
    }

    /// Delete a node: stop it, remove every incident link (updating both
    /// routing indices and restarting each link's other endpoint), then
    /// remove the node itself. Its identity stays used and is never handed
    /// out again. Deleting an unknown identity leaves the graph unchanged.
    #[verifier::spinoff_prover]
    #[verifier::rlimit(100)]
    pub fn delete_node(&mut self, nid: NodeId) -> (r: bool)
        requires
            old(self).wf(),
            old(self).task_gen + 2 * old(self).links@.len() <= u64::MAX,
        ensures
            final(self).wf(),
            r == old(self).has_node(nid),
            !r ==> *final(self) == *old(self),
            r ==> ({
                &&& !final(self).has_node(nid)
                &&& final(self).node_gen == old(self).node_gen
                &&& final(self).node_gen.produced().contains(nid.0)
                &&& final(self).links@ == drop_incident(old(self).links@, nid)
                &&& forall|k: int|
                    0 <= k < old(self).links@.len() && Graph::incident(
                        #[trigger] old(self).links@[k],
                        nid,
                    ) ==> !final(self).has_link(old(self).links@[k].id)
                        && !final(self).outputs.lid_in(old(self).links@[k].id)
                        && !final(self).inputs.lid_in(old(self).links@[k].id)
                &&& forall|id: NodeId|
                    id != nid && #[trigger] old(self).has_node(id) ==> final(self).has_node(id)
                        && final(self).node_at(id) == old(self).node_at(id)
                &&& forall|id: NodeId|
                    id != nid && #[trigger] old(self).has_node(id) && !old(self).is_neighbor(
                        nid,
                        id,
                    ) ==> final(self).task_of(id) == old(self).task_of(id)
            }),
    {
        let ghost g0 = *old(self);
        proof {
            g0.lemma_wf_basics();
        }
        let np0 = match self.find_node(nid) {
            Some(i) => i,
            None => {
                return false;
            }
        };
        let mut k: usize = 0;
        let ghost mut m: int = 0;
        proof {
            assert(self.links@ =~= drop_incident(g0.links@.subrange(0, 0), nid)
                + g0.links@.subrange(0, g0.links@.len() as int));
        }
        while k < self.links.len()
            invariant
                self.wf(),
                g0.wf(),
                0 <= m <= g0.links@.len(),
                self.links@ == drop_incident(g0.links@.subrange(0, m), nid) + g0.links@.subrange(
                    m,
                    g0.links@.len() as int,
                ),
                k == drop_incident(g0.links@.subrange(0, m), nid).len(),
                self.nodes@.len() == g0.nodes@.len(),
                forall|j: int|
                    0 <= j < g0.nodes@.len() ==> (#[trigger] self.nodes@[j]).node
                        == g0.nodes@[j].node && self.nodes@[j].position == g0.nodes@[j].position,
                forall|j: int|
                    0 <= j < g0.nodes@.len() ==> (#[trigger] self.nodes@[j]).task
                        == g0.nodes@[j].task || g0.nodes@[j].node.id_spec() == nid
                        || g0.is_neighbor(nid, g0.nodes@[j].node.id_spec()),
                forall|j: int|
                    0 <= j < g0.nodes@.len() && (#[trigger] self.nodes@[j]).task
                        != g0.nodes@[j].task ==> (self.nodes@[j].task matches Some(t) ==> t
                        >= g0.task_gen),
                self.node_gen == g0.node_gen,
                self.port_gen == g0.port_gen,
                self.link_gen == g0.link_gen,
                g0.task_gen <= self.task_gen,
                self.task_gen + 2 * (g0.links@.len() - m) <= u64::MAX,
            decreases g0.links@.len() - m,
        {
            proof {
                assert(g0.links@.subrange(0, m + 1) =~= g0.links@.subrange(0, m).push(
                    g0.links@[m],
                ));
                assert(g0.links@.subrange(0, m + 1).drop_last() =~= g0.links@.subrange(0, m));
                assert(self.links@[k as int] == g0.links@[m]);
            }
            let ghost pre = *self;
            let l = &self.links[k];
            if l.lhs.0.get() == nid.get() || l.rhs.0.get() == nid.get() {
                let lid = l.id;
                proof {
                    pre.lemma_wf_basics();
                    assert(pre.has_link(lid));
                    let ki = pre.link_index(lid);
                    assert(pre.links@[ki].id == lid);
                    if ki != k as int {
                        assert(false);
                    }
                }
                self.remove_link(lid);
                proof {
                    reveal(Graph::link_removed);
                    m = m + 1;
                    assert(Graph::incident(g0.links@[m - 1], nid));
                    assert(drop_incident(g0.links@.subrange(0, m), nid) =~= drop_incident(
                        g0.links@.subrange(0, m - 1),
                        nid,
                    ));
                    assert(self.links@ =~= drop_incident(g0.links@.subrange(0, m), nid)
                        + g0.links@.subrange(m, g0.links@.len() as int));
                    // the other endpoint of the removed link is a neighbour
                    assert forall|j: int|
                        0 <= j < g0.nodes@.len() implies (#[trigger] self.nodes@[j]).task
                        == g0.nodes@[j].task || g0.nodes@[j].node.id_spec() == nid
                        || g0.is_neighbor(nid, g0.nodes@[j].node.id_spec()) by {
                        let jid = g0.nodes@[j].node.id_spec();
                        if self.nodes@[j].task != pre.nodes@[j].task {
                            assert(jid == pre.links@[k as int].lhs.0 || jid == pre.links@[
                            k as int].rhs.0);
                            if jid != nid {
                                assert(Graph::incident(g0.links@[m - 1], jid));
                                assert(g0.is_neighbor(nid, jid));
                            }
                        }
                    }
                }
            } else {
                proof {
                    m = m + 1;
                    assert(drop_incident(g0.links@.subrange(0, m), nid) =~= drop_incident(
                        g0.links@.subrange(0, m - 1),
                        nid,
                    ).push(g0.links@[m - 1]));
                    assert(self.links@ == drop_incident(g0.links@.subrange(0, m), nid)
                        + g0.links@.subrange(m, g0.links@.len() as int));
                }
                k = k + 1;
            }
        }
        proof {
            assert(m == g0.links@.len()) by {
                if m < g0.links@.len() {
                    assert(self.links@.len() == k + (g0.links@.len() - m));
                    assert(false);
                }
            }
            assert(g0.links@.subrange(0, g0.links@.len() as int) =~= g0.links@);
            assert(self.links@ =~= drop_incident(g0.links@, nid));
        }
        let np = match self.find_node(nid) {
            Some(i) => i,
            None => {
                proof {
                    assert(self.nodes@[np0 as int].node.id_spec() == nid);
                    assert(false);
                }
                0
            }
        };
        let ghost before = *self;
        proof {
            // nothing touches the node any more, so it is stopped
            lemma_drop_incident_facts(g0.links@, nid);
            assert(!before.has_incident(nid)) by {
                if before.has_incident(nid) {
                    let kk = choose|kk: int|
                        0 <= kk < before.links@.len() && Graph::incident(before.links@[kk], nid);
                    assert(false);
                }
            }
        }
        self.nodes.remove(np);
        proof {
            let cur = *self;
            before.lemma_wf_basics();
            assert forall|kk: int|
                0 <= kk < before.links@.len() implies !Graph::incident(
                #[trigger] before.links@[kk],
                before.nodes@[np as int].node.id_spec(),
            ) by {
                if Graph::incident(before.links@[kk], nid) {
                    assert(false);
                }
            }
            Self::lemma_structure_after_node_removal(before, cur, np as int);
            Self::lemma_tasks_after_node_removal(before, cur, np as int);
            assert(!cur.has_node(nid)) by {
                if cur.has_node(nid) {
                    let i = cur.node_index(nid);
                    assert(cur.nodes@[i].node.id_spec() == nid);
                    let io = if i < np as int {
                        i
                    } else {
                        i + 1
                    };
                    assert(before.nodes@[io].node.id_spec() == nid);
                    if io != np as int {
                        assert(false);
                    }
                    assert(false);
                }
            }
            // the removed links are gone from the link list and both indices
            assert forall|kk: int|
                0 <= kk < g0.links@.len() && Graph::incident(
                #[trigger] g0.links@[kk],
                nid,
            ) implies !cur.has_link(g0.links@[kk].id) && !cur.outputs.lid_in(g0.links@[kk].id)
                && !cur.inputs.lid_in(g0.links@[kk].id) by {
                g0.lemma_wf_basics();
                assert(!cur.has_link(g0.links@[kk].id)) by {
                    if cur.has_link(g0.links@[kk].id) {
                        let j = cur.link_index(g0.links@[kk].id);
                        assert(cur.links@[j].id == g0.links@[kk].id);
                        assert(g0.links@.contains(cur.links@[j]));
                        let ko = choose|ko: int|
                            0 <= ko < g0.links@.len() && g0.links@[ko] == cur.links@[j];
                        if ko != kk {
                            assert(false);
                        }
                        assert(!Graph::incident(g0.links@[kk], nid));
                        assert(false);
                    }
                }
                cur.lemma_unlinked_not_indexed(g0.links@[kk].id);
            }
            // surviving nodes keep their identity, data and (unless they
            // were neighbours) their tasks
            assert forall|id: NodeId|
                id != nid && #[trigger] g0.has_node(id) implies cur.has_node(id) && cur.node_at(
                id,
            ) == g0.node_at(id) by {
                let xi = g0.node_index(id);
                assert(g0.nodes@[xi].node.id_spec() == id);
                assert(before.nodes@[xi].node.id_spec() == id);
                assert(xi != np as int);
                let yi = if xi < np as int {
                    xi
                } else {
                    xi - 1
                };
                assert(cur.nodes@[yi] == before.nodes@[xi]);
                assert(cur.has_node(id));
                let yy = cur.node_index(id);
                assert(cur.nodes@[yy].node.id_spec() == id);
                if yy != yi {
                    let yyo = if yy < np as int {
                        yy
                    } else {
                        yy + 1
                    };
                    assert(before.nodes@[yyo].node.id_spec() == id);
                    assert(false);
                }
            }
            assert forall|id: NodeId|
                id != nid && #[trigger] g0.has_node(id) && !g0.is_neighbor(nid, id) implies
                cur.task_of(id) == g0.task_of(id) by {
                let xi = g0.node_index(id);
                assert(g0.nodes@[xi].node.id_spec() == id);
                assert(xi != np as int);
                assert(before.nodes@[xi].task == g0.nodes@[xi].task);
                let yi = if xi < np as int {
                    xi
                } else {
                    xi - 1
                };
                assert(cur.nodes@[yi] == before.nodes@[xi]);
                let yy = cur.node_index(id);
                assert(cur.nodes@[yy].node.id_spec() == id);
                if yy != yi {
                    let yyo = if yy < np as int {
                        yy
                    } else {
                        yy + 1
                    };
                    assert(before.nodes@[yyo].node.id_spec() == id);
                    assert(false);
                }
                assert(g0.task_of(id) == g0.nodes@[xi].task);
            }
        }
        true
    }

    /// The ordered fan-in link lists of a node: for each input port
    /// ordinal, the links feeding that port, straight from the input
    /// routing index. This is what a restart hands the node's new task.
    pub fn compute_inputs_for(&self, nid: NodeId) -> (r: Vec<Vec<LinkId>>)
        requires
            self.wf(),
            self.has_node(nid),
        ensures
            r@.len() == self.node_at(nid).input_count(),
            forall|i: int|
                0 <= i < r@.len() ==> (#[trigger] r@[i])@ == self.inputs.links_of(
                    nid,
                    self.node_at(nid).inputs_spec().ids_seq()[i],
                ),
    {
        proof {
            self.lemma_wf_basics();
        }
        let np = match self.find_node(nid) {
            Some(i) => i,
            None => {
                proof {
                    assert(false);
                }
                0
            }
        };
        let node = &self.nodes[np].node;
        let regs = node.inputs();
        proof {
            regs.lemma_registry_facts();
        }
        let mut r: Vec<Vec<LinkId>> = Vec::new();
        let mut i: usize = 0;
        let count = regs.len();
        while i < count
            invariant
                self.wf(),
                self.has_node(nid),
                np < self.nodes@.len(),
                self.node_index(nid) == np,
                self.nodes@[np as int].node.id_spec() == nid,
                *regs == self.node_at(nid).inputs_spec(),
                self.inputs.wf(),
                count == regs.port_count(),
                regs.wf(),
                i <= count,
                r@.len() == i,
                forall|j: int|
                    0 <= j < i ==> (#[trigger] r@[j])@ == self.inputs.links_of(
                        nid,
                        regs.ids_seq()[j],
                    ),
            decreases count - i,
        {
            let pid = regs.id_at(i);
            r.push(self.inputs.get_links(nid, pid));
            i = i + 1;
        }
        r
    }

    /// The ordered fan-out link lists of a node: for each output port
    /// ordinal, the links that port feeds, straight from the output routing
    /// index.
    pub fn compute_outputs_for(&self, nid: NodeId) -> (r: Vec<Vec<LinkId>>)
        requires
            self.wf(),
            self.has_node(nid),
        ensures
            r@.len() == self.node_at(nid).output_count(),
            forall|i: int|
                0 <= i < r@.len() ==> (#[trigger] r@[i])@ == self.outputs.links_of(
                    nid,
                    self.node_at(nid).outputs_spec().ids_seq()[i],
                ),
    {
        proof {
            self.lemma_wf_basics();
        }
        let np = match self.find_node(nid) {
            Some(i) => i,
            None => {
                proof {
                    assert(false);
                }
                0
            }
        };
        let node = &self.nodes[np].node;
        let regs = node.outputs();
        proof {
            regs.lemma_registry_facts();
        }
        let mut r: Vec<Vec<LinkId>> = Vec::new();
        let mut i: usize = 0;
        let count = regs.len();
        while i < count
            invariant
                self.wf(),
                self.has_node(nid),
                np < self.nodes@.len(),
                self.node_index(nid) == np,
                self.nodes@[np as int].node.id_spec() == nid,
                *regs == self.node_at(nid).outputs_spec(),
                self.outputs.wf(),
                count == regs.port_count(),
                regs.wf(),
                i <= count,
                r@.len() == i,
                forall|j: int|
                    0 <= j < i ==> (#[trigger] r@[j])@ == self.outputs.links_of(
                        nid,
                        regs.ids_seq()[j],
                    ),
            decreases count - i,
        {
            let pid = regs.id_at(i);
            r.push(self.outputs.get_links(nid, pid));
            i = i + 1;
        }
        r
    }

    /// Create a node of the given kind with a fresh identity; it starts
    /// stopped, with no incident links.
    #[verifier::spinoff_prover]
    #[verifier::rlimit(100)]
    pub fn add_node(&mut self, kind: NodeKind) -> (nid: NodeId)
        requires
            old(self).wf(),
            old(self).node_gen.can_generate(),
            old(self).port_gen.next() + 3 <= u64::MAX,
        ensures
            final(self).wf(),
            !old(self).has_node(nid),
            nid.0 == old(self).node_gen.next(),
            final(self).has_node(nid),
            final(self).node_at(nid).kind_spec() == kind,
            final(self).node_at(nid).id_spec() == nid,
            final(self).task_of(nid).is_none(),
            final(self).nodes@.len() == old(self).nodes@.len() + 1,
            forall|j: int|
                0 <= j < old(self).nodes@.len() ==> final(self).nodes@[j] == old(self).nodes@[j],
            final(self).links == old(self).links,
            final(self).inputs == old(self).inputs,
            final(self).outputs == old(self).outputs,
            final(self).task_gen == old(self).task_gen,
            final(self).node_gen.next() == old(self).node_gen.next() + 1,
            final(self).node_gen.produced().contains(nid.0),
            final(self).port_gen.next() <= old(self).port_gen.next() + 3,
            final(self).link_gen == old(self).link_gen,
    {
        proof {
            old(self).lemma_wf_basics();
        }
        let id = NodeId::generate(&mut self.node_gen);
        let node = Nodes::new(kind, id, &mut self.port_gen);
        self.nodes.push(NodeSlot { node, position: (100, 100), task: None });
        proof {
            let prev = *old(self);
            let cur = *self;
            prev.lemma_wf_unfold();
            let n = cur.nodes@.len() - 1;
            // the fresh identity differs from every present one
            assert forall|i: int| 0 <= i < n implies (#[trigger] cur.nodes@[i]).node.id_spec()
                != id by {
                assert(prev.node_gen.produced().contains(prev.nodes@[i].node.id_spec().0));
            }
            // no link touches the fresh identity
            assert forall|k: int| 0 <= k < cur.links@.len() implies !Self::incident(
                #[trigger] cur.links@[k],
                id,
            ) by {
                assert(prev.is_output_port(prev.links@[k].lhs) && prev.is_input_port(
                    prev.links@[k].rhs,
                ));
                let li = prev.node_index(prev.links@[k].lhs.0);
                assert(prev.nodes@[li].node.id_spec() == prev.links@[k].lhs.0);
                assert(prev.node_gen.produced().contains(prev.nodes@[li].node.id_spec().0));
                let ri = prev.node_index(prev.links@[k].rhs.0);
                assert(prev.nodes@[ri].node.id_spec() == prev.links@[k].rhs.0);
                assert(prev.node_gen.produced().contains(prev.nodes@[ri].node.id_spec().0));
            }
            // lookups of the old nodes are unchanged by the append
            assert forall|k: int|
                0 <= k < cur.links@.len() implies cur.is_output_port(
                (#[trigger] cur.links@[k]).lhs) && cur.is_input_port(cur.links@[k].rhs) by {
                let lend = prev.links@[k].lhs;
                let rend = prev.links@[k].rhs;
                assert(prev.is_output_port(lend) && prev.is_input_port(rend));
                let li = prev.node_index(lend.0);
                assert(prev.nodes@[li].node.id_spec() == lend.0);
                assert(cur.nodes@[li].node.id_spec() == lend.0);
                assert(cur.has_node(lend.0));
                let ci = cur.node_index(lend.0);
                assert(cur.nodes@[ci].node.id_spec() == lend.0);
                if ci != li {
                    if ci == n || li == n {
                        assert(false);
                    }
                    assert(prev.nodes@[ci].node.id_spec() == lend.0);
                    assert(false);
                }
                let ri = prev.node_index(rend.0);
                assert(prev.nodes@[ri].node.id_spec() == rend.0);
                assert(cur.nodes@[ri].node.id_spec() == rend.0);
                assert(cur.has_node(rend.0));
                let cri = cur.node_index(rend.0);
                assert(cur.nodes@[cri].node.id_spec() == rend.0);
                if cri != ri {
                    if cri == n || ri == n {
                        assert(false);
                    }
                    assert(prev.nodes@[cri].node.id_spec() == rend.0);
                    assert(false);
                }
            }
            assert(cur.wf_structure()) by {
                reveal(Graph::wf_structure);
                assert forall|n2: NodeId, p2: PortId| #[trigger] cur.outputs.links_of(n2, p2)
                    == out_route(cur.links@, n2, p2) by {
                    assert(prev.outputs.links_of(n2, p2) == out_route(prev.links@, n2, p2));
                }
                assert forall|n2: NodeId, p2: PortId| #[trigger] cur.inputs.links_of(n2, p2)
                    == in_route(cur.links@, n2, p2) by {
                    assert(prev.inputs.links_of(n2, p2) == in_route(prev.links@, n2, p2));
                }
            }
            assert(cur.wf_tasks()) by {
                reveal(Graph::wf_tasks);
                assert forall|i: int| 0 <= i < cur.nodes@.len() implies ((
                #[trigger] cur.nodes@[i]).task.is_some() <==> cur.has_incident(
                    cur.nodes@[i].node.id_spec(),
                )) by {
                    if i < n {
                        Self::lemma_incident_same(prev, cur, cur.nodes@[i].node.id_spec());
                    } else {
                        if cur.has_incident(id) {
                            let k = choose|k: int|
                                0 <= k < cur.links@.len() && Self::incident(cur.links@[k], id);
                            assert(false);
                        }
                    }
                }
            }
            cur.lemma_node_at(n);
        }
        id
    }

    /// Flush every link: release each buffer's whole backlog on behalf of
    /// its consumer, discarding buffered latency in one step. Used with the
    /// device catch-up counters when the user asks for a resync.
    #[verifier::spinoff_prover]
    #[verifier::rlimit(100)]
    pub fn resync_links(&mut self)
        requires
            old(self).wf(),
        ensures
            final(self).wf(),
            final(self).links@.len() == old(self).links@.len(),
            forall|k: int|
                0 <= k < old(self).links@.len() ==> (#[trigger] final(self).links@[k]).id == old(self).links@[k].id && final(self).links@[k].lhs == old(self).links@[k].lhs && final(self).links@[k].rhs == old(self).links@[k].rhs,
            forall|k: int|
                0 <= k < old(self).links@.len() ==> (#[trigger] final(self).links@[k]).buffer
                    .history() == old(self).links@[k].buffer.history() && final(self).links@[k].buffer.avail_of(0) == 0,
            final(self).nodes == old(self).nodes,
            final(self).inputs == old(self).inputs,
            final(self).outputs == old(self).outputs,
            final(self).node_gen == old(self).node_gen,
            final(self).port_gen == old(self).port_gen,
            final(self).link_gen == old(self).link_gen,
            final(self).task_gen == old(self).task_gen,
    {
        let ghost prev = *old(self);
        proof {
            prev.lemma_wf_basics();
        }
        let mut k: usize = 0;
        while k < self.links.len()
            invariant
                self.links@.len() == prev.links@.len(),
                k <= self.links@.len(),
                forall|j: int|
                    k <= j < prev.links@.len() ==> #[trigger] self.links@[j] == prev.links@[j],
                forall|j: int|
                    0 <= j < prev.links@.len() ==> (#[trigger] self.links@[j]).id
                        == prev.links@[j].id && self.links@[j].lhs == prev.links@[j].lhs
                        && self.links@[j].rhs == prev.links@[j].rhs,
                forall|j: int|
                    0 <= j < k ==> (#[trigger] self.links@[j]).wf() && self.links@[j].buffer
                        .history() == prev.links@[j].buffer.history()
                        && self.links@[j].buffer.avail_of(0) == 0 && self.links@[j].buffer
                        .capacity() == prev.links@[j].buffer.capacity(),
                forall|j: int| 0 <= j < prev.links@.len() ==> (#[trigger] prev.links@[j]).wf(),
                self.nodes == prev.nodes,
                self.inputs == prev.inputs,
                self.outputs == prev.outputs,
                self.node_gen == prev.node_gen,
                self.port_gen == prev.port_gen,
                self.link_gen == prev.link_gen,
                self.task_gen == prev.task_gen,
            decreases self.links@.len() - k,
        {
            let l = &mut self.links[k];
            let backlog = l.buffer.readable(0);
            l.buffer.release(0, backlog);
            k = k + 1;
        }
        proof {
            let cur = *self;
            prev.lemma_wf_unfold();
            assert(cur.wf_structure()) by {
                reveal(Graph::wf_structure);
                assert forall|n2: NodeId, p2: PortId| #[trigger] cur.outputs.links_of(n2, p2)
                    == out_route(cur.links@, n2, p2) by {
                    lemma_routes_ignore_buffers(prev.links@, cur.links@, n2, p2);
                }
                assert forall|n2: NodeId, p2: PortId| #[trigger] cur.inputs.links_of(n2, p2)
                    == in_route(cur.links@, n2, p2) by {
                    lemma_routes_ignore_buffers(prev.links@, cur.links@, n2, p2);
                }
                assert forall|j: int|
                    0 <= j < cur.links@.len() implies cur.is_output_port(
                    (#[trigger] cur.links@[j]).lhs) && cur.is_input_port(cur.links@[j].rhs) by {
                    assert(prev.is_output_port(prev.links@[j].lhs) && prev.is_input_port(
                        prev.links@[j].rhs,
                    ));
                }
            }
            assert(cur.wf_tasks()) by {
                reveal(Graph::wf_tasks);
                assert forall|i: int| 0 <= i < cur.nodes@.len() implies ((
                #[trigger] cur.nodes@[i]).task.is_some() <==> cur.has_incident(
                    cur.nodes@[i].node.id_spec(),
                )) by {
                    let jid = cur.nodes@[i].node.id_spec();
                    if cur.has_incident(jid) {
                        let kk = choose|kk: int|
                            0 <= kk < cur.links@.len() && Self::incident(cur.links@[kk], jid);
                        assert(Self::incident(prev.links@[kk], jid));
                        assert(prev.has_incident(jid));
                    }
                    if prev.has_incident(jid) {
                        let kk = choose|kk: int|
                            0 <= kk < prev.links@.len() && Self::incident(prev.links@[kk], jid);
                        assert(Self::incident(cur.links@[kk], jid));
                        assert(cur.has_incident(jid));
                    }
                }
            }
        }
    }

    /// Persist the whole graph: every node with its position and
    /// configuration, and every link's endpoints.
    pub fn save_config(&self) -> (r: GraphConfig)
        requires
            self.wf(),
        ensures
            r.nodes@.len() == self.nodes@.len(),
            forall|i: int|
                0 <= i < self.nodes@.len() ==> (#[trigger] r.nodes@[i]).id
                    == self.nodes@[i].node.id_spec().0 && r.nodes@[i].position
                    == self.nodes@[i].position && cfg_view(r.nodes@[i].cfg)
                    == self.nodes@[i].node.save_view(),
            r.links@.len() == self.links@.len(),
            forall|k: int|
                0 <= k < self.links@.len() ==> (#[trigger] r.links@[k]).lhs == (
                    self.links@[k].lhs.0.0,
                    self.links@[k].lhs.1.0,
                ) && r.links@[k].rhs == (self.links@[k].rhs.0.0, self.links@[k].rhs.1.0),
    {
        proof {
            self.lemma_wf_basics();
        }
        let mut nodes: Vec<NodeRecord> = Vec::new();
        let mut i: usize = 0;
        while i < self.nodes.len()
            invariant
                forall|j: int|
                    0 <= j < self.nodes@.len() ==> (#[trigger] self.nodes@[j]).node.wf(),
                i <= self.nodes@.len(),
                nodes@.len() == i,
                forall|j: int|
                    0 <= j < i ==> (#[trigger] nodes@[j]).id == self.nodes@[j].node.id_spec().0
                        && nodes@[j].position == self.nodes@[j].position && cfg_view(
                        nodes@[j].cfg,
                    ) == self.nodes@[j].node.save_view(),
            decreases self.nodes@.len() - i,
        {
            let slot = &self.nodes[i];
            nodes.push(
                NodeRecord {
                    id: slot.node.id().get(),
                    position: slot.position,
                    cfg: slot.node.save(),
                },
            );
            i = i + 1;
        }
        let mut links: Vec<LinkRecord> = Vec::new();
        let mut k: usize = 0;
        while k < self.links.len()
            invariant
                k <= self.links@.len(),
                links@.len() == k,
                forall|j: int|
                    0 <= j < k ==> (#[trigger] links@[j]).lhs == (
                        self.links@[j].lhs.0.0,
                        self.links@[j].lhs.1.0,
                    ) && links@[j].rhs == (self.links@[j].rhs.0.0, self.links@[j].rhs.1.0),
            decreases self.links@.len() - k,
        {
            let l = &self.links[k];
            links.push(
                LinkRecord {
                    lhs: (l.lhs.0.get(), l.lhs.1.get()),
                    rhs: (l.rhs.0.get(), l.rhs.1.get()),
                },
            );
            k = k + 1;
        }
        GraphConfig { nodes, links }
    }
}

} // verus!
