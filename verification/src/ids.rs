//! Typed identities for nodes, ports, links and devices, and the generator
//! that keeps them unique within one process run.

use vstd::prelude::*;

verus! {

/// Identity of a node in the graph.
#[derive(Clone, Copy, PartialEq, Eq, Hash, Debug, Structural)]
pub struct NodeId(pub u64);

/// Identity of a port on a node.
#[derive(Clone, Copy, PartialEq, Eq, Hash, Debug, Structural)]
pub struct PortId(pub u64);

/// Identity of a link between two ports.
#[derive(Clone, Copy, PartialEq, Eq, Hash, Debug, Structural)]
pub struct LinkId(pub u64);

/// Identity of an open audio device.
#[derive(Clone, Copy, PartialEq, Eq, Hash, Debug, Structural)]
pub struct DeviceId(pub u64);

/// A monotonically increasing counter handing out raw identity values.
///
/// Freshly generated values never repeat an earlier one, and `restore`
/// raises the counter past a persisted value so that later generated
/// identities cannot collide with restored ones.
pub struct IdGen {
    next: u64,
    produced: Ghost<Set<u64>>,
}

impl IdGen {
    /// Every value handed out so far lies strictly below the counter.
    pub closed spec fn wf(self) -> bool {
        forall|v: u64| self.produced@.contains(v) ==> v < self.next
    }

    /// The set of values handed out (generated or restored) so far.
    pub closed spec fn produced(self) -> Set<u64> {
        self.produced@
    }

    /// The next value the generator would hand out.
    pub closed spec fn next(self) -> u64 {
        self.next
    }

    /// Room is left in the identity space.
    pub open spec fn can_generate(self) -> bool {
        self.next() < u64::MAX
    }

    pub fn new() -> (r: IdGen)
        ensures
            r.wf(),
            r.next() == 0,
            r.produced() == Set::<u64>::empty(),
    {
        IdGen { next: 0, produced: Ghost(Set::empty()) }
    }

    /// Hand out a fresh value, never seen before from this generator.
    pub fn generate(&mut self) -> (v: u64)
        requires
            old(self).wf(),
            old(self).can_generate(),
        ensures
            final(self).wf(),
            v == old(self).next(),
            !old(self).produced().contains(v),
            final(self).next() == old(self).next() + 1,
            final(self).produced() == old(self).produced().insert(v),
    {
        let v = self.next;
        self.next = self.next + 1;
        proof {
            self.produced@ = self.produced@.insert(v);
        }
        v
    }

    /// Mark a persisted value as taken and raise the counter past it, so
    /// that freshly generated values never collide with it.
    pub fn restore(&mut self, v: u64) -> (r: u64)
        requires
            old(self).wf(),
            v < u64::MAX,
        ensures
            final(self).wf(),
            r == v,
            final(self).next() == if old(self).next() >= v + 1 {
                old(self).next()
            } else {
                (v + 1) as u64
            },
            final(self).next() >= old(self).next(),
            final(self).produced() == old(self).produced().insert(v),
    {
        if self.next < v + 1 {
            self.next = v + 1;
        }
        proof {
            self.produced@ = self.produced@.insert(v);
        }
        v
    }
}

impl NodeId {
    pub fn new(v: u64) -> (r: NodeId)
        ensures
            r.0 == v,
    {
        NodeId(v)
    }

    pub fn get(&self) -> (v: u64)
        ensures
            v == self.0,
    {
        self.0
    }

    /// A fresh node identity from the given generator.
    pub fn generate(gen: &mut IdGen) -> (r: NodeId)
        requires
            old(gen).wf(),
            old(gen).can_generate(),
        ensures
            final(gen).wf(),
            r.0 == old(gen).next(),
            !old(gen).produced().contains(r.0),
            final(gen).next() == old(gen).next() + 1,
            final(gen).produced() == old(gen).produced().insert(r.0),
    {
        NodeId(gen.generate())
    }

    /// A node identity read back from persisted state; the generator is
    /// raised past it.
    pub fn restore(gen: &mut IdGen, v: u64) -> (r: NodeId)
        requires
            old(gen).wf(),
            v < u64::MAX,
        ensures
            final(gen).wf(),
            r.0 == v,
            final(gen).next() >= old(gen).next(),
            final(gen).next() > v,
            final(gen).produced() == old(gen).produced().insert(v),
    {
        NodeId(gen.restore(v))
    }
}

impl PortId {
    pub fn new(v: u64) -> (r: PortId)
        ensures
            r.0 == v,
    {
        PortId(v)
    }

    pub fn get(&self) -> (v: u64)
        ensures
            v == self.0,
    {
        self.0
    }

    /// A fresh port identity from the given generator.
    pub fn generate(gen: &mut IdGen) -> (r: PortId)
        requires
            old(gen).wf(),
            old(gen).can_generate(),
        ensures
            final(gen).wf(),
            r.0 == old(gen).next(),
            !old(gen).produced().contains(r.0),
            final(gen).next() == old(gen).next() + 1,
            final(gen).produced() == old(gen).produced().insert(r.0),
    {
        PortId(gen.generate())
    }

    /// A port identity read back from persisted state; the generator is
    /// raised past it.
    pub fn restore(gen: &mut IdGen, v: u64) -> (r: PortId)
        requires
            old(gen).wf(),
            v < u64::MAX,
        ensures
            final(gen).wf(),
            r.0 == v,
            final(gen).next() >= old(gen).next(),
            final(gen).next() > v,
            final(gen).produced() == old(gen).produced().insert(v),
    {
        PortId(gen.restore(v))
    }
}

impl LinkId {
    pub fn new(v: u64) -> (r: LinkId)
        ensures
            r.0 == v,
    {
        LinkId(v)
    }

    pub fn get(&self) -> (v: u64)
        ensures
            v == self.0,
    {
        self.0
    }

    /// A fresh link identity from the given generator.
    pub fn generate(gen: &mut IdGen) -> (r: LinkId)
        requires
            old(gen).wf(),
            old(gen).can_generate(),
        ensures
            final(gen).wf(),
            r.0 == old(gen).next(),
            !old(gen).produced().contains(r.0),
            final(gen).next() == old(gen).next() + 1,
            final(gen).produced() == old(gen).produced().insert(r.0),
    {
        LinkId(gen.generate())
    }
}

impl DeviceId {
    pub fn new(v: u64) -> (r: DeviceId)
        ensures
            r.0 == v,
    {
        DeviceId(v)
    }

    pub fn get(&self) -> (v: u64)
        ensures
            v == self.0,
    {
        self.0
    }

    /// A fresh device identity from the given generator.
    pub fn generate(gen: &mut IdGen) -> (r: DeviceId)
        requires
            old(gen).wf(),
            old(gen).can_generate(),
        ensures
            final(gen).wf(),
            r.0 == old(gen).next(),
            !old(gen).produced().contains(r.0),
            final(gen).next() == old(gen).next() + 1,
            final(gen).produced() == old(gen).produced().insert(r.0),
    {
        DeviceId(gen.generate())
    }
}

} // verus!
