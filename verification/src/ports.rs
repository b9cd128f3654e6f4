//! Per-node port registry: a bidirectional mapping between stable port names
//! and generated port identities, with a stable ordinal index.
//!
//! The execution loop addresses buffer-handle arrays positionally, so each
//! port also carries the ordinal at which it was registered. Names are unique
//! within one registry; a removed port's identity is remembered as deleted
//! rather than reused mid-run.

use crate::ids::{IdGen, PortId};
use vstd::prelude::*;

verus! {

/// The registry of one direction (inputs or outputs) of one node.
pub struct PortStorageInner {
    /// Port names, in registration order; position is the ordinal.
    names: Vec<String>,
    /// Port identities, parallel to `names`.
    ids: Vec<PortId>,
    /// Identities of ports that were removed; never reused mid-run.
    deleted: Vec<PortId>,
}

impl PortStorageInner {
    /// The registered names, in ordinal order.
    pub closed spec fn names_seq(self) -> Seq<Seq<char>> {
        self.names@.map_values(|s: String| s@)
    }

    /// The registered identities, in ordinal order.
    pub closed spec fn ids_seq(self) -> Seq<PortId> {
        self.ids@
    }

    /// The identities of removed ports.
    pub closed spec fn deleted_seq(self) -> Seq<PortId> {
        self.deleted@
    }

    /// How many ports are registered.
    pub open spec fn port_count(self) -> int {
        self.ids_seq().len() as int
    }

    /// Whether a port with this name is registered.
    pub open spec fn contains_name(self, name: Seq<char>) -> bool {
        exists|i: int| 0 <= i < self.port_count() && self.names_seq()[i] == name
    }

    /// Whether a port with this identity is registered.
    pub open spec fn contains_id(self, id: PortId) -> bool {
        exists|i: int| 0 <= i < self.port_count() && self.ids_seq()[i] == id
    }

    /// The ordinal of the port with this name.
    pub open spec fn ordinal_of_name(self, name: Seq<char>) -> int {
        choose|i: int| 0 <= i < self.port_count() && self.names_seq()[i] == name
    }

    /// The ordinal of the port with this identity.
    pub open spec fn ordinal_of_id(self, id: PortId) -> int {
        choose|i: int| 0 <= i < self.port_count() && self.ids_seq()[i] == id
    }

    /// Names and identities are parallel and free of duplicates, and no
    /// registered identity is also recorded as deleted.
    pub closed spec fn wf(self) -> bool {
        &&& self.names@.len() == self.ids@.len()
        &&& forall|i: int, j: int|
            0 <= i < j < self.names@.len() ==> self.names_seq()[i] != self.names_seq()[j]
        &&& forall|i: int, j: int|
            0 <= i < j < self.ids@.len() ==> self.ids_seq()[i] != self.ids_seq()[j]
        &&& forall|i: int, j: int|
            0 <= i < self.ids@.len() && 0 <= j < self.deleted@.len() ==> self.ids_seq()[i]
                != self.deleted_seq()[j]
    }

    /// Every identity this registry holds was produced by a generator whose
    /// produced set is `s`; keeping this is what lets `add` hand out an
    /// identity distinct from every present one.
    pub open spec fn ids_from(self, s: Set<u64>) -> bool {
        &&& forall|i: int|
            0 <= i < self.port_count() ==> s.contains(#[trigger] self.ids_seq()[i].0)
        &&& forall|i: int|
            0 <= i < self.deleted_seq().len() ==> s.contains(#[trigger] self.deleted_seq()[i].0)
    }

    /// In a well-formed registry the names and the identities are each
    /// pairwise distinct, so a port's ordinal agrees whether it is looked
    /// up by name or by identity.
    pub proof fn lemma_registry_facts(self)
        requires
            self.wf(),
        ensures
            forall|i: int, j: int|
                0 <= i < j < self.port_count() ==> self.ids_seq()[i] != self.ids_seq()[j],
            forall|i: int, j: int|
                0 <= i < j < self.port_count() ==> self.names_seq()[i] != self.names_seq()[j],
            self.names_seq().len() == self.port_count(),
    {
    }

    /// An empty registry.
    pub fn empty() -> (r: PortStorageInner)
        ensures
            r.wf(),
            r.port_count() == 0,
            r.names_seq() == Seq::<Seq<char>>::empty(),
            r.ids_seq() == Seq::<PortId>::empty(),
            r.deleted_seq().len() == 0,
            forall|s: Set<u64>| #[trigger] r.ids_from(s),
    {
        let r = PortStorageInner { names: Vec::new(), ids: Vec::new(), deleted: Vec::new() };
        proof {
            assert(r.names_seq() =~= Seq::<Seq<char>>::empty());
        }
        r
    }

    /// Build a registry from restored name/identity pairs, in the given
    /// order; ordinals are assigned by position.
    pub fn new(ports: Vec<(String, PortId)>) -> (r: PortStorageInner)
        requires
            forall|i: int, j: int|
                0 <= i < j < ports@.len() ==> ports@[i].0@ != ports@[j].0@,
            forall|i: int, j: int|
                0 <= i < j < ports@.len() ==> ports@[i].1 != ports@[j].1,
        ensures
            r.wf(),
            r.port_count() == ports@.len(),
            r.names_seq().len() == ports@.len(),
            forall|i: int|
                0 <= i < ports@.len() ==> #[trigger] r.names_seq()[i] == ports@[i].0@,
            forall|i: int| 0 <= i < ports@.len() ==> #[trigger] r.ids_seq()[i] == ports@[i].1,
            r.deleted_seq().len() == 0,
    {
        let mut names: Vec<String> = Vec::new();
        let mut ids: Vec<PortId> = Vec::new();
        let mut i: usize = 0;
        while i < ports.len()
            invariant
                i <= ports@.len(),
                names@.len() == i,
                ids@.len() == i,
                forall|j: int| 0 <= j < i ==> #[trigger] names@[j]@ == ports@[j].0@,
                forall|j: int| 0 <= j < i ==> #[trigger] ids@[j] == ports@[j].1,
            decreases ports@.len() - i,
        {
            let entry = &ports[i];
            names.push(entry.0.clone());
            ids.push(entry.1);
            i = i + 1;
        }
        let r = PortStorageInner { names, ids, deleted: Vec::new() };
        proof {
            assert(forall|j: int|
                0 <= j < ports@.len() ==> #[trigger] r.names_seq()[j] == ports@[j].0@);
        }
        r
    }

    /// Register a fresh port under the given name and return its identity.
    /// The name must not be taken; the registry keeps names unique.
    pub fn add(&mut self, gen: &mut IdGen, name: String) -> (id: PortId)
        requires
            old(self).wf(),
            old(gen).wf(),
            old(gen).can_generate(),
            !old(self).contains_name(name@),
            old(self).ids_from(old(gen).produced()),
        ensures
            final(self).wf(),
            final(gen).wf(),
            final(self).port_count() == old(self).port_count() + 1,
            final(self).names_seq() == old(self).names_seq().push(name@),
            final(self).ids_seq() == old(self).ids_seq().push(id),
            final(self).deleted_seq() == old(self).deleted_seq(),
            id.0 == old(gen).next(),
            final(gen).next() == old(gen).next() + 1,
            final(gen).produced() == old(gen).produced().insert(id.0),
            final(self).ids_from(final(gen).produced()),
            final(self).contains_name(name@),
    {
        let id = PortId::generate(gen);
        self.names.push(name);
        self.ids.push(id);
        proof {
            let prev = old(self);
            let n = self.names@.len() as int;
            let pushed = self.names@[n - 1]@;
            assert(self.names_seq() =~= prev.names_seq().push(pushed));
            assert(self.names_seq()[n - 1] == pushed);
            // The new name was free, so names stay duplicate-free.
            assert(forall|i: int| 0 <= i < prev.port_count() ==> prev.names_seq()[i] != pushed);
            // The generated identity is fresh, so identities stay
            // duplicate-free and disjoint from the deleted ones.
            assert forall|i: int| 0 <= i < prev.port_count() implies #[trigger] prev.ids_seq()[i]
                != id by {
                assert(prev.ids_from(old(gen).produced()));
                assert(old(gen).produced().contains(prev.ids_seq()[i].0));
            }
            assert forall|i: int|
                0 <= i < prev.deleted_seq().len() implies #[trigger] prev.deleted_seq()[i]
                != id by {
                assert(old(gen).produced().contains(prev.deleted_seq()[i].0));
            }
            assert(self.contains_name(pushed)) by {
                assert(0 <= n - 1 < self.port_count() && self.names_seq()[n - 1] == pushed);
            }
            assert forall|i: int| 0 <= i < self.port_count() implies final(gen).produced()
                .contains(#[trigger] self.ids_seq()[i].0) by {
                if i < n - 1 {
                    assert(old(gen).produced().contains(prev.ids_seq()[i].0));
                }
            }
            assert forall|i: int|
                0 <= i < self.deleted_seq().len() implies final(gen).produced().contains(
                #[trigger] self.deleted_seq()[i].0) by {
                assert(old(gen).produced().contains(prev.deleted_seq()[i].0));
            }
        }
        id
    }

    /// The identity of the named port, if one is registered.
    pub fn get_id(&self, name: &String) -> (r: Option<PortId>)
        requires
            self.wf(),
        ensures
            match r {
                Some(id) => self.contains_name(name@) && exists|i: int|
                    0 <= i < self.port_count() && self.names_seq()[i] == name@
                        && #[trigger] self.ids_seq()[i] == id,
                None => !self.contains_name(name@),
            },
    {
        let mut i: usize = 0;
        while i < self.names.len()
            invariant
                self.wf(),
                i <= self.names@.len(),
                forall|j: int| 0 <= j < i ==> #[trigger] self.names_seq()[j] != name@,
            decreases self.names@.len() - i,
        {
            if self.names[i] == *name {
                proof {
                    assert(0 <= (i as int) && (i as int) < self.port_count()
                        && self.names_seq()[i as int] == name@ && self.ids_seq()[i as int]
                        == self.ids@[i as int]);
                }
                return Some(self.ids[i]);
            }
            i = i + 1;
        }
        None
    }

    /// The ordinal of the named port, if one is registered.
    pub fn get_idx(&self, name: &String) -> (r: Option<usize>)
        requires
            self.wf(),
        ensures
            match r {
                Some(i) => 0 <= i < self.port_count() && self.names_seq()[i as int] == name@,
                None => !self.contains_name(name@),
            },
    {
        let mut i: usize = 0;
        while i < self.names.len()
            invariant
                self.wf(),
                i <= self.names@.len(),
                forall|j: int| 0 <= j < i ==> #[trigger] self.names_seq()[j] != name@,
            decreases self.names@.len() - i,
        {
            if self.names[i] == *name {
                return Some(i);
            }
            i = i + 1;
        }
        None
    }

    /// The ordinal of the port with the given identity, if registered.
    pub fn get_portid_idx(&self, id: PortId) -> (r: Option<usize>)
        requires
            self.wf(),
        ensures
            match r {
                Some(i) => 0 <= i < self.port_count() && self.ids_seq()[i as int] == id,
                None => !self.contains_id(id),
            },
    {
        let mut i: usize = 0;
        while i < self.ids.len()
            invariant
                self.wf(),
                i <= self.ids@.len(),
                forall|j: int| 0 <= j < i ==> #[trigger] self.ids_seq()[j] != id,
            decreases self.ids@.len() - i,
        {
            if self.ids[i].get() == id.get() {
                return Some(i);
            }
            i = i + 1;
        }
        None
    }

    /// All name/identity pairs, in ordinal order; this is what is persisted
    /// so that links can be re-resolved after a restore.
    pub fn get_all(&self) -> (r: Vec<(String, PortId)>)
        requires
            self.wf(),
        ensures
            r@.len() == self.port_count(),
            forall|i: int|
                0 <= i < self.port_count() ==> #[trigger] r@[i].0@ == self.names_seq()[i]
                    && r@[i].1 == self.ids_seq()[i],
    {
        let mut r: Vec<(String, PortId)> = Vec::new();
        let mut i: usize = 0;
        while i < self.names.len()
            invariant
                self.wf(),
                i <= self.names@.len(),
                r@.len() == i,
                forall|j: int|
                    0 <= j < i ==> #[trigger] r@[j].0@ == self.names_seq()[j] && r@[j].1
                        == self.ids_seq()[j],
            decreases self.names@.len() - i,
        {
            r.push((self.names[i].clone(), self.ids[i]));
            i = i + 1;
        }
        r
    }

    /// Each registered identity with its ordinal, in ordinal order.
    pub fn get_idxs(&self) -> (r: Vec<(PortId, usize)>)
        requires
            self.wf(),
        ensures
            r@.len() == self.port_count(),
            forall|i: int|
                0 <= i < self.port_count() ==> #[trigger] r@[i].0 == self.ids_seq()[i]
                    && r@[i].1 == i,
    {
        let mut r: Vec<(PortId, usize)> = Vec::new();
        let mut i: usize = 0;
        while i < self.ids.len()
            invariant
                self.wf(),
                i <= self.ids@.len(),
                r@.len() == i,
                forall|j: int|
                    0 <= j < i ==> #[trigger] r@[j].0 == self.ids_seq()[j] && r@[j].1 == j,
            decreases self.ids@.len() - i,
        {
            r.push((self.ids[i], i));
            i = i + 1;
        }
        r
    }

    /// How many ports are registered.
    pub fn len(&self) -> (n: usize)
        ensures
            n == self.port_count(),
    {
        self.ids.len()
    }

    /// The name of the port at the given ordinal.
    pub fn name_at(&self, i: usize) -> (r: &String)
        requires
            self.wf(),
            i < self.port_count(),
        ensures
            r@ == self.names_seq()[i as int],
    {
        &self.names[i]
    }

    /// The identity of the port at the given ordinal.
    pub fn id_at(&self, i: usize) -> (r: PortId)
        requires
            self.wf(),
            i < self.port_count(),
        ensures
            r == self.ids_seq()[i as int],
    {
        self.ids[i]
    }
}

/// What `char::to_uppercase` yields for a character: its full Unicode
/// uppercase mapping, possibly several characters long. A function of the
/// character alone.
pub uninterp spec fn upper_of(c: char) -> Seq<char>;

/// Relies on char::to_uppercase: the Unicode uppercase mapping of a
/// character, which depends on the character alone.
#[verifier::external_body]
fn uppercase_char(c: char) -> (r: String)
    ensures
        r@ == upper_of(c),
{
    c.to_uppercase().collect::<String>()
}

/// A string with its first character uppercased (full Unicode mapping,
/// possibly lengthening the string) and the rest unchanged.
pub open spec fn capitalize_spec(s: Seq<char>) -> Seq<char> {
    if s.len() == 0 {
        s
    } else {
        upper_of(s[0]) + s.subrange(1, s.len() as int)
    }
}

/// Capitalise the first character of a label.
pub fn capitalize(s: String) -> (r: String)
    ensures
        r@ == capitalize_spec(s@),
{
    let n = s.as_str().unicode_len();
    if n == 0 {
        return String::new();
    }
    let c = s.as_str().get_char(0);
    let rest = s.as_str().substring_char(1, n);
    let mut out = uppercase_char(c);
    out.append(rest);
    proof {
        assert(out@ =~= capitalize_spec(s@));
    }
    out
}

} // verus!
