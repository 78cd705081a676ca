//! Bookkeeping of the physics world that does not touch geometry: joint
//! handles and the registry of joints, and lookup of the contact between two
//! bodies.

use vstd::prelude::*;

verus! {

/// Handle of a joint, issued by a `JointRegistry`.
#[derive(Debug, Clone, Copy, PartialEq, Eq, Structural, Hash)]
pub struct JointHandle(pub u32);

/// Identity of a rigid body: its slot index and the generation of that slot.
#[derive(Debug, Clone, Copy, PartialEq, Eq, Structural, Hash)]
pub struct BodyId {
    pub index: u32,
    pub generation: u32,
}

/// The joints of a world, each under the handle issued when it was added.
/// Handles count up from 1 and are never issued twice.
pub struct JointRegistry<J> {
    entries: Vec<(JointHandle, J)>,
    next_id: u32,
}

impl<J> JointRegistry<J> {
    /// Well-formedness: handles are issued in increasing order and all lie
    /// below the next one to issue, which is at least 1.
    pub closed spec fn wf(&self) -> bool {
        &&& self.next_id >= 1
        &&& forall|i: int|
            0 <= i < self.entries@.len() ==> 1 <= (#[trigger] self.entries@[i]).0.0 < self.next_id
        &&& forall|i: int, j: int|
            0 <= i < j < self.entries@.len() ==> (#[trigger] self.entries@[i]).0.0 < (
            #[trigger] self.entries@[j]).0.0
    }

    /// Handles of the registered joints, in the order they were added.
    pub closed spec fn handles(&self) -> Seq<JointHandle> {
        self.entries@.map_values(|e: (JointHandle, J)| e.0)
    }

    /// The registered joints, in the order they were added.
    pub closed spec fn instances(&self) -> Seq<J> {
        self.entries@.map_values(|e: (JointHandle, J)| e.1)
    }

    /// The number the next handle will carry.
    pub closed spec fn next_number(&self) -> u32 {
        self.next_id
    }

    /// An empty registry; the first handle it issues is 1.
    pub fn new() -> (r: Self)
        ensures
            r.wf(),
            r.handles() == Seq::<JointHandle>::empty(),
            r.instances() == Seq::<J>::empty(),
            r.next_number() == 1,
    {
        let r = JointRegistry { entries: Vec::new(), next_id: 1 };
        assert(r.handles() =~= Seq::<JointHandle>::empty());
        assert(r.instances() =~= Seq::<J>::empty());
        r
    }

    /// The handle the next `add` will issue.
    pub fn next_handle(&self) -> (h: JointHandle)
        ensures
            h.0 == self.next_number(),
    {
        JointHandle(self.next_id)
    }

    /// Whether another handle can be issued.
    pub fn can_add(&self) -> (b: bool)
        ensures
            b == (self.next_number() < u32::MAX),
    {
        self.next_id < u32::MAX
    }

    /// Records `instance` under a fresh handle and returns that handle.
    pub fn add(&mut self, instance: J) -> (h: JointHandle)
        requires
            old(self).wf(),
            old(self).next_number() < u32::MAX,
        ensures
            final(self).wf(),
            h.0 == old(self).next_number(),
            final(self).next_number() == old(self).next_number() + 1,
            final(self).handles() == old(self).handles().push(h),
            final(self).instances() == old(self).instances().push(instance),
            !old(self).handles().contains(h),
    {
        let h = JointHandle(self.next_id);
        let ghost old_entries = self.entries@;
        let ghost added = instance;
        self.entries.push((h, instance));
        self.next_id = self.next_id + 1;
        proof {
            assert(self.handles() =~= old(self).handles().push(h));
            assert(self.instances() =~= old(self).instances().push(added));
            if old(self).handles().contains(h) {
                let k = choose|k: int| 0 <= k < old(self).handles().len() && old(self).handles()[k] == h;
                assert(old_entries[k].0 == h);
            }
            assert forall|i: int, j: int|
                0 <= i < j < self.entries@.len() implies (#[trigger] self.entries@[i]).0.0 < (
                #[trigger] self.entries@[j]).0.0 by {
                if j == old_entries.len() {
                    assert(self.entries@[i] == old_entries[i]);
                } else {
                    assert(self.entries@[i] == old_entries[i]);
                    assert(self.entries@[j] == old_entries[j]);
                }
            }
            assert forall|i: int| 0 <= i < self.entries@.len() implies 1 <= (
            #[trigger] self.entries@[i]).0.0 < self.next_id by {
                if i < old_entries.len() {
                    assert(self.entries@[i] == old_entries[i]);
                }
            }
        }
        h
    }

    /// Number of registered joints.
    pub fn len(&self) -> (n: usize)
        ensures
            n == self.handles().len(),
    {
        self.entries.len()
    }

    /// The handle and joint added `i`-th.
    pub fn entry_at(&self, i: usize) -> (e: (JointHandle, &J))
        requires
            i < self.handles().len(),
        ensures
            e.0 == self.handles()[i as int],
            *e.1 == self.instances()[i as int],
    {
        (self.entries[i].0, &self.entries[i].1)
    }
}

/// Every handle a registry has issued is distinct from every other, and
/// below the number of the next one.
pub proof fn law_handles_unique<J>(reg: &JointRegistry<J>)
    requires
        reg.wf(),
    ensures
        forall|a: int, b: int|
            0 <= a < reg.handles().len() && 0 <= b < reg.handles().len() && a != b
                ==> #[trigger] reg.handles()[a] != #[trigger] reg.handles()[b],
        forall|a: int| 0 <= a < reg.handles().len() ==> (#[trigger] reg.handles()[a]).0 < reg.next_number(),
{
    assert forall|a: int, b: int|
        0 <= a < reg.handles().len() && 0 <= b < reg.handles().len() && a != b
            implies #[trigger] reg.handles()[a] != #[trigger] reg.handles()[b] by {
        if a < b {
            assert(reg.entries@[a].0.0 < reg.entries@[b].0.0);
        } else {
            assert(reg.entries@[b].0.0 < reg.entries@[a].0.0);
        }
    }
    assert forall|a: int| 0 <= a < reg.handles().len() implies (#[trigger] reg.handles()[a]).0 < reg.next_number() by {
        assert(reg.entries@[a].0.0 < reg.next_id);
    }
}

/// The contact pair `p` joins bodies `a` and `b`, in either order.
pub open spec fn joins(p: (BodyId, BodyId), a: BodyId, b: BodyId) -> bool {
    (p.0 == a && p.1 == b) || (p.0 == b && p.1 == a)
}

/// Index of the first contact, in `pairs` order, between bodies `a` and `b`
/// (in either order).
pub fn contact_index_between(pairs: &Vec<(BodyId, BodyId)>, a: BodyId, b: BodyId) -> (r: Option<usize>)
    ensures
        match r {
            Some(i) => i < pairs@.len() && joins(pairs@[i as int], a, b) && forall|j: int|
                0 <= j < i ==> !joins(#[trigger] pairs@[j], a, b),
            None => forall|j: int| 0 <= j < pairs@.len() ==> !joins(#[trigger] pairs@[j], a, b),
        },
{
    let mut i: usize = 0;
    while i < pairs.len()
        invariant
            i <= pairs@.len(),
            forall|j: int| 0 <= j < i ==> !joins(#[trigger] pairs@[j], a, b),
        decreases pairs@.len() - i,
    {
        let p = pairs[i];
        if (p.0 == a && p.1 == b) || (p.0 == b && p.1 == a) {
            return Some(i);
        }
        i = i + 1;
    }
    None
}

/// Which pair joins two bodies does not depend on the order the two are
/// named in, so the contact found between `a` and `b` is the one found
/// between `b` and `a`.
pub proof fn law_contact_lookup_symmetric(pairs: Seq<(BodyId, BodyId)>, a: BodyId, b: BodyId)
    ensures
        forall|j: int| 0 <= j < pairs.len() ==> joins(#[trigger] pairs[j], a, b) == joins(pairs[j], b, a),
{
}

} // verus!
