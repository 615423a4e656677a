use vstd::prelude::*;

verus! {

/// One transform slot per drawable instance, addressed by index. The slots are
/// the CPU side of a GPU buffer: each `upload` is followed by a write of that one
/// slot, and a change of capacity by a rebuild of the buffer and its bind groups.
pub struct TransformUniformPool<M> {
    slots: Vec<M>,
}

impl<M: Copy> TransformUniformPool<M> {
    pub closed spec fn view(&self) -> Seq<M> {
        self.slots@
    }

    /// A pool with no slots.
    pub fn new() -> (p: Self)
        ensures
            p.view() == Seq::<M>::empty(),
    {
        TransformUniformPool { slots: Vec::new() }
    }

    pub fn capacity(&self) -> (n: usize)
        ensures
            n == self.view().len(),
    {
        self.slots.len()
    }

    /// Makes room for `n` instances. When `n` differs from the capacity, the pool
    /// is rebuilt with `n` slots that all hold `fill`, and `true` says that the GPU
    /// side must be rebuilt too; otherwise nothing changes.
    pub fn ensure_capacity(&mut self, n: usize, fill: M) -> (rebuilt: bool)
        ensures
            rebuilt == (n != old(self).view().len()),
            rebuilt ==> final(self).view() == Seq::new(n as nat, |i: int| fill),
            !rebuilt ==> final(self).view() == old(self).view(),
    {
        if n == self.slots.len() {
            return false;
        }
        let mut slots: Vec<M> = Vec::new();
        let mut i: usize = 0;
        while i < n
            invariant
                i <= n,
                slots@ == Seq::new(i as nat, |k: int| fill),
            decreases n - i,
        {
            slots.push(fill);
            i = i + 1;
            assert(slots@ =~= Seq::new(i as nat, |k: int| fill));
        }
        self.slots = slots;
        true
    }

    /// Writes one instance's transform into slot `index`.
    pub fn upload(&mut self, index: usize, m: M)
        requires
            index < old(self).view().len(),
        ensures
            final(self).view() == old(self).view().update(index as int, m),
    {
        self.slots.set(index, m);
    }

    /// Writes every live instance's transform into its stable slot: quad `i` into
    /// slot `i`, then triangle `j` into slot `quads.len() + j`. Slots after them
    /// keep what they held.
    pub fn upload_instances(&mut self, quads: &Vec<M>, tris: &Vec<M>)
        requires
            quads@.len() + tris@.len() <= old(self).view().len(),
        ensures
            final(self).view().len() == old(self).view().len(),
            forall|i: int| 0 <= i < quads@.len() ==> #[trigger] final(self).view()[quad_slot(i)] == quads@[i],
            forall|j: int| 0 <= j < tris@.len() ==> #[trigger] final(self).view()[triangle_slot(quads@.len() as int, j)]
                == tris@[j],
            forall|k: int| quads@.len() + tris@.len() <= k < old(self).view().len() ==> #[trigger] final(self).view()[k]
                == old(self).view()[k],
    {
        let nq = quads.len();
        let cap = self.capacity();
        let mut i: usize = 0;
        while i < nq
            invariant
                nq == quads@.len(),
                i <= nq,
                nq + tris@.len() <= old(self).view().len(),
                self.view().len() == old(self).view().len(),
                forall|k: int| 0 <= k < i ==> #[trigger] self.view()[k] == quads@[k],
                forall|k: int| i <= k < old(self).view().len() ==> #[trigger] self.view()[k] == old(self).view()[k],
            decreases nq - i,
        {
            self.upload(i, quads[i]);
            i = i + 1;
        }
        let mut j: usize = 0;
        while j < tris.len()
            invariant
                nq == quads@.len(),
                j <= tris@.len(),
                nq + tris@.len() <= old(self).view().len(),
                cap == old(self).view().len(),
                self.view().len() == old(self).view().len(),
                forall|k: int| 0 <= k < nq ==> #[trigger] self.view()[k] == quads@[k],
                forall|k: int| 0 <= k < j ==> #[trigger] self.view()[nq + k] == tris@[k],
                forall|k: int| nq + j <= k < old(self).view().len() ==> #[trigger] self.view()[k] == old(self).view()[k],
            decreases tris@.len() - j,
        {
            self.upload(nq + j, tris[j]);
            j = j + 1;
        }
    }

    /// The transform in slot `index`.
    pub fn get(&self, index: usize) -> (m: M)
        requires
            index < self.view().len(),
        ensures
            m == self.view()[index as int],
    {
        self.slots[index]
    }
}

/// Slots do not alias: after writing `a` to slot `i` and then `b` to a different
/// slot `j`, slot `i` still holds `a`, slot `j` holds `b`, and every other slot
/// is as it was.
pub proof fn lemma_slots_independent<M>(s: Seq<M>, i: int, j: int, a: M, b: M)
    requires
        0 <= i < s.len(),
        0 <= j < s.len(),
        i != j,
    ensures
        s.update(i, a).update(j, b)[i] == a,
        s.update(i, a).update(j, b)[j] == b,
        forall|k: int| 0 <= k < s.len() && k != i && k != j ==> #[trigger] s.update(i, a).update(j, b)[k] == s[k],
{
}

/// The slot of the `i`-th quad: quads come first.
pub open spec fn quad_slot(i: int) -> int {
    i
}

/// The slot of the `i`-th triangle: triangles follow the quads.
pub open spec fn triangle_slot(n_quads: int, i: int) -> int {
    n_quads + i
}

} // verus!
