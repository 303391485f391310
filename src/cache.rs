use vstd::prelude::*;
use crate::arc::{Arc, StateId};

verus! {

/// Copies a vector of arcs.
pub fn copy_arcs<W: Copy>(v: &Vec<Arc<W>>) -> (r: Vec<Arc<W>>)
    ensures
        r@ == v@,
{
    let mut r: Vec<Arc<W>> = Vec::new();
    let mut i: usize = 0;
    while i < v.len()
        invariant
            i <= v@.len(),
            r@ == v@.take(i as int),
        decreases v@.len() - i,
    {
        r.push(v[i]);
        i = i + 1;
        proof {
            assert(r@ =~= v@.take(i as int));
        }
    }
    proof {
        assert(v@.take(v@.len() as int) =~= v@);
    }
    r
}

/// Per state id, the outgoing arcs and the final weight once computed.
#[derive(Clone, Debug)]
pub struct CacheImpl<W> {
    pub arcs: Vec<Option<Vec<Arc<W>>>>,
    pub finals: Vec<Option<Option<W>>>,
}

impl<W: Copy> CacheImpl<W> {
    pub open spec fn spec_arcs(&self, id: int) -> Option<Seq<Arc<W>>> {
        if 0 <= id < self.arcs@.len() {
            match self.arcs@[id] {
                Some(v) => Some(v@),
                None => None,
            }
        } else {
            None
        }
    }

    pub open spec fn spec_final(&self, id: int) -> Option<Option<W>> {
        if 0 <= id < self.finals@.len() {
            self.finals@[id]
        } else {
            None
        }
    }

    pub fn new() -> (r: CacheImpl<W>)
        ensures
            forall|id: int| #[trigger] r.spec_arcs(id).is_none(),
            forall|id: int| #[trigger] r.spec_final(id).is_none(),
    {
        CacheImpl { arcs: Vec::new(), finals: Vec::new() }
    }

    pub fn get_arcs(&self, id: StateId) -> (r: Option<Vec<Arc<W>>>)
        ensures
            match r {
                Some(v) => self.spec_arcs(id as int) == Some(v@),
                None => self.spec_arcs(id as int).is_none(),
            },
    {
        if id < self.arcs.len() {
            match &self.arcs[id] {
                Some(v) => Some(copy_arcs(v)),
                None => None,
            }
        } else {
            None
        }
    }

    pub fn set_arcs(&mut self, id: StateId, v: Vec<Arc<W>>)
        ensures
            final(self).spec_arcs(id as int) == Some(v@),
            forall|j: int| j != id ==> #[trigger] final(self).spec_arcs(j) == old(self).spec_arcs(j),
            forall|j: int| #[trigger] final(self).spec_final(j) == old(self).spec_final(j),
    {
        let ghost v0 = self.arcs@;
        while self.arcs.len() <= id
            invariant
                self.finals == old(self).finals,
                self.arcs@.len() >= v0.len(),
                v0 == old(self).arcs@,
                forall|j: int| 0 <= j < v0.len() ==> #[trigger] self.arcs@[j] == v0[j],
                forall|j: int| v0.len() <= j < self.arcs@.len() ==> #[trigger] self.arcs@[j].is_none(),
            decreases id + 1 - self.arcs@.len(),
        {
            self.arcs.push(None);
        }
        let ghost before = self.arcs@;
        self.arcs.remove(id);
        self.arcs.insert(id, Some(v));
        proof {
            assert(self.arcs@ =~= before.update(id as int, Some(v)));
            assert forall|j: int| j != id implies #[trigger] self.spec_arcs(j) == old(self).spec_arcs(j) by {
                if 0 <= j < v0.len() {
                    assert(self.arcs@[j] == before[j]);
                    assert(before[j] == v0[j]);
                } else if v0.len() <= j < self.arcs@.len() {
                    assert(self.arcs@[j] == before[j]);
                    assert(before[j].is_none());
                }
            }
        }
    }

    pub fn get_final(&self, id: StateId) -> (r: Option<Option<W>>)
        ensures
            r == self.spec_final(id as int),
    {
        if id < self.finals.len() {
            self.finals[id]
        } else {
            None
        }
    }

    pub fn set_final(&mut self, id: StateId, w: Option<W>)
        ensures
            final(self).spec_final(id as int) == Some(w),
            forall|j: int| j != id ==> #[trigger] final(self).spec_final(j) == old(self).spec_final(j),
            forall|j: int| #[trigger] final(self).spec_arcs(j) == old(self).spec_arcs(j),
    {
        let ghost v0 = self.finals@;
        while self.finals.len() <= id
            invariant
                self.arcs == old(self).arcs,
                self.finals@.len() >= v0.len(),
                v0 == old(self).finals@,
                forall|j: int| 0 <= j < v0.len() ==> #[trigger] self.finals@[j] == v0[j],
                forall|j: int| v0.len() <= j < self.finals@.len() ==> #[trigger] self.finals@[j].is_none(),
            decreases id + 1 - self.finals@.len(),
        {
            self.finals.push(None);
        }
        let ghost before = self.finals@;
        self.finals.remove(id);
        self.finals.insert(id, Some(w));
        proof {
            assert(self.finals@ =~= before.update(id as int, Some(w)));
        }
    }
}

} // verus!
