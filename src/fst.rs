use vstd::prelude::*;
use crate::arc::{Arc, StateId};

verus! {

/// One state of a `VectorFst`: its optional final weight and its outgoing arcs.
#[derive(Clone, Debug)]
pub struct FstState<W> {
    pub final_weight: Option<W>,
    pub arcs: Vec<Arc<W>>,
}

/// A transducer stored as a vector of states.
#[derive(Clone, Debug)]
pub struct VectorFst<W> {
    pub start: Option<StateId>,
    pub states: Vec<FstState<W>>,
}

impl<W: Copy> VectorFst<W> {
    pub open spec fn spec_num_states(&self) -> nat {
        self.states@.len()
    }

    /// The arcs leaving `s`; a state that does not exist has none.
    pub open spec fn spec_arcs(&self, s: int) -> Seq<Arc<W>> {
        if 0 <= s < self.states@.len() {
            self.states@[s].arcs@
        } else {
            Seq::empty()
        }
    }

    /// The final weight of `s`; a state that does not exist is not final.
    pub open spec fn spec_final(&self, s: int) -> Option<W> {
        if 0 <= s < self.states@.len() {
            self.states@[s].final_weight
        } else {
            None
        }
    }

    /// The start state and every arc's destination exist.
    pub open spec fn wf(&self) -> bool {
        &&& (self.start matches Some(s) ==> s < self.states@.len())
        &&& forall|s: int, i: int|
            0 <= s < self.states@.len() && 0 <= i < self.states@[s].arcs@.len()
                ==> #[trigger] self.states@[s].arcs@[i].nextstate < self.states@.len()
    }

    pub fn new() -> (r: VectorFst<W>)
        ensures
            r.start.is_none(),
            r.spec_num_states() == 0,
            r.wf(),
    {
        VectorFst { start: None, states: Vec::new() }
    }

    /// Adds a non-final state without arcs and returns its id.
    pub fn add_state(&mut self) -> (r: StateId)
        ensures
            r == old(self).spec_num_states(),
            final(self).start == old(self).start,
            final(self).states@ == old(self).states@.push(
                FstState { final_weight: None, arcs: final(self).states@[r as int].arcs },
            ),
            final(self).states@[r as int].arcs@.len() == 0,
            old(self).wf() ==> final(self).wf(),
            forall|t: int| t != r ==> #[trigger] final(self).spec_arcs(t) == old(self).spec_arcs(t),
            forall|t: int| t != r ==> #[trigger] final(self).spec_final(t) == old(self).spec_final(t),
            final(self).spec_arcs(r as int).len() == 0,
            final(self).spec_final(r as int).is_none(),
    {
        let r = self.states.len();
        self.states.push(FstState { final_weight: None, arcs: Vec::new() });
        r
    }

    pub fn set_start(&mut self, s: StateId)
        ensures
            final(self).start == Some(s),
            final(self).states == old(self).states,
    {
        self.start = Some(s);
    }

    pub fn set_final(&mut self, s: StateId, w: W)
        requires
            s < old(self).spec_num_states(),
        ensures
            final(self).start == old(self).start,
            final(self).states@ == old(self).states@.update(
                s as int,
                FstState { final_weight: Some(w), arcs: final(self).states@[s as int].arcs },
            ),
            final(self).states@[s as int].arcs@ == old(self).states@[s as int].arcs@,
            old(self).wf() ==> final(self).wf(),
            forall|t: int| #[trigger] final(self).spec_arcs(t) == old(self).spec_arcs(t),
            forall|t: int| t != s ==> #[trigger] final(self).spec_final(t) == old(self).spec_final(t),
            final(self).spec_final(s as int) == Some(w),
    {
        let mut st = self.states.remove(s);
        st.final_weight = Some(w);
        self.states.insert(s, st);
        proof {
            assert(final(self).states@ =~= old(self).states@.update(
                s as int,
                FstState { final_weight: Some(w), arcs: self.states@[s as int].arcs },
            ));
        }
    }

    /// Appends `arc` to the arcs leaving `s`.
    pub fn add_arc(&mut self, s: StateId, arc: Arc<W>)
        requires
            s < old(self).spec_num_states(),
        ensures
            final(self).start == old(self).start,
            final(self).spec_num_states() == old(self).spec_num_states(),
            forall|t: int| t != s ==> final(self).spec_arcs(t) == old(self).spec_arcs(t),
            forall|t: int| #[trigger] final(self).spec_final(t) == old(self).spec_final(t),
            final(self).spec_arcs(s as int) == old(self).spec_arcs(s as int).push(arc),
            old(self).wf() && arc.nextstate < old(self).spec_num_states() ==> final(self).wf(),
    {
        let mut st = self.states.remove(s);
        st.arcs.push(arc);
        self.states.insert(s, st);
        proof {
            let o = old(self).states@;
            let n = self.states@;
            assert forall|t: int| 0 <= t < n.len() && t != s implies n[t] == o[t] by {}
            if o.len() > 0 && old(self).wf() && arc.nextstate < o.len() {
                assert forall|q: int, i: int|
                    0 <= q < n.len() && 0 <= i < n[q].arcs@.len()
                        implies #[trigger] n[q].arcs@[i].nextstate < n.len() by {
                    if q != s {
                        assert(n[q] == o[q]);
                        assert(o[q].arcs@[i].nextstate < o.len());
                    } else if i < o[q].arcs@.len() {
                        assert(n[q].arcs@[i] == o[q].arcs@[i]);
                        assert(o[q].arcs@[i].nextstate < o.len());
                    }
                }
            }
        }
    }

    pub fn start(&self) -> (r: Option<StateId>)
        ensures
            r == self.start,
    {
        self.start
    }

    pub fn num_states(&self) -> (r: usize)
        ensures
            r == self.spec_num_states(),
    {
        self.states.len()
    }

    pub fn num_arcs(&self, s: StateId) -> (r: usize)
        ensures
            r == self.spec_arcs(s as int).len(),
    {
        if s < self.states.len() {
            self.states[s].arcs.len()
        } else {
            0
        }
    }

    pub fn final_weight(&self, s: StateId) -> (r: Option<W>)
        ensures
            r == self.spec_final(s as int),
    {
        if s < self.states.len() {
            self.states[s].final_weight
        } else {
            None
        }
    }

    /// The `i`-th arc leaving `s`.
    pub fn arc(&self, s: StateId, i: usize) -> (r: Arc<W>)
        requires
            i < self.spec_arcs(s as int).len(),
        ensures
            r == self.spec_arcs(s as int)[i as int],
    {
        self.states[s].arcs[i]
    }
}

} // verus!
