use vstd::prelude::*;
use crate::arc::StateId;
use crate::fst::VectorFst;

verus! {

/// A final state and its final weight.
#[derive(Clone, Copy, PartialEq, Eq, Debug)]
pub struct FinalState<W> {
    pub state_id: StateId,
    pub final_weight: W,
}

/// Walks the final states of an automaton in increasing order.
pub struct StructFinalStatesIterator<'f, W> {
    pub fst: &'f VectorFst<W>,
    /// The next state to look at.
    pub it: usize,
}

impl<'f, W: Copy> StructFinalStatesIterator<'f, W> {
    pub fn new(fst: &'f VectorFst<W>) -> (r: StructFinalStatesIterator<'f, W>)
        ensures
            r.fst == fst,
            r.it == 0,
    {
        StructFinalStatesIterator { fst, it: 0 }
    }

    /// The first final state from `it` on, if any; `it` moves past it.
    pub fn next(&mut self) -> (r: Option<FinalState<W>>)
        ensures
            final(self).fst == old(self).fst,
            forall|s: int|
                old(self).it <= s < (match r {
                    Some(f) => f.state_id as int,
                    None => old(self).fst.spec_num_states() as int,
                }) ==> (#[trigger] old(self).fst.spec_final(s)).is_none(),
            match r {
                Some(f) => old(self).it <= f.state_id && old(self).fst.spec_final(f.state_id as int)
                    == Some(f.final_weight) && final(self).it == f.state_id + 1,
                None => final(self).it >= old(self).fst.spec_num_states() && final(self).it
                    >= old(self).it,
            },
    {
        let n = self.fst.num_states();
        let start = self.it;
        while self.it < n
            invariant
                self.fst == old(self).fst,
                n == self.fst.spec_num_states(),
                start == old(self).it,
                start <= self.it,
                forall|s: int| start <= s < self.it ==> (#[trigger] self.fst.spec_final(s)).is_none(),
            decreases n - self.it,
        {
            let s = self.it;
            self.it = self.it + 1;
            match self.fst.final_weight(s) {
                Some(w) => {
                    return Some(FinalState { state_id: s, final_weight: w });
                },
                None => {},
            }
        }
        None
    }
}

/// Automata whose final states can be walked.
pub trait FinalStatesIterator<'f, W> {
    fn final_states_iter(&'f self) -> StructFinalStatesIterator<'f, W>;
}

impl<'f, W: Copy> FinalStatesIterator<'f, W> for VectorFst<W> {
    fn final_states_iter(&'f self) -> (r: StructFinalStatesIterator<'f, W>)
    {
        StructFinalStatesIterator::new(self)
    }
}

} // verus!
