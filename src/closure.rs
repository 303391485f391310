use vstd::prelude::*;
use crate::arc::{Arc, StateId, EPS_LABEL};
use crate::fst::VectorFst;
use crate::semiring::Semiring;

verus! {

/// The arcs of state `s` after `closure_plus`: an epsilon arc back to the
/// start, weighted by `s`'s final weight, is appended to each final state.
pub open spec fn spec_plus_arcs<W: Semiring>(fst: VectorFst<W>, s: int) -> Seq<Arc<W>> {
    match (fst.start, fst.spec_final(s)) {
        (Some(st), Some(w)) => fst.spec_arcs(s).push(
            Arc { ilabel: EPS_LABEL, olabel: EPS_LABEL, weight: w, nextstate: st },
        ),
        _ => fst.spec_arcs(s),
    }
}

/// The transitive closure: after a final state, the automaton may start
/// over, carrying that state's final weight.
pub fn closure_plus<W: Semiring>(fst: &mut VectorFst<W>)
    ensures
        final(fst).start == old(fst).start,
        final(fst).spec_num_states() == old(fst).spec_num_states(),
        forall|s: int| #[trigger] final(fst).spec_final(s) == old(fst).spec_final(s),
        forall|s: int|
            0 <= s < old(fst).spec_num_states() ==> #[trigger] final(fst).spec_arcs(s) == spec_plus_arcs(
                *old(fst),
                s,
            ),
        old(fst).wf() ==> final(fst).wf(),
{
    let start = match fst.start() {
        Some(st) => st,
        None => {
            return;
        },
    };
    let n = fst.num_states();
    let mut s: usize = 0;
    while s < n
        invariant
            n == old(fst).spec_num_states(),
            fst.spec_num_states() == n,
            fst.start == old(fst).start,
            old(fst).start == Some(start),
            s <= n,
            forall|t: int| #[trigger] fst.spec_final(t) == old(fst).spec_final(t),
            forall|t: int| 0 <= t < s ==> #[trigger] fst.spec_arcs(t) == spec_plus_arcs(*old(fst), t),
            forall|t: int| s <= t < n ==> #[trigger] fst.spec_arcs(t) == old(fst).spec_arcs(t),
            old(fst).wf() ==> fst.wf(),
        decreases n - s,
    {
        match fst.final_weight(s) {
            Some(w) => {
                fst.add_arc(s, Arc::new(EPS_LABEL, EPS_LABEL, w, start));
            },
            None => {},
        }
        s = s + 1;
    }
}

/// The Kleene closure: `closure_plus`, then a new start state that is final
/// with weight one and has an epsilon arc of weight one to the old start.
/// Without a start state only `closure_plus` applies.
pub fn closure_star<W: Semiring>(fst: &mut VectorFst<W>)
    ensures
        ({
            let n = old(fst).spec_num_states();
            &&& forall|s: int| 0 <= s < n ==> #[trigger] final(fst).spec_arcs(s) == spec_plus_arcs(*old(fst), s)
            &&& forall|s: int| 0 <= s < n ==> #[trigger] final(fst).spec_final(s) == old(fst).spec_final(s)
            &&& match old(fst).start {
                Some(st) => {
                    &&& final(fst).spec_num_states() == n + 1
                    &&& final(fst).start == Some(n as usize)
                    &&& final(fst).spec_final(n as int) == Some(W::spec_one())
                    &&& final(fst).spec_arcs(n as int) == seq![
                        Arc { ilabel: EPS_LABEL, olabel: EPS_LABEL, weight: W::spec_one(), nextstate: st },
                    ]
                },
                None => final(fst).spec_num_states() == n && final(fst).start.is_none(),
            }
        }),
        old(fst).wf() ==> final(fst).wf(),
{
    closure_plus(fst);
    let ghost f0 = *fst;
    match fst.start() {
        Some(start) => {
            let one = W::one();
            let new_start: StateId = fst.add_state();
            fst.set_start(new_start);
            fst.set_final(new_start, one);
            fst.add_arc(new_start, Arc::new(EPS_LABEL, EPS_LABEL, one, start));
            proof {
                assert forall|t: int| 0 <= t < new_start implies #[trigger] fst.spec_arcs(t) == spec_plus_arcs(*old(fst), t) by {
                    assert(f0.spec_arcs(t) == spec_plus_arcs(*old(fst), t));
                }
                assert forall|t: int| 0 <= t < new_start implies #[trigger] fst.spec_final(t) == old(fst).spec_final(t) by {
                    assert(f0.spec_final(t) == old(fst).spec_final(t));
                }
                assert(fst.spec_arcs(new_start as int) =~= seq![
                    Arc { ilabel: EPS_LABEL, olabel: EPS_LABEL, weight: W::spec_one(), nextstate: start },
                ]);
            }
        },
        None => {},
    }
}

} // verus!
