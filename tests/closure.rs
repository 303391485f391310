use rustfst::arc::{Arc, EPS_LABEL};
use rustfst::closure::{closure_plus, closure_star};
use rustfst::fst::VectorFst;
use rustfst::semiring::{IntegerWeight, Semiring};

fn w(v: u64) -> IntegerWeight {
    IntegerWeight::new(v)
}

fn one_arc() -> VectorFst<IntegerWeight> {
    let mut f = VectorFst::new();
    let a = f.add_state();
    let b = f.add_state();
    f.set_start(a);
    f.add_arc(a, Arc::new(1, 2, w(3), b));
    f.set_final(b, w(5));
    f
}

#[test]
fn closure_plus_loops_back_from_finals() {
    let mut f = one_arc();
    closure_plus(&mut f);
    assert_eq!(f.num_states(), 2);
    assert_eq!(f.states[0].arcs.len(), 1);
    assert_eq!(f.states[1].arcs, vec![Arc::new(EPS_LABEL, EPS_LABEL, w(5), 0)]);
    assert_eq!(f.final_weight(1), Some(w(5)));
}

#[test]
fn closure_star_adds_final_start() {
    let mut f = one_arc();
    closure_star(&mut f);
    assert_eq!(f.num_states(), 3);
    assert_eq!(f.start(), Some(2));
    assert_eq!(f.final_weight(2), Some(IntegerWeight::one()));
    assert_eq!(f.states[2].arcs, vec![Arc::new(EPS_LABEL, EPS_LABEL, IntegerWeight::one(), 0)]);
    assert_eq!(f.states[1].arcs, vec![Arc::new(EPS_LABEL, EPS_LABEL, w(5), 0)]);
}

#[test]
fn closure_star_without_start_is_unchanged() {
    let mut f: VectorFst<IntegerWeight> = VectorFst::new();
    let a = f.add_state();
    f.set_final(a, w(2));
    closure_star(&mut f);
    assert_eq!(f.num_states(), 1);
    assert_eq!(f.start(), None);
    assert!(f.states[0].arcs.is_empty());
}
