use rustfst::arc::{Arc, EPS_LABEL, NO_LABEL};
use rustfst::compose::{ComposeError, ComposeFstImpl, ComposeFstImplOptions};
use rustfst::filter_state::FilterState;
use rustfst::fst::VectorFst;
use rustfst::matcher::{MatchType, SortedMatcher};
use rustfst::semiring::{IntegerWeight, Semiring, TropicalWeight};
use rustfst::state_table::{ComposeStateTuple, StateTable};
use rustfst::trivial_filter::TrivialComposeFilter;

fn w(v: u64) -> IntegerWeight {
    IntegerWeight::new(v)
}

/// Two states, one arc `i:o/weight` from 0 to 1, start 0, final 1.
fn single_arc(i: usize, o: usize, weight: u64, final_weight: u64) -> VectorFst<IntegerWeight> {
    let mut f = VectorFst::new();
    let s0 = f.add_state();
    let s1 = f.add_state();
    f.set_start(s0);
    f.add_arc(s0, Arc::new(i, o, w(weight), s1));
    f.set_final(s1, w(final_weight));
    f
}

fn engine(
    f1: VectorFst<IntegerWeight>,
    f2: VectorFst<IntegerWeight>,
) -> ComposeFstImpl<IntegerWeight> {
    ComposeFstImpl::new(f1, f2, ComposeFstImplOptions::default()).unwrap()
}

fn tuple(s1: usize, s2: usize) -> ComposeStateTuple {
    ComposeStateTuple { fs: FilterState::Trivial, s1, s2 }
}

#[test]
fn scenario_single_arc_pair() {
    let mut e = engine(single_arc(1, 2, 1, 1), single_arc(2, 3, 2, 1));
    let start = e.compute_start().unwrap();
    assert_eq!(e.state_table.find_tuple(start), tuple(0, 0));
    let arcs = e.expand(start).unwrap();
    assert_eq!(arcs.len(), 1);
    assert_eq!(arcs[0].ilabel, 1);
    assert_eq!(arcs[0].olabel, 3);
    assert_eq!(arcs[0].weight, w(2));
    assert_eq!(e.state_table.find_tuple(arcs[0].nextstate), tuple(1, 1));
    assert_eq!(arcs[0].nextstate, 1);
    assert_eq!(e.state_table.len(), 2);
    assert_eq!(e.compute_final(1).unwrap(), Some(w(1)));
    assert_eq!(e.compute_final(start).unwrap(), None);
}

#[test]
fn scenario_first_without_start() {
    let mut f1: VectorFst<IntegerWeight> = VectorFst::new();
    f1.add_state();
    let mut e = engine(f1, single_arc(2, 3, 2, 1));
    assert_eq!(e.compute_start(), None);
    assert_eq!(e.state_table.len(), 0);
}

#[test]
fn scenario_second_without_start() {
    let mut f2: VectorFst<IntegerWeight> = VectorFst::new();
    f2.add_state();
    let mut e = engine(single_arc(1, 2, 1, 1), f2);
    assert_eq!(e.compute_start(), None);
}

#[test]
fn scenario_label_mismatch() {
    let mut e = engine(single_arc(1, 5, 1, 1), single_arc(6, 3, 2, 1));
    let start = e.compute_start().unwrap();
    assert!(e.expand(start).unwrap().is_empty());
    assert_eq!(e.state_table.len(), 1);
}

#[test]
fn expand_twice_is_identical() {
    let mut e = engine(single_arc(1, 2, 3, 4), single_arc(2, 3, 5, 6));
    let start = e.compute_start().unwrap();
    let first = e.expand(start).unwrap();
    let second = e.expand(start).unwrap();
    assert_eq!(first, second);
    let next = first[0].nextstate;
    assert_eq!(e.compute_final(next).unwrap(), Some(w(24)));
    assert_eq!(e.compute_final(next).unwrap(), Some(w(24)));
}

#[test]
fn final_weight_order_and_zero() {
    let mut e = engine(single_arc(1, 2, 1, 0), single_arc(2, 3, 1, 7));
    let start = e.compute_start().unwrap();
    let next = e.expand(start).unwrap()[0].nextstate;
    assert_eq!(e.compute_final(next).unwrap(), None);
}

#[test]
fn epsilon_output_meets_self_loop_and_epsilon_input() {
    // fst1: 0 -a:eps-> 1; fst2: 0 -eps:c-> 1.
    let mut e = engine(single_arc(1, EPS_LABEL, 1, 1), single_arc(EPS_LABEL, 3, 1, 1));
    let start = e.compute_start().unwrap();
    let arcs = e.expand(start).unwrap();
    // stay1 with eps:c, a:eps with the loop of fst2, a:eps with eps:c.
    assert_eq!(arcs.len(), 3);
    assert_eq!((arcs[0].ilabel, arcs[0].olabel), (EPS_LABEL, 3));
    assert_eq!(e.state_table.find_tuple(arcs[0].nextstate), tuple(0, 1));
    assert_eq!((arcs[1].ilabel, arcs[1].olabel), (1, EPS_LABEL));
    assert_eq!(e.state_table.find_tuple(arcs[1].nextstate), tuple(1, 0));
    assert_eq!((arcs[2].ilabel, arcs[2].olabel), (1, 3));
    assert_eq!(e.state_table.find_tuple(arcs[2].nextstate), tuple(1, 1));
}

#[test]
fn driving_from_second_automaton() {
    let m1 = SortedMatcher::new(MatchType::MatchOutput);
    let m2 = SortedMatcher::new(MatchType::MatchOutput);
    let opts = ComposeFstImplOptions::new(Some(m1), Some(m2), None, None, false);
    let mut e = ComposeFstImpl::new(single_arc(1, 2, 3, 1), single_arc(2, 3, 5, 1), opts).unwrap();
    assert_eq!(e.match_type, MatchType::MatchOutput);
    assert!(!e.match_input(0, 0));
    let start = e.compute_start().unwrap();
    let arcs = e.expand(start).unwrap();
    assert_eq!(arcs.len(), 1);
    assert_eq!((arcs[0].ilabel, arcs[0].olabel, arcs[0].weight), (1, 3, w(15)));
}

#[test]
fn weight_overflow_is_reported() {
    let mut e = engine(single_arc(1, 2, u64::MAX, 1), single_arc(2, 3, 2, 1));
    let start = e.compute_start().unwrap();
    assert_eq!(e.expand(start), Err(ComposeError::WeightArithmetic));
    let mut e = engine(single_arc(1, 2, 1, u64::MAX), single_arc(2, 3, 1, 3));
    let start = e.compute_start().unwrap();
    let next = e.expand(start).unwrap()[0].nextstate;
    assert_eq!(e.compute_final(next), Err(ComposeError::WeightArithmetic));
}

#[test]
fn match_type_errors() {
    let mut m1 = SortedMatcher::new(MatchType::MatchInput);
    m1.require_match = true;
    let m2 = SortedMatcher::new(MatchType::MatchInput);
    assert_eq!(
        ComposeFstImpl::<IntegerWeight>::match_type(&m1, &m2),
        Err(ComposeError::Matcher1CannotRequireMatch)
    );
    let m1 = SortedMatcher::new(MatchType::MatchOutput);
    let mut m2 = SortedMatcher::new(MatchType::MatchOutput);
    m2.require_match = true;
    assert_eq!(
        ComposeFstImpl::<IntegerWeight>::match_type(&m1, &m2),
        Err(ComposeError::Matcher2CannotRequireMatch)
    );
    let m1 = SortedMatcher::new(MatchType::MatchInput);
    let m2 = SortedMatcher::new(MatchType::MatchOutput);
    assert_eq!(
        ComposeFstImpl::<IntegerWeight>::match_type(&m1, &m2),
        Err(ComposeError::NoMatchingSide)
    );
    let opts = ComposeFstImplOptions::new(Some(m1), Some(m2), None, None, false);
    assert!(ComposeFstImpl::new(single_arc(1, 2, 1, 1), single_arc(2, 3, 1, 1), opts).is_err());
    let m1 = SortedMatcher::new(MatchType::MatchOutput);
    let m2 = SortedMatcher::new(MatchType::MatchInput);
    assert_eq!(ComposeFstImpl::<IntegerWeight>::match_type(&m1, &m2), Ok(MatchType::MatchBoth));
    let m1 = SortedMatcher::new(MatchType::MatchInput);
    assert_eq!(ComposeFstImpl::<IntegerWeight>::match_type(&m1, &m2), Ok(MatchType::MatchInput));
}

#[test]
fn state_table_round_trip() {
    let mut t = StateTable::new();
    let a = t.find_id(tuple(3, 4));
    let b = t.find_id(tuple(1, 2));
    let c = t.find_id(tuple(3, 4));
    assert_eq!((a, b, c), (0, 1, 0));
    assert_eq!(t.len(), 2);
    assert_eq!(t.find_tuple(b), tuple(1, 2));
    assert_eq!(t.find_id(t.find_tuple(a)), a);
}

#[test]
fn user_supplied_filter_and_table() {
    let filter = TrivialComposeFilter::new(None, None);
    let mut table = StateTable::new();
    table.find_id(tuple(9, 9));
    let opts = ComposeFstImplOptions::new(None, None, Some(filter), Some(table), false);
    let mut e = ComposeFstImpl::new(single_arc(1, 2, 1, 1), single_arc(2, 3, 1, 1), opts).unwrap();
    assert_eq!(e.compute_start(), Some(1));
}

#[test]
fn matcher_queries() {
    let mut f: VectorFst<IntegerWeight> = VectorFst::new();
    let s0 = f.add_state();
    let s1 = f.add_state();
    f.add_arc(s0, Arc::new(EPS_LABEL, 4, w(2), s1));
    f.add_arc(s0, Arc::new(7, 8, w(3), s1));
    f.add_arc(s0, Arc::new(7, 9, w(5), s0));
    let m = SortedMatcher::new(MatchType::MatchInput);
    let found = m.iter(&f, s0, 7);
    assert_eq!(found.len(), 2);
    assert_eq!(found[1].olabel, 9);
    let eps = m.iter(&f, s0, EPS_LABEL);
    assert_eq!(eps.len(), 2);
    assert_eq!(eps[0], Arc::new(NO_LABEL, EPS_LABEL, IntegerWeight::one(), s0));
    assert_eq!(eps[1].olabel, 4);
    let no = m.iter(&f, s0, NO_LABEL);
    assert_eq!(no.len(), 1);
    let out = SortedMatcher::new(MatchType::MatchOutput);
    let eps_out = out.iter(&f, s0, EPS_LABEL);
    assert_eq!(eps_out, vec![Arc::new(EPS_LABEL, NO_LABEL, IntegerWeight::one(), s0)]);
    assert_eq!(m.final_weight(&f, s1), None);
}

#[test]
fn tropical_weights_add() {
    let a = TropicalWeight::new(3);
    let b = TropicalWeight::new(4);
    assert_eq!(a.times(&b), Some(TropicalWeight::new(7)));
    assert_eq!(a.times(&TropicalWeight::infinity()), Some(TropicalWeight::infinity()));
    assert_eq!(TropicalWeight::new(u64::MAX).times(&b), None);
    assert!(TropicalWeight::zero().is_zero());
    assert_eq!(TropicalWeight::one(), TropicalWeight::new(0));
}

#[test]
fn integer_weights_multiply() {
    assert_eq!(w(6).times(&w(7)), Some(w(42)));
    assert_eq!(w(u64::MAX).times(&w(2)), None);
    assert!(IntegerWeight::zero().is_zero());
    assert!(!IntegerWeight::one().is_zero());
}

fn sorted_fan() -> VectorFst<IntegerWeight> {
    let mut f = VectorFst::new();
    let s0 = f.add_state();
    let s1 = f.add_state();
    f.set_start(s0);
    for (i, lab) in [0usize, 2, 2, 5, 7].iter().enumerate() {
        f.add_arc(s0, Arc::new(*lab, i + 10, w(1), s1));
    }
    f.set_final(s1, w(1));
    f
}

#[test]
fn required_matching_searches_sorted_arcs() {
    let f = sorted_fan();
    assert!(rustfst::matcher::arcs_sorted(&f, MatchType::MatchInput));
    assert!(rustfst::matcher::arcs_sorted(&f, MatchType::MatchOutput));
    let mut m = SortedMatcher::new(MatchType::MatchInput);
    m.require_match = true;
    let found = m.iter(&f, 0, 2);
    assert_eq!(found.iter().map(|a| a.olabel).collect::<Vec<_>>(), vec![11, 12]);
    assert_eq!(m.iter(&f, 0, 7).len(), 1);
    assert!(m.iter(&f, 0, 3).is_empty());
    assert!(m.iter(&f, 0, 9).is_empty());
    let eps = m.iter(&f, 0, EPS_LABEL);
    assert_eq!(eps.len(), 2);
    assert_eq!(eps[1].olabel, 10);
    assert_eq!(m.iter(&f, 0, NO_LABEL).len(), 1);
}

#[test]
fn required_matching_on_unsorted_arcs_is_refused() {
    let mut f = VectorFst::new();
    let s0 = f.add_state();
    f.set_start(s0);
    f.add_arc(s0, Arc::new(4, 4, w(1), s0));
    f.add_arc(s0, Arc::new(3, 3, w(1), s0));
    assert!(!rustfst::matcher::arcs_sorted(&f, MatchType::MatchInput));
    let mut m2 = SortedMatcher::new(MatchType::MatchInput);
    m2.require_match = true;
    let opts = ComposeFstImplOptions::new(None, Some(m2), None, None, false);
    let r = ComposeFstImpl::new(single_arc(1, 2, 1, 1), f.clone(), opts);
    assert_eq!(r.err(), Some(ComposeError::UnsortedArcs));
    let mut m1 = SortedMatcher::new(MatchType::MatchOutput);
    m1.require_match = true;
    let opts = ComposeFstImplOptions::new(Some(m1), None, None, None, false);
    let r = ComposeFstImpl::new(f, single_arc(1, 2, 1, 1), opts);
    assert_eq!(r.err(), Some(ComposeError::UnsortedArcs));
}

#[test]
fn required_matching_composes_like_scanning() {
    let mut m2 = SortedMatcher::new(MatchType::MatchInput);
    m2.require_match = true;
    let opts = ComposeFstImplOptions::new(None, Some(m2), None, None, false);
    let mut e = ComposeFstImpl::new(single_arc(1, 2, 3, 1), sorted_fan(), opts).unwrap();
    let start = e.compute_start().unwrap();
    let arcs = e.expand(start).unwrap();
    // The "stay" arc meets the epsilon arc, then label 2 meets both 2-arcs.
    assert_eq!(arcs.iter().map(|a| a.olabel).collect::<Vec<_>>(), vec![10, 11, 12]);
}

#[test]
fn compute_after_partial_exploration() {
    let mut c = rustfst::compose_fst::ComposeFst::new(single_arc(1, 2, 3, 1), single_arc(2, 3, 5, 7)).unwrap();
    let start = c.fst_impl.compute_start().unwrap();
    c.fst_impl.expand(start).unwrap();
    let out = c.compute().unwrap();
    assert_eq!(out.num_states(), 2);
    assert_eq!(out.start(), Some(0));
    assert_eq!(out.states[0].arcs, vec![Arc::new(1, 3, w(15), 1)]);
    assert_eq!(out.final_weight(1), Some(w(7)));
}
