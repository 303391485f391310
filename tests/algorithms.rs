use rustfst::arc::{Arc, EPS_LABEL, NO_LABEL, NO_STATE_ID};
use rustfst::compose::ComposeError;
use rustfst::compose_fst::{compose, compose_with_config, ComposeConfig, ComposeFilterEnum, ComposeFst};
use rustfst::connect::{accessible_states, coaccessible_states, connect};
use rustfst::filter_state::{BaseFilterState, FilterState};
use rustfst::final_states::{FinalState, FinalStatesIterator, StructFinalStatesIterator};
use rustfst::fst::VectorFst;
use rustfst::matcher::MatchType;
use rustfst::matcher_data::{MatcherOperationResult, SerializedArc};
use rustfst::push_labels_filter::PushLabelsComposeFilter;
use rustfst::semiring::{parse_u64, IntegerWeight, Semiring, TropicalWeight};
use rustfst::trivial_filter::TrivialComposeFilter;

fn w(v: u64) -> IntegerWeight {
    IntegerWeight::new(v)
}

#[test]
fn test_connect() {
    let mut fst = VectorFst::new();
    let s1 = fst.add_state();
    let s2 = fst.add_state();
    fst.set_start(s1);
    fst.add_arc(s1, Arc::new(3, 5, w(10), s2));
    fst.add_arc(s1, Arc::new(5, 7, w(18), s2));
    fst.set_final(s2, w(31));
    fst.add_state();
    let s4 = fst.add_state();
    fst.add_arc(s2, Arc::new(5, 7, w(18), s4));
    assert_eq!(fst.num_states(), 4);
    connect(&mut fst);
    assert_eq!(fst.num_states(), 2);
}

#[test]
fn connect_renumbers_and_drops_dead_arcs() {
    let mut fst = VectorFst::new();
    let a = fst.add_state();
    let dead = fst.add_state();
    let b = fst.add_state();
    fst.set_start(a);
    fst.add_arc(a, Arc::new(1, 1, w(2), dead));
    fst.add_arc(a, Arc::new(2, 2, w(3), b));
    fst.set_final(b, w(5));
    assert_eq!(accessible_states(&fst), vec![true, true, true]);
    assert_eq!(coaccessible_states(&fst), vec![true, false, true]);
    connect(&mut fst);
    assert_eq!(fst.num_states(), 2);
    assert_eq!(fst.start(), Some(0));
    assert_eq!(fst.states[0].arcs, vec![Arc::new(2, 2, w(3), 1)]);
    assert_eq!(fst.final_weight(1), Some(w(5)));
}

#[test]
fn connect_without_start_empties() {
    let mut fst: VectorFst<IntegerWeight> = VectorFst::new();
    let a = fst.add_state();
    fst.set_final(a, w(1));
    connect(&mut fst);
    assert_eq!(fst.num_states(), 0);
    assert_eq!(fst.start(), None);
}

fn chain(labels: &[(usize, usize, u64)], final_weight: u64) -> VectorFst<IntegerWeight> {
    let mut f = VectorFst::new();
    let mut s = f.add_state();
    f.set_start(s);
    for &(i, o, wt) in labels {
        let n = f.add_state();
        f.add_arc(s, Arc::new(i, o, w(wt), n));
        s = n;
    }
    f.set_final(s, w(final_weight));
    f
}

#[test]
fn compose_full_chain() {
    let f1 = chain(&[(1, 2, 2), (3, 4, 3)], 5);
    let f2 = chain(&[(2, 7, 7), (4, 8, 11)], 13);
    let out = compose(f1, f2).unwrap();
    assert_eq!(out.num_states(), 3);
    assert_eq!(out.start(), Some(0));
    assert_eq!(out.states[0].arcs, vec![Arc::new(1, 7, w(14), 1)]);
    assert_eq!(out.states[1].arcs, vec![Arc::new(3, 8, w(33), 2)]);
    assert_eq!(out.final_weight(2), Some(w(65)));
}

#[test]
fn compose_with_config_keeps_dead_states_without_connect() {
    // The second automaton reads 2 then dies without a final state.
    let f1 = chain(&[(1, 2, 1)], 1);
    let mut f2 = chain(&[(9, 9, 1)], 1);
    let extra = f2.add_state();
    f2.add_arc(0, Arc::new(2, 5, w(1), extra));
    let config = ComposeConfig { compose_filter: ComposeFilterEnum::TrivialFilter, connect: false };
    let out = compose_with_config(f1.clone(), f2.clone(), config).unwrap();
    assert_eq!(out.num_states(), 2);
    assert_eq!(out.final_weight(1), None);
    let pruned = compose_with_config(f1, f2, ComposeConfig::default()).unwrap();
    assert_eq!(pruned.num_states(), 0);
    assert_eq!(pruned.start(), None);
}

#[test]
fn unsupported_filters_are_refused() {
    let config = ComposeConfig { compose_filter: ComposeFilterEnum::SequenceFilter, connect: true };
    let r = compose_with_config(chain(&[], 1), chain(&[], 1), config);
    assert_eq!(r.err(), Some(ComposeError::UnsupportedFilter));
    let config = ComposeConfig { compose_filter: ComposeFilterEnum::NullFilter, connect: false };
    let r = compose_with_config(chain(&[], 1), chain(&[], 1), config);
    assert_eq!(r.err(), Some(ComposeError::UnsupportedFilter));
}

#[test]
fn compose_fst_compute_without_start() {
    let mut c = ComposeFst::new(VectorFst::<IntegerWeight>::new(), chain(&[], 1)).unwrap();
    let out = c.compute().unwrap();
    assert_eq!(out.num_states(), 0);
    assert_eq!(out.start(), None);
}

#[test]
fn compose_reports_weight_overflow() {
    let f1 = chain(&[(1, 2, u64::MAX)], 1);
    let f2 = chain(&[(2, 3, 2)], 1);
    assert_eq!(compose(f1, f2).err(), Some(ComposeError::WeightArithmetic));
}

#[test]
fn default_config() {
    let c = ComposeConfig::default();
    assert_eq!(c.compose_filter, ComposeFilterEnum::AutoFilter);
    assert!(c.connect);
}

#[test]
fn final_states_in_order() {
    let mut f: VectorFst<IntegerWeight> = VectorFst::new();
    for _ in 0..4 {
        f.add_state();
    }
    f.set_final(1, w(7));
    f.set_final(3, w(9));
    let mut it = f.final_states_iter();
    assert_eq!(it.next(), Some(FinalState { state_id: 1, final_weight: w(7) }));
    assert_eq!(it.next(), Some(FinalState { state_id: 3, final_weight: w(9) }));
    assert_eq!(it.next(), None);
    let mut it2 = StructFinalStatesIterator::new(&f);
    it2.it = 2;
    assert_eq!(it2.next().map(|s| s.state_id), Some(3));
}

fn serialized(ilabel: i32, olabel: i32, weight: &str, nextstate: i32) -> SerializedArc {
    SerializedArc { ilabel, olabel, weight: weight.to_string(), nextstate }
}

#[test]
fn parse_matcher_operation() {
    let op = MatcherOperationResult {
        state: 2,
        label: 5,
        match_type: 1,
        arcs: vec![serialized(5, -1, "3", 4), serialized(-1, 0, "12", -1)],
    };
    let d = op.parse::<IntegerWeight>().unwrap();
    assert_eq!((d.state, d.label, d.match_type), (2, 5, MatchType::MatchInput));
    assert_eq!(d.arcs, vec![Arc::new(5, NO_LABEL, w(3), 4), Arc::new(NO_LABEL, 0, w(12), NO_STATE_ID)]);
    let out = MatcherOperationResult { state: 0, label: 0, match_type: 2, arcs: vec![] };
    assert_eq!(out.parse::<TropicalWeight>().unwrap().match_type, MatchType::MatchOutput);
}

#[test]
fn parse_matcher_operation_rejects_bad_input() {
    let bad_weight = MatcherOperationResult {
        state: 0,
        label: 0,
        match_type: 1,
        arcs: vec![serialized(1, 1, "x1", 0)],
    };
    assert!(bad_weight.parse::<IntegerWeight>().is_none());
    let negative = MatcherOperationResult {
        state: 0,
        label: 0,
        match_type: 1,
        arcs: vec![serialized(-2, 1, "1", -5)],
    };
    let d = negative.parse::<IntegerWeight>().unwrap();
    assert_eq!(d.arcs[0].ilabel, -2i32 as usize);
    assert_eq!(d.arcs[0].nextstate, -5i32 as usize);
}

#[test]
fn decimal_parsing() {
    assert_eq!(parse_u64("0"), Some(0));
    assert_eq!(parse_u64("18446744073709551615"), Some(u64::MAX));
    assert_eq!(parse_u64("18446744073709551616"), None);
    assert_eq!(parse_u64(""), None);
    assert_eq!(parse_u64("1a"), None);
    assert_eq!(IntegerWeight::parse_text("42"), Some(w(42)));
    assert_eq!(TropicalWeight::parse_text("7"), Some(TropicalWeight::new(7)));
}

fn push_filter(output: bool) -> PushLabelsComposeFilter {
    PushLabelsComposeFilter::new(TrivialComposeFilter::new(None, None), true, false, output)
}

#[test]
fn push_filter_consumes_pending_label() {
    let mut f = push_filter(true);
    let fs = FilterState::Pair(BaseFilterState::Trivial, 6);
    f.set_state(&VectorFst::<IntegerWeight>::new(), &VectorFst::new(), 0, 0, fs);
    let mut a1 = Arc::new(1, 6, w(1), 1);
    let mut a2 = Arc::new(NO_LABEL, EPS_LABEL, w(1), 0);
    let r = f.filter_arc(&mut a1, &mut a2, false, false, None);
    assert_eq!(r, Some(f.start()));
    assert_eq!(a1.olabel, EPS_LABEL);
    // A real label on the peer conflicts with the pending push.
    let mut a1 = Arc::new(1, 6, w(1), 1);
    let mut a2 = Arc::new(4, 4, w(1), 0);
    assert_eq!(f.filter_arc(&mut a1, &mut a2, false, false, None), Some(FilterState::NoState));
    // Epsilon on the lookahead side: kept only if the label stays reachable.
    let mut a1 = Arc::new(1, EPS_LABEL, w(1), 1);
    let mut a2 = Arc::new(NO_LABEL, EPS_LABEL, w(1), 0);
    assert_eq!(f.filter_arc(&mut a1, &mut a2, false, true, None), Some(fs));
    assert_eq!(f.filter_arc(&mut a1, &mut a2, false, false, None), Some(FilterState::NoState));
    // Another label is rejected.
    let mut a1 = Arc::new(1, 8, w(1), 1);
    assert_eq!(f.filter_arc(&mut a1, &mut a2, false, true, None), Some(FilterState::NoState));
}

#[test]
fn push_filter_single_arc_fast_path() {
    let mut f = push_filter(true);
    let mut f1: VectorFst<IntegerWeight> = VectorFst::new();
    let s = f1.add_state();
    f1.add_arc(s, Arc::new(1, EPS_LABEL, w(1), s));
    let fs = FilterState::Pair(BaseFilterState::Trivial, 6);
    f.set_state(&f1, &VectorFst::new(), s, 0, fs);
    assert_eq!(f.narcsa, 1);
    let mut a1 = Arc::new(1, EPS_LABEL, w(1), s);
    let mut a2 = Arc::new(NO_LABEL, EPS_LABEL, w(1), 0);
    assert_eq!(f.filter_arc(&mut a1, &mut a2, false, false, None), Some(fs));
}

#[test]
fn push_filter_pushes_prefix_label() {
    let f = push_filter(true);
    let mut a1 = Arc::new(1, EPS_LABEL, w(2), 1);
    let mut a2 = Arc::new(EPS_LABEL, EPS_LABEL, w(3), 4);
    let prefix = Arc::new(9, 10, w(5), 7);
    let r = f.filter_arc(&mut a1, &mut a2, true, false, Some(prefix));
    assert_eq!(r, Some(FilterState::Pair(BaseFilterState::Trivial, 9)));
    assert_eq!(a1.olabel, 9);
    assert_eq!(a2, Arc::new(9, 10, w(15), 7));
    // Without a prefix nothing is pushed.
    let mut a1 = Arc::new(1, EPS_LABEL, w(2), 1);
    let mut a2 = Arc::new(EPS_LABEL, EPS_LABEL, w(3), 4);
    let r = f.filter_arc(&mut a1, &mut a2, true, false, None);
    assert_eq!(r, Some(FilterState::Pair(BaseFilterState::Trivial, NO_LABEL)));
    assert_eq!(a2, Arc::new(EPS_LABEL, EPS_LABEL, w(3), 4));
    // A splice whose weight product overflows fails.
    let mut a2 = Arc::new(EPS_LABEL, EPS_LABEL, w(u64::MAX), 4);
    assert_eq!(f.filter_arc(&mut a1, &mut a2, true, false, Some(prefix)), None);
}

#[test]
fn push_filter_disabled_delegates() {
    let f = PushLabelsComposeFilter::new(TrivialComposeFilter::new(None, None), false, false, true);
    let mut a1 = Arc::new(1, 2, w(1), 1);
    let mut a2 = Arc::new(2, 3, w(1), 1);
    assert_eq!(
        f.filter_arc(&mut a1, &mut a2, true, true, None),
        Some(FilterState::Pair(BaseFilterState::Trivial, NO_LABEL))
    );
    assert_eq!(a1, Arc::new(1, 2, w(1), 1));
}

#[test]
fn push_filter_final_veto() {
    let mut f = push_filter(false);
    let mut w1 = w(4);
    let mut w2 = w(5);
    f.filter_final(&mut w1, &mut w2);
    assert_eq!((w1, w2), (w(4), w(5)));
    f.set_state(&VectorFst::<IntegerWeight>::new(), &VectorFst::new(), 0, 0, FilterState::Pair(BaseFilterState::Trivial, 3));
    f.filter_final(&mut w1, &mut w2);
    assert_eq!((w1, w2), (IntegerWeight::zero(), w(5)));
}

#[test]
fn compose_without_start_succeeds_empty() {
    let f2 = chain(&[(2, 3, u64::MAX)], u64::MAX);
    for connect in [false, true] {
        let config = ComposeConfig { compose_filter: ComposeFilterEnum::TrivialFilter, connect };
        let out = compose_with_config(VectorFst::new(), f2.clone(), config).unwrap();
        assert_eq!(out.start(), None);
    }
}
