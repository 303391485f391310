use vstd::prelude::*;
use crate::arc::{Arc, StateId};
use crate::filter_state::FilterState;
use crate::matcher::{MatchType, SortedMatcher};
use crate::semiring::Semiring;

verus! {

/// The filter that accepts every matched pair of arcs unchanged and never
/// vetoes a final weight: composition through it is the plain cross product.
#[derive(Clone, Copy, PartialEq, Eq, Structural, Debug, Hash)]
pub struct TrivialComposeFilter {
    pub matcher1: SortedMatcher,
    pub matcher2: SortedMatcher,
}

impl TrivialComposeFilter {
    /// Uses the matchers given, or else one on the output labels of the first
    /// automaton and one on the input labels of the second.
    pub fn new(m1: Option<SortedMatcher>, m2: Option<SortedMatcher>) -> (r: TrivialComposeFilter)
        ensures
            r.matcher1 == (match m1 {
                Some(m) => m,
                None => SortedMatcher { match_type: MatchType::MatchOutput, require_match: false },
            }),
            r.matcher2 == (match m2 {
                Some(m) => m,
                None => SortedMatcher { match_type: MatchType::MatchInput, require_match: false },
            }),
    {
        let matcher1 = match m1 {
            Some(m) => m,
            None => SortedMatcher::new(MatchType::MatchOutput),
        };
        let matcher2 = match m2 {
            Some(m) => m,
            None => SortedMatcher::new(MatchType::MatchInput),
        };
        TrivialComposeFilter { matcher1, matcher2 }
    }

    pub fn start(&self) -> (r: FilterState)
        ensures
            r == FilterState::Trivial,
    {
        FilterState::Trivial
    }

    /// The trivial filter keeps no positional context.
    pub fn set_state(&mut self, s1: StateId, s2: StateId, fs: FilterState)
        ensures
            *final(self) == *old(self),
    {
    }

    pub fn filter_arc<W: Semiring>(&self, arc1: &mut Arc<W>, arc2: &mut Arc<W>) -> (r: FilterState)
        ensures
            r == FilterState::Trivial,
            *final(arc1) == *old(arc1),
            *final(arc2) == *old(arc2),
    {
        FilterState::Trivial
    }

    pub fn filter_final<W: Semiring>(&self, w1: &mut W, w2: &mut W)
        ensures
            *final(w1) == *old(w1),
            *final(w2) == *old(w2),
    {
    }

    pub fn matcher1(&self) -> (r: SortedMatcher)
        ensures
            r == self.matcher1,
    {
        self.matcher1
    }

    pub fn matcher2(&self) -> (r: SortedMatcher)
        ensures
            r == self.matcher2,
    {
        self.matcher2
    }
}

} // verus!
