use vstd::prelude::*;
use crate::arc::{Arc, Label, StateId, EPS_LABEL, NO_LABEL};
use crate::filter_state::{BaseFilterState, FilterState};
use crate::fst::VectorFst;
use crate::semiring::Semiring;
use crate::trivial_filter::TrivialComposeFilter;

verus! {

/// The label of `a` on the lookahead side (`output`: its output label).
pub open spec fn spec_label_a<W>(a: Arc<W>, output: bool) -> Label {
    if output {
        a.olabel
    } else {
        a.ilabel
    }
}

/// `a` with its lookahead-side label replaced by `l`.
pub open spec fn spec_with_label_a<W>(a: Arc<W>, output: bool, l: Label) -> Arc<W> {
    if output {
        Arc { olabel: l, ..a }
    } else {
        Arc { ilabel: l, ..a }
    }
}

/// A label that names a symbol: neither epsilon nor `NO_LABEL`.
pub open spec fn spec_is_real(l: Label) -> bool {
    l != EPS_LABEL && l != NO_LABEL
}

/// The label pending in a filter state, `NO_LABEL` when there is none.
pub open spec fn spec_pending(fs: FilterState) -> Label {
    match fs {
        FilterState::Pair(_, l) => l,
        FilterState::Integer(l) => l,
        _ => NO_LABEL,
    }
}

/// A decorator over the trivial filter that pushes a soon-to-be-matched
/// label across epsilon transitions. Its states pair the inner state with
/// the pending label. What the lookahead matchers answer (whether a label
/// is still reachable, and a one-step prefix arc) is passed in.
#[derive(Clone, Copy, PartialEq, Eq, Structural, Debug, Hash)]
pub struct PushLabelsComposeFilter {
    pub filter: TrivialComposeFilter,
    /// The current state, set by `set_state`.
    pub fs: FilterState,
    /// The number of arcs leaving the lookahead side's current state.
    pub narcsa: usize,
    /// Label pushing is enabled.
    pub lookahead_prefix: bool,
    /// Push only onto arcs that are epsilon on the lookahead side.
    pub non_epsilon_prefix: bool,
    /// The lookahead side is the first automaton's output.
    pub lookahead_output: bool,
    /// The label that both matchers treat as epsilon while it is pending
    /// (`NO_LABEL`: none).
    pub multi_eps_label: Label,
}

impl PushLabelsComposeFilter {
    pub open spec fn spec_start(&self) -> FilterState {
        FilterState::Pair(BaseFilterState::Trivial, NO_LABEL)
    }

    /// The state and lookahead arc after consuming the pending `flabel`.
    pub open spec fn spec_consume<W>(
        &self,
        a: Arc<W>,
        b: Arc<W>,
        flabel: Label,
        reachable: bool,
    ) -> (FilterState, Arc<W>) {
        let out = self.lookahead_output;
        let la = spec_label_a(a, out);
        let lb = if out {
            b.ilabel
        } else {
            b.olabel
        };
        if spec_is_real(lb) {
            (FilterState::NoState, a)
        } else if la == flabel {
            (self.spec_start(), spec_with_label_a(a, out, EPS_LABEL))
        } else if la == EPS_LABEL {
            if self.narcsa == 1 || reachable {
                (self.fs, a)
            } else {
                (FilterState::NoState, a)
            }
        } else {
            (FilterState::NoState, a)
        }
    }

    /// The state and arcs after trying to push a label: `None` where the
    /// weight product of the splice fails.
    pub open spec fn spec_push<W: Semiring>(
        &self,
        a: Arc<W>,
        b: Arc<W>,
        fs1: BaseFilterState,
        prefix: Option<Arc<W>>,
    ) -> Option<(FilterState, Arc<W>, Arc<W>)> {
        let out = self.lookahead_output;
        let la = spec_label_a(a, out);
        let lb = spec_label_a(b, out);
        if lb != EPS_LABEL || (la != EPS_LABEL && self.non_epsilon_prefix) || prefix.is_none() {
            Some((FilterState::Pair(fs1, NO_LABEL), a, b))
        } else {
            let larc = prefix.unwrap();
            let pushed = if out {
                larc.ilabel
            } else {
                larc.olabel
            };
            match W::spec_times(b.weight, larc.weight) {
                Some(w) => Some(
                    (
                        FilterState::Pair(fs1, pushed),
                        spec_with_label_a(a, out, pushed),
                        Arc { ilabel: larc.ilabel, olabel: larc.olabel, weight: w, nextstate: larc.nextstate },
                    ),
                ),
                None => None,
            }
        }
    }

    /// The outcome of `filter_arc` on the pair `(arc1, arc2)`.
    pub open spec fn spec_filter_arc<W: Semiring>(
        &self,
        arc1: Arc<W>,
        arc2: Arc<W>,
        lookahead_arc: bool,
        reachable: bool,
        prefix: Option<Arc<W>>,
    ) -> Option<(FilterState, Arc<W>, Arc<W>)> {
        let flabel = spec_pending(self.fs);
        if !self.lookahead_prefix {
            Some((FilterState::Pair(BaseFilterState::Trivial, NO_LABEL), arc1, arc2))
        } else if flabel != NO_LABEL {
            if self.lookahead_output {
                let (fs, a) = self.spec_consume(arc1, arc2, flabel, reachable);
                Some((fs, a, arc2))
            } else {
                let (fs, a) = self.spec_consume(arc2, arc1, flabel, reachable);
                Some((fs, arc1, a))
            }
        } else if !lookahead_arc {
            Some((FilterState::Pair(BaseFilterState::Trivial, NO_LABEL), arc1, arc2))
        } else if self.lookahead_output {
            self.spec_push(arc1, arc2, BaseFilterState::Trivial, prefix)
        } else {
            match self.spec_push(arc2, arc1, BaseFilterState::Trivial, prefix) {
                Some((fs, a, b)) => Some((fs, b, a)),
                None => None,
            }
        }
    }

    pub fn new(
        filter: TrivialComposeFilter,
        lookahead_prefix: bool,
        non_epsilon_prefix: bool,
        lookahead_output: bool,
    ) -> (r: PushLabelsComposeFilter)
        ensures
            r.filter == filter,
            r.fs == r.spec_start(),
            r.narcsa == 0,
            r.lookahead_prefix == lookahead_prefix,
            r.non_epsilon_prefix == non_epsilon_prefix,
            r.lookahead_output == lookahead_output,
            r.multi_eps_label == NO_LABEL,
    {
        PushLabelsComposeFilter {
            filter,
            fs: FilterState::Pair(BaseFilterState::Trivial, NO_LABEL),
            narcsa: 0,
            lookahead_prefix,
            non_epsilon_prefix,
            lookahead_output,
            multi_eps_label: NO_LABEL,
        }
    }

    /// The inner filter's start state with no label pending.
    pub fn start(&self) -> (r: FilterState)
        ensures
            r == self.spec_start(),
    {
        FilterState::Pair(BaseFilterState::Trivial, NO_LABEL)
    }

    /// Primes the filter at the composed state `(fs, s1, s2)`.
    pub fn set_state<W: Semiring>(
        &mut self,
        fst1: &VectorFst<W>,
        fst2: &VectorFst<W>,
        s1: StateId,
        s2: StateId,
        fs: FilterState,
    )
        ensures
            final(self).fs == fs,
            final(self).filter == old(self).filter,
            final(self).lookahead_prefix == old(self).lookahead_prefix,
            final(self).non_epsilon_prefix == old(self).non_epsilon_prefix,
            final(self).lookahead_output == old(self).lookahead_output,
            final(self).multi_eps_label == (if old(self).lookahead_prefix {
                spec_pending(fs)
            } else {
                old(self).multi_eps_label
            }),
            final(self).narcsa as nat == (if !old(self).lookahead_prefix {
                old(self).narcsa as nat
            } else if old(self).lookahead_output {
                fst1.spec_arcs(s1 as int).len()
            } else {
                fst2.spec_arcs(s2 as int).len()
            }),
    {
        self.fs = fs;
        self.filter.set_state(s1, s2, fs);
        if !self.lookahead_prefix {
            return;
        }
        self.narcsa = if self.lookahead_output {
            fst1.num_arcs(s1)
        } else {
            fst2.num_arcs(s2)
        };
        self.multi_eps_label = match fs {
            FilterState::Pair(_, l) => l,
            FilterState::Integer(l) => l,
            _ => NO_LABEL,
        };
    }

    /// Consumes the pending label `flabel`: `arca` is the lookahead side's
    /// arc, `arcb` the other. `reachable` is the lookahead matcher's answer
    /// to whether `flabel` can still be reached from `arca`'s destination.
    pub fn pushed_label_filter_arc<W: Semiring>(
        &self,
        arca: &mut Arc<W>,
        arcb: &mut Arc<W>,
        flabel: Label,
        reachable: bool,
    ) -> (r: FilterState)
        ensures
            (r, *final(arca)) == self.spec_consume(*old(arca), *old(arcb), flabel, reachable),
            *final(arcb) == *old(arcb),
    {
        let labelb = if self.lookahead_output {
            arcb.ilabel
        } else {
            arcb.olabel
        };
        let labela = if self.lookahead_output {
            arca.olabel
        } else {
            arca.ilabel
        };
        if labelb != EPS_LABEL && labelb != NO_LABEL {
            FilterState::NoState
        } else if labela == flabel {
            if self.lookahead_output {
                arca.olabel = EPS_LABEL;
            } else {
                arca.ilabel = EPS_LABEL;
            }
            self.start()
        } else if labela == EPS_LABEL {
            if self.narcsa == 1 || reachable {
                self.fs
            } else {
                FilterState::NoState
            }
        } else {
            FilterState::NoState
        }
    }

    /// Pushes the label of `prefix`, the lookahead matcher's one-step prefix
    /// arc at the peer's destination, onto `arcb` where `arcb` is epsilon on
    /// the lookahead side. `None` where the weight product fails.
    pub fn push_label_filter_arc<W: Semiring>(
        &self,
        arca: &mut Arc<W>,
        arcb: &mut Arc<W>,
        fs1: BaseFilterState,
        prefix: Option<Arc<W>>,
    ) -> (r: Option<FilterState>)
        ensures
            match self.spec_push(*old(arca), *old(arcb), fs1, prefix) {
                Some((fs, a, b)) => r == Some(fs) && *final(arca) == a && *final(arcb) == b,
                None => r.is_none(),
            },
    {
        let labela = if self.lookahead_output {
            arca.olabel
        } else {
            arca.ilabel
        };
        let labelb = if self.lookahead_output {
            arcb.olabel
        } else {
            arcb.ilabel
        };
        if labelb != EPS_LABEL {
            return Some(FilterState::Pair(fs1, NO_LABEL));
        }
        if labela != EPS_LABEL && self.non_epsilon_prefix {
            return Some(FilterState::Pair(fs1, NO_LABEL));
        }
        match prefix {
            None => Some(FilterState::Pair(fs1, NO_LABEL)),
            Some(larc) => {
                let weight = match arcb.weight.times(&larc.weight) {
                    Some(w) => w,
                    None => return None,
                };
                let pushed = if self.lookahead_output {
                    larc.ilabel
                } else {
                    larc.olabel
                };
                if self.lookahead_output {
                    arca.olabel = pushed;
                } else {
                    arca.ilabel = pushed;
                }
                *arcb = Arc::new(larc.ilabel, larc.olabel, weight, larc.nextstate);
                Some(FilterState::Pair(fs1, pushed))
            },
        }
    }

    /// Adjudicates the matched pair `(arc1, arc2)`: consumes a pending label,
    /// or asks the inner filter and then tries to push a label. `None` where
    /// a weight product fails; `Some(NoState)` rejects the pair.
    pub fn filter_arc<W: Semiring>(
        &self,
        arc1: &mut Arc<W>,
        arc2: &mut Arc<W>,
        lookahead_arc: bool,
        reachable: bool,
        prefix: Option<Arc<W>>,
    ) -> (r: Option<FilterState>)
        ensures
            match self.spec_filter_arc(*old(arc1), *old(arc2), lookahead_arc, reachable, prefix) {
                Some((fs, a1, a2)) => r == Some(fs) && *final(arc1) == a1 && *final(arc2) == a2,
                None => r.is_none(),
            },
    {
        if !self.lookahead_prefix {
            if self.filter.filter_arc(arc1, arc2) == FilterState::NoState {
                return Some(FilterState::NoState);
            }
            return Some(FilterState::Pair(BaseFilterState::Trivial, NO_LABEL));
        }
        let flabel = match self.fs {
            FilterState::Pair(_, l) => l,
            FilterState::Integer(l) => l,
            _ => NO_LABEL,
        };
        if flabel != NO_LABEL {
            if self.lookahead_output {
                return Some(self.pushed_label_filter_arc(arc1, arc2, flabel, reachable));
            } else {
                return Some(self.pushed_label_filter_arc(arc2, arc1, flabel, reachable));
            }
        }
        let fs1 = self.filter.filter_arc(arc1, arc2);
        if fs1 == FilterState::NoState {
            return Some(FilterState::NoState);
        }
        if !lookahead_arc {
            return Some(FilterState::Pair(BaseFilterState::Trivial, NO_LABEL));
        }
        if self.lookahead_output {
            self.push_label_filter_arc(arc1, arc2, BaseFilterState::Trivial, prefix)
        } else {
            self.push_label_filter_arc(arc2, arc1, BaseFilterState::Trivial, prefix)
        }
    }

    /// Vetoes finality while a label is pending.
    pub fn filter_final<W: Semiring>(&self, w1: &mut W, w2: &mut W)
        ensures
            *final(w2) == *old(w2),
            *final(w1) == (if self.lookahead_prefix && spec_pending(self.fs) != NO_LABEL {
                W::spec_zero()
            } else {
                *old(w1)
            }),
    {
        self.filter.filter_final(w1, w2);
        if !self.lookahead_prefix || w1.is_zero() {
            return;
        }
        let flabel = match self.fs {
            FilterState::Pair(_, l) => l,
            FilterState::Integer(l) => l,
            _ => NO_LABEL,
        };
        if flabel != NO_LABEL {
            *w1 = W::zero();
        }
    }
}

} // verus!
