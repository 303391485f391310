use vstd::prelude::*;
use crate::arc::{Arc, StateId};
use crate::compose::{
    lemma_register_new, lemma_table_bound, spec_pairs_ok, spec_successor, spec_tuple_in_range, ComposeError, ComposeFstImpl,
    ComposeFstImplOptions, ExpandSetup,
};
use crate::matcher::{MatchType, SortedMatcher};
use crate::connect::{connect, spec_accessible, spec_closed_forward, spec_connected};
use crate::filter_state::FilterState;
use crate::state_table::ComposeStateTuple;
use crate::fst::VectorFst;
use crate::semiring::Semiring;

verus! {

/// The filter strategies a composition can be asked for.
#[derive(Clone, Copy, PartialEq, Eq, Structural, Debug, Hash)]
pub enum ComposeFilterEnum {
    AutoFilter,
    NullFilter,
    TrivialFilter,
    SequenceFilter,
    AltSequenceFilter,
    MatchFilter,
    NoMatchFilter,
}

/// How `compose_with_config` composes: the filter strategy, and whether
/// to keep only accessible and co-accessible states afterwards.
#[derive(Clone, Copy, PartialEq, Eq, Structural, Debug, Hash)]
pub struct ComposeConfig {
    pub compose_filter: ComposeFilterEnum,
    pub connect: bool,
}

impl Default for ComposeConfig {
    fn default() -> (r: Self)
        ensures
            r.compose_filter == ComposeFilterEnum::AutoFilter,
            r.connect,
    {
        ComposeConfig { compose_filter: ComposeFilterEnum::AutoFilter, connect: true }
    }
}

/// Some state pair in range of the setup `x` has a failing expansion or a
/// failing final weight.
pub open spec fn spec_some_product_fails<W: Semiring>(x: ExpandSetup<W>) -> bool {
    exists|s1: StateId, s2: StateId|
        s1 < x.fst1.spec_num_states() && s2 < x.fst2.spec_num_states() && (!spec_pairs_ok(
            #[trigger] x.spec_expansion(s1, s2),
        ) || x.spec_final_weight(s1, s2) is Err)
}

/// `set` holds the successor of every pair that the expansion of any of its
/// tuples forms.
pub open spec fn spec_closed_successors<W: Semiring>(x: ExpandSetup<W>, set: Set<ComposeStateTuple>) -> bool {
    forall|t: ComposeStateTuple, k: int|
        #![trigger set.contains(t), x.spec_expansion(t.s1, t.s2)[k]]
        set.contains(t) && 0 <= k < x.spec_expansion(t.s1, t.s2).len() ==> set.contains(
            spec_successor(x.spec_expansion(t.s1, t.s2)[k]),
        )
}

/// The composed state `t` is reachable from `t0`: it lies in every set that
/// holds `t0` and the successors of its members' pairs.
pub open spec fn spec_reachable_tuple<W: Semiring>(
    x: ExpandSetup<W>,
    t0: ComposeStateTuple,
    t: ComposeStateTuple,
) -> bool {
    forall|set: Set<ComposeStateTuple>|
        set.contains(t0) && spec_closed_successors(x, set) ==> #[trigger] set.contains(t)
}

/// Some composed state reachable from `t0` has a failing expansion or a
/// failing final weight.
pub open spec fn spec_reachable_fails<W: Semiring>(x: ExpandSetup<W>, t0: ComposeStateTuple) -> bool {
    exists|t: ComposeStateTuple|
        #[trigger] spec_reachable_tuple(x, t0, t) && (!spec_pairs_ok(x.spec_expansion(t.s1, t.s2))
            || x.spec_final_weight(t.s1, t.s2) is Err)
}

/// The start tuple of the composition of `fst1` and `fst2`.
pub open spec fn spec_start_tuple<W>(fst1: VectorFst<W>, fst2: VectorFst<W>) -> ComposeStateTuple {
    ComposeStateTuple { fs: FilterState::Trivial, s1: fst1.start.unwrap(), s2: fst2.start.unwrap() }
}

/// Arc `i` of state `k` of `ofst` leads to state `j`.
pub open spec fn spec_arc_into<W: Copy>(ofst: VectorFst<W>, k: int, i: int, j: int) -> bool {
    0 <= i < ofst.spec_arcs(k).len() && ofst.spec_arcs(k)[i].nextstate as int == j
}

/// Each state of `ofst` below `n` but 0 has an arc into it from a state
/// below both it and `below`.
pub open spec fn spec_has_parents<W: Copy>(ofst: VectorFst<W>, n: int, below: int) -> bool {
    forall|j: int| 0 < j < n ==> #[trigger] spec_has_parent(ofst, below, j)
}

/// Some state below both `j` and `below` has an arc into `j`.
pub open spec fn spec_has_parent<W: Copy>(ofst: VectorFst<W>, below: int, j: int) -> bool {
    exists|k: int, i: int| 0 <= k < below && k < j && #[trigger] spec_arc_into(ofst, k, i, j)
}

proof fn lemma_parents_frame<W: Copy>(a: VectorFst<W>, b: VectorFst<W>, n: int, below: int)
    requires
        spec_has_parents(a, n, below),
        forall|k: int| 0 <= k < below ==> #[trigger] b.spec_arcs(k) == a.spec_arcs(k),
    ensures
        spec_has_parents(b, n, below),
{
    assert forall|j: int| 0 < j < n implies #[trigger] spec_has_parent(b, below, j) by {
        assert(spec_has_parent(a, below, j));
        let (k, i) = choose|k: int, i: int| 0 <= k < below && k < j && #[trigger] spec_arc_into(a, k, i, j);
        assert(b.spec_arcs(k) == a.spec_arcs(k));
        assert(spec_arc_into(b, k, i, j));
    }
}

/// With start 0 and an arc from a lower state into every other state, every
/// state is accessible.
proof fn lemma_parents_accessible<W: Copy>(ofst: VectorFst<W>, j: int)
    requires
        ofst.start == Some(0usize),
        spec_has_parents(ofst, ofst.spec_num_states() as int, ofst.spec_num_states() as int),
        0 <= j < ofst.spec_num_states(),
    ensures
        spec_accessible(ofst, j),
    decreases j,
{
    if j > 0 {
        assert(spec_has_parent(ofst, ofst.spec_num_states() as int, j));
        let (k, i) = choose|k: int, i: int|
            0 <= k < ofst.spec_num_states() && k < j && #[trigger] spec_arc_into(ofst, k, i, j);
        lemma_parents_accessible(ofst, k);
        assert forall|set: Set<int>|
            (ofst.start matches Some(st) ==> set.contains(st as int)) && spec_closed_forward(ofst, set)
                implies #[trigger] set.contains(j) by {
            assert(set.contains(k));
            assert(set.contains(ofst.spec_arcs(k)[i].nextstate as int));
        }
    }
}

/// One step of eager expansion from a fresh table: expanding state `next`
/// keeps every registered tuple reachable and gives every new state a parent.
proof fn lemma_expand_step<W: Semiring>(
    x: ExpandSetup<W>,
    t0: ComposeStateTuple,
    old_t: Seq<ComposeStateTuple>,
    new_t: Seq<ComposeStateTuple>,
    next: int,
    arcs: Seq<crate::arc::Arc<W>>,
    ofst0: VectorFst<W>,
    ofst: VectorFst<W>,
)
    requires
        0 <= next < old_t.len(),
        new_t == crate::compose::spec_register_pairs(old_t, x.spec_expansion(old_t[next].s1, old_t[next].s2)),
        crate::compose::spec_composed_arcs(new_t, arcs, x.spec_expansion(old_t[next].s1, old_t[next].s2)),
        forall|i: int, j: int| 0 <= i < new_t.len() && 0 <= j < new_t.len() && i != j ==> #[trigger] new_t[i] != #[trigger] new_t[j],
        forall|j: int| 0 <= j < old_t.len() ==> #[trigger] spec_reachable_tuple(x, t0, old_t[j]),
        spec_has_parents(ofst0, old_t.len() as int, next),
        ofst.spec_arcs(next) == arcs,
        forall|k: int| 0 <= k < next ==> #[trigger] ofst.spec_arcs(k) == ofst0.spec_arcs(k),
    ensures
        forall|j: int| 0 <= j < new_t.len() ==> #[trigger] spec_reachable_tuple(x, t0, new_t[j]),
        spec_has_parents(ofst, new_t.len() as int, next + 1),
{
    let t = old_t[next];
    let ps = x.spec_expansion(t.s1, t.s2);
    lemma_register_new(old_t, ps);
    assert(spec_reachable_tuple(x, t0, t));
    assert forall|j: int| 0 <= j < new_t.len() implies #[trigger] spec_reachable_tuple(x, t0, new_t[j]) by {
        if j < old_t.len() {
            assert(new_t[j] == old_t[j]);
        } else {
            let kk = choose|kk: int| 0 <= kk < ps.len() && #[trigger] new_t[j] == spec_successor(#[trigger] ps[kk]);
            assert forall|set: Set<ComposeStateTuple>|
                set.contains(t0) && spec_closed_successors(x, set) implies #[trigger] set.contains(new_t[j]) by {
                assert(set.contains(t));
                assert(set.contains(spec_successor(x.spec_expansion(t.s1, t.s2)[kk])));
            }
        }
    }
    lemma_parents_frame(ofst0, ofst, old_t.len() as int, next);
    assert forall|j: int| 0 < j < new_t.len() implies #[trigger] spec_has_parent(ofst, next + 1, j) by {
        if j < old_t.len() {
            assert(spec_has_parent(ofst, next, j));
            let (k, i) = choose|k: int, i: int| 0 <= k < next && k < j && #[trigger] spec_arc_into(ofst, k, i, j);
            assert(spec_arc_into(ofst, k, i, j));
        } else {
            let kk = choose|kk: int| 0 <= kk < ps.len() && #[trigger] new_t[j] == spec_successor(#[trigger] ps[kk]);
            assert(crate::compose::spec_composed_arc(new_t, arcs[kk], ps[kk]));
            assert(new_t[arcs[kk].nextstate as int] == new_t[j]);
            assert(spec_arc_into(ofst, next, kk, j));
        }
    }
}

/// The setup of a composition under the default matchers.
pub open spec fn spec_default_setup<W: Semiring>(fst1: VectorFst<W>, fst2: VectorFst<W>) -> ExpandSetup<W> {
    ExpandSetup {
        fst1,
        fst2,
        matcher1: SortedMatcher { match_type: MatchType::MatchOutput, require_match: false },
        matcher2: SortedMatcher { match_type: MatchType::MatchInput, require_match: false },
        drive1: true,
    }
}

/// The composition of two automata as a lazily expanded automaton.
pub struct ComposeFst<W> {
    pub fst_impl: ComposeFstImpl<W>,
}

/// `ofst` holds, state by state, what the engine `e` has cached: its arcs,
/// its final weight and its start.
pub open spec fn spec_materialized<W: Semiring>(
    e: ComposeFstImpl<W>,
    ofst: VectorFst<W>,
    n: int,
) -> bool {
    &&& ofst.spec_num_states() == n
    &&& forall|j: int|
        0 <= j < n ==> #[trigger] e.cache_impl.spec_arcs(j) == Some(ofst.spec_arcs(j)) && e.cache_impl.spec_final(j)
            == Some(ofst.spec_final(j))
}

impl<W: Semiring> ComposeFst<W> {
    /// The composition of `fst1` and `fst2` under the trivial filter, with
    /// the first automaton matched on output labels and the second on input
    /// labels.
    pub fn new(fst1: VectorFst<W>, fst2: VectorFst<W>) -> (r: Result<Self, ComposeError>)
        ensures
            r matches Ok(c) && c.fst_impl.inv() && c.fst_impl.fst1 == fst1 && c.fst_impl.fst2
                == fst2 && c.fst_impl.state_table@.len() == 0 && c.fst_impl.spec_match_input()
                && c.fst_impl.setup() == spec_default_setup(fst1, fst2)
                && (forall|id: int| #[trigger] c.fst_impl.cache_impl.spec_arcs(id).is_none())
                && (forall|id: int| #[trigger] c.fst_impl.cache_impl.spec_final(id).is_none()),
    {
        match ComposeFstImpl::new(fst1, fst2, ComposeFstImplOptions::default()) {
            Ok(e) => Ok(ComposeFst { fst_impl: e }),
            Err(e) => Err(e),
        }
    }

    /// Expands every registered state and every state reachable from the
    /// start, in id order, into a `VectorFst` whose state `j` is the composed
    /// state with id `j`. Succeeds where either automaton has no start;
    /// fails only where a weight product fails.
    pub fn compute(&mut self) -> (r: Result<VectorFst<W>, ComposeError>)
        requires
            old(self).fst_impl.inv(),
            old(self).fst_impl.spec_in_range(),
        ensures
            final(self).fst_impl.spec_grows_from(old(self).fst_impl),
            final(self).fst_impl.spec_in_range(),
            (old(self).fst_impl.fst1.start.is_none() || old(self).fst_impl.fst2.start.is_none()) ==> r is Ok,
            r is Err ==> spec_some_product_fails(old(self).fst_impl.setup()),
            old(self).fst_impl.state_table@.len() == 0 && r is Err ==> spec_reachable_fails(
                old(self).fst_impl.setup(),
                spec_start_tuple(old(self).fst_impl.fst1, old(self).fst_impl.fst2),
            ),
            old(self).fst_impl.state_table@.len() == 0 ==> (r matches Ok(ofst) ==> forall|s: int|
                0 <= s < ofst.spec_num_states() ==> #[trigger] spec_accessible(ofst, s)),
            match r {
                Ok(ofst) => {
                    &&& (old(self).fst_impl.fst1.start.is_none() || old(self).fst_impl.fst2.start.is_none())
                        ==> ofst.start.is_none() && ofst.spec_num_states() == 0
                    &&& (old(self).fst_impl.fst1.start.is_some() && old(self).fst_impl.fst2.start.is_some())
                        ==> ofst.start is Some && ofst.start.unwrap() < final(self).fst_impl.state_table@.len()
                        && final(self).fst_impl.state_table@[ofst.start.unwrap() as int] == (
                    crate::state_table::ComposeStateTuple {
                        fs: crate::filter_state::FilterState::Trivial,
                        s1: old(self).fst_impl.fst1.start.unwrap(),
                        s2: old(self).fst_impl.fst2.start.unwrap(),
                    })
                    &&& spec_materialized(
                        final(self).fst_impl,
                        ofst,
                        ofst.spec_num_states() as int,
                    )
                    &&& (ofst.start.is_some() ==> ofst.spec_num_states()
                        == final(self).fst_impl.state_table@.len() && ofst.spec_num_states() >= 1)
                },
                Err(e) => e == ComposeError::WeightArithmetic,
            },
    {
        let mut ofst: VectorFst<W> = VectorFst::new();
        let start = match self.fst_impl.compute_start() {
            Some(s) => s,
            None => return Ok(ofst),
        };
        let ghost t0 = self.fst_impl.state_table@[start as int];
        let ghost x = old(self).fst_impl.setup();
        let ghost fresh = old(self).fst_impl.state_table@.len() == 0;
        proof {
            if fresh {
                assert(self.fst_impl.state_table@.len() <= 1);
                assert forall|set: Set<ComposeStateTuple>|
                    set.contains(t0) && spec_closed_successors(x, set) implies #[trigger] set.contains(t0) by {}
            }
        }
        let ghost n1 = self.fst_impl.fst1.spec_num_states();
        let ghost n2 = self.fst_impl.fst2.spec_num_states();
        let ghost bound: int = (n1 * n2) as int;
        let mut next: usize = 0;
        while next < self.fst_impl.state_table.len()
            invariant
                self.fst_impl.spec_grows_from(old(self).fst_impl),
                self.fst_impl.spec_in_range(),
                n1 == self.fst_impl.fst1.spec_num_states(),
                n2 == self.fst_impl.fst2.spec_num_states(),
                bound == n1 * n2,
                start < self.fst_impl.state_table@.len(),
                old(self).fst_impl.fst1.start.is_some() && old(self).fst_impl.fst2.start.is_some(),
                self.fst_impl.state_table@[start as int] == t0,
                x == self.fst_impl.setup(),
                self.fst_impl.state_table@.len() >= 1,
                next <= self.fst_impl.state_table@.len(),
                spec_materialized(self.fst_impl, ofst, next as int),
                t0 == spec_start_tuple(old(self).fst_impl.fst1, old(self).fst_impl.fst2),
                fresh == (old(self).fst_impl.state_table@.len() == 0),
                fresh ==> start == 0,
                fresh ==> forall|j: int|
                    0 <= j < self.fst_impl.state_table@.len() ==> #[trigger] spec_reachable_tuple(
                        x,
                        t0,
                        self.fst_impl.state_table@[j],
                    ),
                fresh ==> spec_has_parents(ofst, self.fst_impl.state_table@.len() as int, next as int),
            decreases bound - next,
        {
            proof {
                lemma_table_bound(self.fst_impl.state_table, n1, n2);
            }
            let ghost before = self.fst_impl;
            let ghost t = self.fst_impl.state_table@[next as int];
            proof {
                assert(spec_tuple_in_range(t, n1, n2));
            }
            let arcs = match self.fst_impl.expand(next) {
                Ok(v) => v,
                Err(e) => {
                    proof {
                        assert(!spec_pairs_ok(x.spec_expansion(t.s1, t.s2)));
                        assert(spec_some_product_fails(x));
                        if fresh {
                            assert(spec_reachable_tuple(x, t0, t));
                            assert(spec_reachable_fails(x, t0));
                        }
                    }
                    return Err(e);
                },
            };
            let ghost mid = self.fst_impl;
            let wfinal = match self.fst_impl.compute_final(next) {
                Ok(f) => f,
                Err(e) => {
                    proof {
                        assert(mid.state_table@[next as int] == t);
                        assert(x.spec_final_weight(t.s1, t.s2) is Err);
                        assert(!spec_pairs_ok(x.spec_expansion(t.s1, t.s2)) || x.spec_final_weight(t.s1, t.s2) is Err);
                        assert(spec_some_product_fails(x));
                        if fresh {
                            assert(spec_reachable_tuple(x, t0, t));
                            assert(spec_reachable_fails(x, t0));
                        }
                    }
                    return Err(e);
                },
            };
            let ghost ofst0 = ofst;
            let s = ofst.add_state();
            let mut k: usize = 0;
            while k < arcs.len()
                invariant
                    s == next,
                    s < ofst.spec_num_states(),
                    ofst.spec_num_states() == next + 1,
                    k <= arcs@.len(),
                    ofst.spec_arcs(s as int) == arcs@.take(k as int),
                    ofst.spec_final(s as int).is_none(),
                    forall|j: int| 0 <= j < next ==> #[trigger] ofst.spec_arcs(j) == ofst0.spec_arcs(j)
                        && ofst.spec_final(j) == ofst0.spec_final(j),
                decreases arcs@.len() - k,
            {
                ofst.add_arc(s, arcs[k]);
                k = k + 1;
                proof {
                    assert(ofst.spec_arcs(s as int) =~= arcs@.take(k as int));
                }
            }
            proof {
                assert(arcs@.take(k as int) =~= arcs@);
            }
            match wfinal {
                Some(w) => ofst.set_final(s, w),
                None => {},
            }
            proof {
                assert forall|j: int| 0 <= j < next + 1 implies #[trigger] self.fst_impl.cache_impl.spec_arcs(j)
                    == Some(ofst.spec_arcs(j)) && self.fst_impl.cache_impl.spec_final(j)
                    == Some(ofst.spec_final(j)) by {
                    if j < next {
                        assert(before.cache_impl.spec_arcs(j) == Some(ofst0.spec_arcs(j)));
                        assert(ofst.spec_arcs(j) == ofst0.spec_arcs(j));
                    }
                }
            }
            proof {
                if fresh {
                    assert(ofst.spec_arcs(next as int) == arcs@);
                    assert forall|k2: int| 0 <= k2 < next implies #[trigger] ofst.spec_arcs(k2) == ofst0.spec_arcs(k2) by {}
                    lemma_expand_step(x, t0, before.state_table@, self.fst_impl.state_table@, next as int, arcs@, ofst0, ofst);
                }
            }
            next = next + 1;
        }
        let ghost pre = ofst;
        ofst.set_start(start);
        proof {
            if fresh {
                assert forall|k2: int| 0 <= k2 < next implies #[trigger] ofst.spec_arcs(k2) == pre.spec_arcs(k2) by {}
                lemma_parents_frame(pre, ofst, next as int, next as int);
                assert forall|q: int| 0 <= q < ofst.spec_num_states() implies #[trigger] spec_accessible(ofst, q) by {
                    lemma_parents_accessible(ofst, q);
                }
            }
        }
        Ok(ofst)
    }
}

/// `ofst` is what an engine over `fst1` and `fst2` under the trivial filter
/// has cached, state by state, once every state reachable from the start is
/// expanded; each of its states is reachable from its start, and without a
/// start it has no states.
pub open spec fn spec_composed_fst<W: Semiring>(
    fst1: VectorFst<W>,
    fst2: VectorFst<W>,
    ofst: VectorFst<W>,
) -> bool {
    exists|e: ComposeFstImpl<W>|
        e.fst1 == fst1 && e.fst2 == fst2 && e.inv() && e.spec_match_input()
            && spec_materialized(e, ofst, ofst.spec_num_states() as int) && (ofst.start.is_some()
            <==> (fst1.start.is_some() && fst2.start.is_some())) && (ofst.start.is_some()
            ==> ofst.start.unwrap() < ofst.spec_num_states() && ofst.spec_num_states() == e.state_table@.len()
            && e.state_table@[ofst.start.unwrap() as int] == (crate::state_table::ComposeStateTuple {
            fs: crate::filter_state::FilterState::Trivial,
            s1: fst1.start.unwrap(),
            s2: fst2.start.unwrap(),
        })) && (ofst.start.is_none() ==> ofst.spec_num_states() == 0) && (forall|s: int|
            0 <= s < ofst.spec_num_states() ==> #[trigger] spec_accessible(ofst, s))
}

/// Composes `fst1` and `fst2` eagerly. The trivial filter serves both
/// `TrivialFilter` and `AutoFilter`; other strategies are unsupported.
/// With `connect` set, only accessible and co-accessible states are kept.
/// Succeeds where either automaton has no start, and fails only where a
/// weight product fails at a composed state reachable from the start.
pub fn compose_with_config<W: Semiring>(
    fst1: VectorFst<W>,
    fst2: VectorFst<W>,
    config: ComposeConfig,
) -> (r: Result<VectorFst<W>, ComposeError>)
    requires
        fst1.wf(),
        fst2.wf(),
    ensures
        match config.compose_filter {
            ComposeFilterEnum::TrivialFilter | ComposeFilterEnum::AutoFilter => match r {
                Ok(ofst) => if config.connect {
                    exists|full: VectorFst<W>|
                        spec_composed_fst(fst1, fst2, full) && full.wf() && spec_connected(full, ofst)
                } else {
                    spec_composed_fst(fst1, fst2, ofst)
                },
                Err(e) => e == ComposeError::WeightArithmetic && (fst1.start is Some && fst2.start is Some)
                    && spec_reachable_fails(spec_default_setup(fst1, fst2), spec_start_tuple(fst1, fst2)),
            },
            _ => r == Err::<VectorFst<W>, ComposeError>(ComposeError::UnsupportedFilter),
        },
{
    match config.compose_filter {
        ComposeFilterEnum::TrivialFilter | ComposeFilterEnum::AutoFilter => {},
        _ => return Err(ComposeError::UnsupportedFilter),
    }
    let ghost f1 = fst1;
    let ghost f2 = fst2;
    let mut c = match ComposeFst::new(fst1, fst2) {
        Ok(c) => c,
        Err(e) => return Err(e),
    };
    proof {
        assert forall|j: int| 0 <= j < c.fst_impl.state_table@.len() implies crate::compose::spec_tuple_in_range(
            #[trigger] c.fst_impl.state_table@[j],
            c.fst_impl.fst1.spec_num_states(),
            c.fst_impl.fst2.spec_num_states(),
        ) by {}
    }
    let mut ofst = match c.compute() {
        Ok(o) => o,
        Err(e) => return Err(e),
    };
    proof {
        assert(spec_composed_fst(f1, f2, ofst));
    }
    if config.connect {
        let ghost full = ofst;
        proof {
            lemma_materialized_wf(c.fst_impl, ofst);
        }
        connect(&mut ofst);
    }
    Ok(ofst)
}

/// Composes `fst1` and `fst2` with the default configuration: the trivial
/// filter, then only accessible and co-accessible states.
pub fn compose<W: Semiring>(fst1: VectorFst<W>, fst2: VectorFst<W>) -> (r: Result<VectorFst<W>, ComposeError>)
    requires
        fst1.wf(),
        fst2.wf(),
    ensures
        match r {
            Ok(ofst) => exists|full: VectorFst<W>|
                spec_composed_fst(fst1, fst2, full) && full.wf() && spec_connected(full, ofst),
            Err(e) => e == ComposeError::WeightArithmetic && (fst1.start is Some && fst2.start is Some)
                && spec_reachable_fails(spec_default_setup(fst1, fst2), spec_start_tuple(fst1, fst2)),
        },
{
    let config = ComposeConfig::default();
    compose_with_config(fst1, fst2, config)
}

/// Every arc of a materialized composition leads to one of its states.
proof fn lemma_materialized_wf<W: Semiring>(e: ComposeFstImpl<W>, ofst: VectorFst<W>)
    requires
        e.inv(),
        spec_materialized(e, ofst, ofst.spec_num_states() as int),
        ofst.start.is_some() ==> ofst.start.unwrap() < ofst.spec_num_states()
            && ofst.spec_num_states() == e.state_table@.len(),
        ofst.start.is_none() ==> ofst.spec_num_states() == 0,
    ensures
        ofst.wf(),
{
    assert forall|s: int, i: int|
        0 <= s < ofst.states@.len() && 0 <= i < ofst.states@[s].arcs@.len()
            implies #[trigger] ofst.states@[s].arcs@[i].nextstate < ofst.states@.len() by {
        assert(e.spec_arcs_entry_ok(s));
        assert(ofst.spec_arcs(s)[i] == ofst.states@[s].arcs@[i]);
        let ps = e.setup().spec_expansion(e.spec_tuple(s).s1, e.spec_tuple(s).s2);
        assert(crate::compose::spec_composed_arc(e.state_table@, ofst.spec_arcs(s)[i], ps[i]));
    }
}

} // verus!
