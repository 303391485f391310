use vstd::prelude::*;
use vstd::set_lib::{lemma_int_range, lemma_len_subset, set_int_range};
use crate::arc::{Arc, StateId, EPS_LABEL, NO_LABEL};
use crate::cache::{copy_arcs, CacheImpl};
use crate::filter_state::FilterState;
use crate::fst::VectorFst;
use crate::matcher::{arcs_sorted, spec_fst_sorted, spec_lookup_label, spec_loop_arc, spec_matches, spec_select, spec_side_label, MatchType, SortedMatcher};
use crate::semiring::Semiring;
use crate::state_table::{ComposeStateTuple, StateTable};
use crate::trivial_filter::TrivialComposeFilter;

verus! {

/// Why a composition could not be built or expanded.
#[derive(Clone, Copy, PartialEq, Eq, Structural, Debug, Hash)]
pub enum ComposeError {
    /// The first matcher demands matching but does not index output labels.
    Matcher1CannotRequireMatch,
    /// The second matcher demands matching but does not index input labels.
    Matcher2CannotRequireMatch,
    /// The first matcher cannot match on output labels and the second cannot
    /// match on input labels.
    NoMatchingSide,
    /// A matcher that demands matching sits on arcs not sorted on its side.
    UnsortedArcs,
    /// A product of weights failed.
    WeightArithmetic,
    /// The filter strategy asked for has no implementation.
    UnsupportedFilter,
}

/// Optional parts of a composition: matchers, filter and state table.
pub struct ComposeFstOptions<M, CF, ST> {
    pub matcher1: Option<M>,
    pub matcher2: Option<M>,
    pub filter: Option<CF>,
    pub state_table: Option<ST>,
}

impl<M, CF, ST> ComposeFstOptions<M, CF, ST> {
    pub fn new(
        matcher1: Option<M>,
        matcher2: Option<M>,
        filter: Option<CF>,
        state_table: Option<ST>,
    ) -> (r: Self)
        ensures
            r.matcher1 == matcher1,
            r.matcher2 == matcher2,
            r.filter == filter,
            r.state_table == state_table,
    {
        ComposeFstOptions { matcher1, matcher2, filter, state_table }
    }
}

/// Optional parts of a composition engine, one matcher type per side.
pub struct ComposeFstImplOptions<M1, M2, CF, ST> {
    pub matcher1: Option<M1>,
    pub matcher2: Option<M2>,
    pub filter: Option<CF>,
    pub state_table: Option<ST>,
    pub allow_noncommute: bool,
}

impl<M1, M2, CF, ST> ComposeFstImplOptions<M1, M2, CF, ST> {
    pub fn new(
        matcher1: Option<M1>,
        matcher2: Option<M2>,
        filter: Option<CF>,
        state_table: Option<ST>,
        allow_noncommute: bool,
    ) -> (r: Self)
        ensures
            r.matcher1 == matcher1,
            r.matcher2 == matcher2,
            r.filter == filter,
            r.state_table == state_table,
            r.allow_noncommute == allow_noncommute,
    {
        ComposeFstImplOptions { matcher1, matcher2, filter, state_table, allow_noncommute }
    }
}

impl<M1, M2, CF, ST> Default for ComposeFstImplOptions<M1, M2, CF, ST> {
    fn default() -> (r: Self)
        ensures
            r.matcher1.is_none(),
            r.matcher2.is_none(),
            r.filter.is_none(),
            r.state_table.is_none(),
            !r.allow_noncommute,
    {
        ComposeFstImplOptions {
            matcher1: None,
            matcher2: None,
            filter: None,
            state_table: None,
            allow_noncommute: false,
        }
    }
}

/// Which way the engine matches, from the two matchers' declarations.
pub open spec fn spec_match_type(m1: SortedMatcher, m2: SortedMatcher) -> Result<
    MatchType,
    ComposeError,
> {
    if m1.require_match && m1.match_type != MatchType::MatchOutput {
        Err(ComposeError::Matcher1CannotRequireMatch)
    } else if m2.require_match && m2.match_type != MatchType::MatchInput {
        Err(ComposeError::Matcher2CannotRequireMatch)
    } else if m1.match_type == MatchType::MatchOutput && m2.match_type == MatchType::MatchInput {
        Ok(MatchType::MatchBoth)
    } else if m1.match_type == MatchType::MatchOutput {
        Ok(MatchType::MatchOutput)
    } else if m2.match_type == MatchType::MatchInput {
        Ok(MatchType::MatchInput)
    } else {
        Err(ComposeError::NoMatchingSide)
    }
}

/// A matcher that demands matching has arcs sorted on its side.
pub open spec fn spec_sort_ok<W: Copy>(fst: VectorFst<W>, m: SortedMatcher) -> bool {
    m.require_match ==> spec_fst_sorted(fst, m.match_type)
}

/// The "stay" arc of the first automaton when it drives.
pub open spec fn spec_stay1<W: Semiring>(s1: StateId) -> Arc<W> {
    Arc { ilabel: EPS_LABEL, olabel: NO_LABEL, weight: W::spec_one(), nextstate: s1 }
}

/// The "stay" arc of the second automaton when it drives.
pub open spec fn spec_stay2<W: Semiring>(s2: StateId) -> Arc<W> {
    Arc { ilabel: NO_LABEL, olabel: EPS_LABEL, weight: W::spec_one(), nextstate: s2 }
}

/// The composed arc `r` stands for the pair `p` (side-1 arc first) through
/// the state table `table`.
pub open spec fn spec_composed_arc<W: Semiring>(
    table: Seq<ComposeStateTuple>,
    r: Arc<W>,
    p: (Arc<W>, Arc<W>),
) -> bool {
    &&& r.ilabel == p.0.ilabel
    &&& r.olabel == p.1.olabel
    &&& W::spec_times(p.0.weight, p.1.weight) == Some(r.weight)
    &&& r.nextstate < table.len()
    &&& table[r.nextstate as int] == (ComposeStateTuple {
        fs: FilterState::Trivial,
        s1: p.0.nextstate,
        s2: p.1.nextstate,
    })
}

pub open spec fn spec_composed_arcs<W: Semiring>(
    table: Seq<ComposeStateTuple>,
    rs: Seq<Arc<W>>,
    ps: Seq<(Arc<W>, Arc<W>)>,
) -> bool {
    &&& rs.len() == ps.len()
    &&& forall|k: int| 0 <= k < ps.len() ==> spec_composed_arc(table, #[trigger] rs[k], ps[k])
}

/// Every pair's weight product is defined.
pub open spec fn spec_pairs_ok<W: Semiring>(ps: Seq<(Arc<W>, Arc<W>)>) -> bool {
    forall|k: int| 0 <= k < ps.len() ==> (#[trigger] W::spec_times(ps[k].0.weight, ps[k].1.weight)).is_some()
}

/// The tuple that the trivial filter gives the successor of pair `p`.
pub open spec fn spec_successor<W>(p: (Arc<W>, Arc<W>)) -> ComposeStateTuple {
    ComposeStateTuple { fs: FilterState::Trivial, s1: p.0.nextstate, s2: p.1.nextstate }
}

/// `table` after looking up `t`: unchanged if `t` is known, else `t` appended.
pub open spec fn spec_register(table: Seq<ComposeStateTuple>, t: ComposeStateTuple) -> Seq<
    ComposeStateTuple,
> {
    if table.contains(t) {
        table
    } else {
        table.push(t)
    }
}

/// `table` after looking up the successors of `ps`, in order.
pub open spec fn spec_register_pairs<W>(
    table: Seq<ComposeStateTuple>,
    ps: Seq<(Arc<W>, Arc<W>)>,
) -> Seq<ComposeStateTuple>
    decreases ps.len(),
{
    if ps.len() == 0 {
        table
    } else {
        spec_register(spec_register_pairs(table, ps.drop_last()), spec_successor(ps.last()))
    }
}

proof fn lemma_register_concat<W>(
    table: Seq<ComposeStateTuple>,
    a: Seq<(Arc<W>, Arc<W>)>,
    b: Seq<(Arc<W>, Arc<W>)>,
)
    ensures
        spec_register_pairs(table, a.add(b)) == spec_register_pairs(spec_register_pairs(table, a), b),
    decreases b.len(),
{
    if b.len() == 0 {
        assert(a.add(b) =~= a);
    } else {
        lemma_register_concat(table, a, b.drop_last());
        assert(a.add(b).drop_last() =~= a.add(b.drop_last()));
        assert(a.add(b).last() == b.last());
    }
}

/// Registering successors that are all known changes nothing.
proof fn lemma_register_known<W>(table: Seq<ComposeStateTuple>, ps: Seq<(Arc<W>, Arc<W>)>)
    requires
        forall|k: int| 0 <= k < ps.len() ==> table.contains(#[trigger] spec_successor(ps[k])),
    ensures
        spec_register_pairs(table, ps) == table,
    decreases ps.len(),
{
    if ps.len() > 0 {
        let r = ps.drop_last();
        assert forall|k: int| 0 <= k < r.len() implies table.contains(#[trigger] spec_successor(r[k])) by {
            assert(r[k] == ps[k]);
        }
        lemma_register_known(table, r);
        assert(table.contains(spec_successor(ps[ps.len() - 1])));
    }
}

/// The successors of composed arcs are registered.
proof fn lemma_composed_known<W: Semiring>(
    table: Seq<ComposeStateTuple>,
    rs: Seq<Arc<W>>,
    ps: Seq<(Arc<W>, Arc<W>)>,
)
    requires
        spec_composed_arcs(table, rs, ps),
    ensures
        spec_register_pairs(table, ps) == table,
{
    assert forall|k: int| 0 <= k < ps.len() implies table.contains(#[trigger] spec_successor(ps[k])) by {
        assert(spec_composed_arc(table, rs[k], ps[k]));
        assert(table[rs[k].nextstate as int] == spec_successor(ps[k]));
    }
    lemma_register_known(table, ps);
}

/// What an expansion reads: the two automata, the two matchers and the
/// driver side (`drive1`: the first automaton's arcs are enumerated).
pub struct ExpandSetup<W> {
    pub fst1: VectorFst<W>,
    pub fst2: VectorFst<W>,
    pub matcher1: SortedMatcher,
    pub matcher2: SortedMatcher,
    pub drive1: bool,
}

impl<W: Semiring> ExpandSetup<W> {
    /// The candidate arcs of the driver side: its "stay" arc, then its arcs.
    pub open spec fn spec_driver_arcs(&self, s1: StateId, s2: StateId) -> Seq<Arc<W>> {
        if self.drive1 {
            seq![spec_stay1::<W>(s1)].add(self.fst1.spec_arcs(s1 as int))
        } else {
            seq![spec_stay2::<W>(s2)].add(self.fst2.spec_arcs(s2 as int))
        }
    }

    /// The peer arcs that the peer matcher returns for driver arc `b`.
    pub open spec fn spec_peers(&self, b: Arc<W>, s1: StateId, s2: StateId) -> Seq<Arc<W>> {
        if self.drive1 {
            spec_matches(self.fst2, s2, b.olabel, self.matcher2.match_type)
        } else {
            spec_matches(self.fst1, s1, b.ilabel, self.matcher1.match_type)
        }
    }

    /// The pairs formed with driver arc `b`, side-1 arc first.
    pub open spec fn spec_pairs_for(&self, b: Arc<W>, s1: StateId, s2: StateId) -> Seq<(Arc<W>, Arc<W>)> {
        let drive1 = self.drive1;
        self.spec_peers(b, s1, s2).map_values(
            |a: Arc<W>|
                if drive1 {
                    (b, a)
                } else {
                    (a, b)
                },
        )
    }

    pub open spec fn spec_pairs(&self, drivers: Seq<Arc<W>>, s1: StateId, s2: StateId) -> Seq<
        (Arc<W>, Arc<W>),
    >
        decreases drivers.len(),
    {
        if drivers.len() == 0 {
            Seq::empty()
        } else {
            self.spec_pairs(drivers.drop_last(), s1, s2).add(
                self.spec_pairs_for(drivers.last(), s1, s2),
            )
        }
    }

    /// The matched pairs at the composed state with components `s1`, `s2`,
    /// in the order in which their composed arcs are listed.
    pub open spec fn spec_expansion(&self, s1: StateId, s2: StateId) -> Seq<(Arc<W>, Arc<W>)> {
        self.spec_pairs(self.spec_driver_arcs(s1, s2), s1, s2)
    }

    /// The final weight of the composed state with components `s1`, `s2`.
    pub open spec fn spec_final_weight(&self, s1: StateId, s2: StateId) -> Result<
        Option<W>,
        ComposeError,
    > {
        match (self.fst1.spec_final(s1 as int), self.fst2.spec_final(s2 as int)) {
            (Some(w1), Some(w2)) => match W::spec_times(w1, w2) {
                Some(p) => if p == W::spec_zero() {
                    Ok(None)
                } else {
                    Ok(Some(p))
                },
                None => Err(ComposeError::WeightArithmetic),
            },
            _ => Ok(None),
        }
    }
}

/// A table may only grow: the old one is a prefix of the new one.
pub proof fn lemma_composed_grow<W: Semiring>(
    t1: Seq<ComposeStateTuple>,
    t2: Seq<ComposeStateTuple>,
    rs: Seq<Arc<W>>,
    ps: Seq<(Arc<W>, Arc<W>)>,
)
    requires
        t1.is_prefix_of(t2),
        spec_composed_arcs(t1, rs, ps),
    ensures
        spec_composed_arcs(t2, rs, ps),
{
    assert forall|k: int| 0 <= k < ps.len() implies spec_composed_arc(t2, #[trigger] rs[k], ps[k]) by {
        assert(spec_composed_arc(t1, rs[k], ps[k]));
        assert(t2[rs[k].nextstate as int] == t1[rs[k].nextstate as int]);
    }
}

/// Composed arcs of two consecutive runs of pairs make those of the whole run.
proof fn lemma_composed_concat<W: Semiring>(
    table: Seq<ComposeStateTuple>,
    rs: Seq<Arc<W>>,
    ps1: Seq<(Arc<W>, Arc<W>)>,
    ps2: Seq<(Arc<W>, Arc<W>)>,
)
    requires
        rs.len() == ps1.len() + ps2.len(),
        spec_composed_arcs(table, rs.take(ps1.len() as int), ps1),
        spec_composed_arcs(table, rs.skip(ps1.len() as int), ps2),
        spec_pairs_ok(ps1),
        spec_pairs_ok(ps2),
    ensures
        spec_composed_arcs(table, rs, ps1.add(ps2)),
        spec_pairs_ok(ps1.add(ps2)),
{
    let ps = ps1.add(ps2);
    let n = ps1.len() as int;
    assert forall|k: int| 0 <= k < ps.len() implies spec_composed_arc(table, #[trigger] rs[k], ps[k]) by {
        if k < n {
            assert(rs.take(n)[k] == rs[k]);
            assert(spec_composed_arc(table, rs.take(n)[k], ps1[k]));
        } else {
            assert(rs.skip(n)[k - n] == rs[k]);
            assert(spec_composed_arc(table, rs.skip(n)[k - n], ps2[k - n]));
        }
    }
    assert forall|k: int| 0 <= k < ps.len() implies (#[trigger] W::spec_times(
        ps[k].0.weight,
        ps[k].1.weight,
    )).is_some() by {
        if k < n {
            assert(W::spec_times(ps1[k].0.weight, ps1[k].1.weight).is_some());
        } else {
            assert(W::spec_times(ps2[k - n].0.weight, ps2[k - n].1.weight).is_some());
        }
    }
}

/// The pairs of a run of composed arcs all have a defined product.
proof fn lemma_composed_pairs_ok<W: Semiring>(
    table: Seq<ComposeStateTuple>,
    rs: Seq<Arc<W>>,
    ps: Seq<(Arc<W>, Arc<W>)>,
)
    requires
        spec_composed_arcs(table, rs, ps),
    ensures
        spec_pairs_ok(ps),
{
    assert forall|k: int| 0 <= k < ps.len() implies (#[trigger] W::spec_times(
        ps[k].0.weight,
        ps[k].1.weight,
    )).is_some() by {
        assert(spec_composed_arc(table, rs[k], ps[k]));
    }
}

/// The lazily built composition of two transducers under the trivial filter.
pub struct ComposeFstImpl<W> {
    pub fst1: VectorFst<W>,
    pub fst2: VectorFst<W>,
    pub compose_filter: TrivialComposeFilter,
    pub cache_impl: CacheImpl<W>,
    pub state_table: StateTable,
    pub match_type: MatchType,
}

impl<W: Semiring> ComposeFstImpl<W> {
    /// Matching on the second automaton's input labels, with the first
    /// automaton driving. `MatchBoth` is resolved this way too.
    pub open spec fn spec_match_input(&self) -> bool {
        self.match_type != MatchType::MatchOutput
    }

    pub open spec fn setup(&self) -> ExpandSetup<W> {
        ExpandSetup {
            fst1: self.fst1,
            fst2: self.fst2,
            matcher1: self.compose_filter.matcher1,
            matcher2: self.compose_filter.matcher2,
            drive1: self.spec_match_input(),
        }
    }

    pub open spec fn spec_tuple(&self, id: int) -> ComposeStateTuple {
        self.state_table@[id]
    }

    /// The cache entry of `id`, if any, holds what expansion computes.
    pub open spec fn spec_arcs_entry_ok(&self, id: int) -> bool {
        match self.cache_impl.spec_arcs(id) {
            Some(v) => 0 <= id < self.state_table@.len() && spec_composed_arcs(
                self.state_table@,
                v,
                self.setup().spec_expansion(self.spec_tuple(id).s1, self.spec_tuple(id).s2),
            ),
            None => true,
        }
    }

    /// The cached final weight of `id`, if any, is the computed one.
    pub open spec fn spec_final_entry_ok(&self, id: int) -> bool {
        match self.cache_impl.spec_final(id) {
            Some(f) => 0 <= id < self.state_table@.len() && self.setup().spec_final_weight(
                self.spec_tuple(id).s1,
                self.spec_tuple(id).s2,
            ) == Ok::<Option<W>, ComposeError>(f),
            None => true,
        }
    }

    /// The table is a bijection, the peer matcher indexes the peer's side,
    /// and every cache entry holds what expansion computes.
    pub open spec fn inv(&self) -> bool {
        &&& self.state_table.wf()
        &&& self.spec_match_input() ==> self.compose_filter.matcher2.match_type
            == MatchType::MatchInput
        &&& !self.spec_match_input() ==> self.compose_filter.matcher1.match_type
            == MatchType::MatchOutput
        &&& spec_sort_ok(self.fst1, self.compose_filter.matcher1)
        &&& spec_sort_ok(self.fst2, self.compose_filter.matcher2)
        &&& forall|id: int| #[trigger] self.spec_arcs_entry_ok(id)
        &&& forall|id: int| #[trigger] self.spec_final_entry_ok(id)
    }

    /// Both automata are well formed and every registered tuple is one that
    /// the trivial filter can reach.
    pub open spec fn spec_in_range(&self) -> bool {
        &&& self.fst1.wf()
        &&& self.fst2.wf()
        &&& forall|j: int|
            0 <= j < self.state_table@.len() ==> spec_tuple_in_range(
                #[trigger] self.state_table@[j],
                self.fst1.spec_num_states(),
                self.fst2.spec_num_states(),
            )
    }

    /// Expanding from `(s1, s2)` with driver arc `arc` stays in range.
    pub open spec fn spec_ranged_call(&self, s1: StateId, s2: StateId, arc: Arc<W>) -> bool {
        &&& self.spec_in_range()
        &&& s1 < self.fst1.spec_num_states()
        &&& s2 < self.fst2.spec_num_states()
        &&& if self.spec_match_input() {
            arc.nextstate < self.fst1.spec_num_states()
        } else {
            arc.nextstate < self.fst2.spec_num_states()
        }
    }

    /// What an operation that only registers tuples keeps.
    pub open spec fn spec_grows_from(&self, old: Self) -> bool {
        &&& self.setup() == old.setup()
        &&& self.fst1 == old.fst1
        &&& self.fst2 == old.fst2
        &&& self.compose_filter == old.compose_filter
        &&& self.match_type == old.match_type
        &&& old.state_table@.is_prefix_of(self.state_table@)
        &&& self.inv()
    }

    proof fn lemma_inv_grow(old: Self, new: Self)
        requires
            old.inv(),
            new.state_table.wf(),
            new.fst1 == old.fst1,
            new.fst2 == old.fst2,
            new.compose_filter == old.compose_filter,
            new.match_type == old.match_type,
            new.cache_impl == old.cache_impl,
            old.state_table@.is_prefix_of(new.state_table@),
        ensures
            new.inv(),
            new.spec_grows_from(old),
    {
        assert forall|id: int| #[trigger] new.spec_arcs_entry_ok(id) by {
            assert(old.spec_arcs_entry_ok(id));
            if let Some(v) = new.cache_impl.spec_arcs(id) {
                assert(new.spec_tuple(id) == old.spec_tuple(id));
                lemma_composed_grow(
                    old.state_table@,
                    new.state_table@,
                    v,
                    old.setup().spec_expansion(old.spec_tuple(id).s1, old.spec_tuple(id).s2),
                );
            }
        }
        assert forall|id: int| #[trigger] new.spec_final_entry_ok(id) by {
            assert(old.spec_final_entry_ok(id));
            if new.cache_impl.spec_final(id).is_some() {
                assert(new.spec_tuple(id) == old.spec_tuple(id));
            }
        }
    }
}

impl<W: Semiring> ComposeFstImpl<W> {
    /// Resolves the matching direction once: a matcher that demands matching
    /// must index its own side (output for the first, input for the second).
    pub fn match_type(matcher1: &SortedMatcher, matcher2: &SortedMatcher) -> (r: Result<
        MatchType,
        ComposeError,
    >)
        ensures
            r == spec_match_type(*matcher1, *matcher2),
    {
        if matcher1.require_match() && matcher1.match_type() != MatchType::MatchOutput {
            return Err(ComposeError::Matcher1CannotRequireMatch);
        }
        if matcher2.require_match() && matcher2.match_type() != MatchType::MatchInput {
            return Err(ComposeError::Matcher2CannotRequireMatch);
        }
        let type1 = matcher1.match_type();
        let type2 = matcher2.match_type();
        if type1 == MatchType::MatchOutput && type2 == MatchType::MatchInput {
            Ok(MatchType::MatchBoth)
        } else if type1 == MatchType::MatchOutput {
            Ok(MatchType::MatchOutput)
        } else if type2 == MatchType::MatchInput {
            Ok(MatchType::MatchInput)
        } else {
            Err(ComposeError::NoMatchingSide)
        }
    }

    /// Builds the engine over `fst1` and `fst2`. Without a filter in `opts`
    /// the trivial filter is made from the matchers in `opts`.
    pub fn new(
        fst1: VectorFst<W>,
        fst2: VectorFst<W>,
        opts: ComposeFstImplOptions<SortedMatcher, SortedMatcher, TrivialComposeFilter, StateTable>,
    ) -> (r: Result<Self, ComposeError>)
        requires
            opts.state_table matches Some(t) ==> t.wf(),
        ensures
            ({
                let filter = match opts.filter {
                    Some(f) => f,
                    None => TrivialComposeFilter {
                        matcher1: match opts.matcher1 {
                            Some(m) => m,
                            None => SortedMatcher {
                                match_type: MatchType::MatchOutput,
                                require_match: false,
                            },
                        },
                        matcher2: match opts.matcher2 {
                            Some(m) => m,
                            None => SortedMatcher {
                                match_type: MatchType::MatchInput,
                                require_match: false,
                            },
                        },
                    },
                };
                match spec_match_type(filter.matcher1, filter.matcher2) {
                    Ok(_) if !spec_sort_ok(fst1, filter.matcher1) || !spec_sort_ok(fst2, filter.matcher2)
                        => r == Err::<Self, ComposeError>(ComposeError::UnsortedArcs),
                    Ok(mt) => r matches Ok(e) && e.inv() && e.fst1 == fst1 && e.fst2 == fst2
                        && e.compose_filter == filter && e.match_type == mt
                        && e.state_table@ == (match opts.state_table {
                        Some(t) => t@,
                        None => Seq::empty(),
                    }) && (forall|id: int| #[trigger] e.cache_impl.spec_arcs(id).is_none())
                        && (forall|id: int| #[trigger] e.cache_impl.spec_final(id).is_none()),
                    Err(err) => r == Err::<Self, ComposeError>(err),
                }
            }),
    {
        let compose_filter = match opts.filter {
            Some(f) => f,
            None => TrivialComposeFilter::new(opts.matcher1, opts.matcher2),
        };
        let matcher1 = compose_filter.matcher1();
        let matcher2 = compose_filter.matcher2();
        let match_type = match Self::match_type(&matcher1, &matcher2) {
            Ok(mt) => mt,
            Err(e) => return Err(e),
        };
        if matcher1.require_match() && !arcs_sorted(&fst1, matcher1.match_type()) {
            return Err(ComposeError::UnsortedArcs);
        }
        if matcher2.require_match() && !arcs_sorted(&fst2, matcher2.match_type()) {
            return Err(ComposeError::UnsortedArcs);
        }
        let state_table = match opts.state_table {
            Some(t) => t,
            None => StateTable::new(),
        };
        let e = ComposeFstImpl {
            fst1,
            fst2,
            compose_filter,
            cache_impl: CacheImpl::new(),
            state_table,
            match_type,
        };
        proof {
            assert forall|id: int| #[trigger] e.spec_arcs_entry_ok(id) by {
                assert(e.cache_impl.spec_arcs(id).is_none());
            }
            assert forall|id: int| #[trigger] e.spec_final_entry_ok(id) by {
                assert(e.cache_impl.spec_final(id).is_none());
            }
        }
        Ok(e)
    }

    /// Whether the first automaton drives, matching on the second's input labels.
    pub fn match_input(&self, s1: StateId, s2: StateId) -> (r: bool)
        ensures
            r == self.spec_match_input(),
    {
        match self.match_type {
            MatchType::MatchInput => true,
            MatchType::MatchOutput => false,
            MatchType::MatchBoth => true,
        }
    }

    /// Registers the successor of the pair `(arc1, arc2)` and appends the
    /// composed arc to `out`; fails, changing nothing, where the weight
    /// product fails.
    fn add_arc(&mut self, out: &mut Vec<Arc<W>>, arc1: Arc<W>, arc2: Arc<W>, fs: FilterState) -> (r:
        Result<(), ComposeError>)
        requires
            old(self).inv(),
            fs == FilterState::Trivial,
        ensures
            final(self).spec_grows_from(*old(self)),
            final(self).cache_impl == old(self).cache_impl,
            r.is_ok() == W::spec_times(arc1.weight, arc2.weight).is_some(),
            r.is_ok() ==> final(self).state_table@ == spec_register(
                old(self).state_table@,
                spec_successor((arc1, arc2)),
            ),
            r.is_ok() && old(self).state_table@.contains(spec_successor((arc1, arc2)))
                ==> final(out)@.last().nextstate == old(self).state_table.spec_id_of(
                spec_successor((arc1, arc2)),
            ),
            r.is_ok() && !old(self).state_table@.contains(spec_successor((arc1, arc2)))
                ==> final(out)@.last().nextstate == old(self).state_table@.len(),
            r.is_ok() ==> final(out)@.len() == old(out)@.len() + 1 && final(out)@.drop_last()
                == old(out)@ && spec_composed_arc(
                final(self).state_table@,
                final(out)@.last(),
                (arc1, arc2),
            ),
            r.is_err() ==> final(out)@ == old(out)@ && *final(self) == *old(self) && r
                == Err::<(), ComposeError>(ComposeError::WeightArithmetic),
            old(self).spec_in_range() && arc1.nextstate < old(self).fst1.spec_num_states()
                && arc2.nextstate < old(self).fst2.spec_num_states() ==> final(self).spec_in_range(),
    {
        let tuple = ComposeStateTuple { fs, s1: arc1.nextstate, s2: arc2.nextstate };
        let weight = match arc1.weight.times(&arc2.weight) {
            Some(w) => w,
            None => return Err(ComposeError::WeightArithmetic),
        };
        let ghost before = *self;
        let id = self.state_table.find_id(tuple);
        proof {
            assert(before.state_table@.is_prefix_of(self.state_table@));
            Self::lemma_inv_grow(before, *self);
        }
        out.push(Arc::new(arc1.ilabel, arc2.olabel, weight, id));
        proof {
            assert(out@.drop_last() =~= old(out)@);
        }
        Ok(())
    }

    /// Pairs the driver arc `arc` with every arc that the peer matcher
    /// returns for it, appending the composed arcs to `out`.
    fn match_arc(&mut self, out: &mut Vec<Arc<W>>, s1: StateId, s2: StateId, arc: Arc<W>) -> (r:
        Result<(), ComposeError>)
        requires
            old(self).inv(),
        ensures
            final(self).spec_grows_from(*old(self)),
            final(self).cache_impl == old(self).cache_impl,
            ({
                let ps = old(self).setup().spec_pairs_for(arc, s1, s2);
                match r {
                    Ok(_) => spec_pairs_ok(ps) && final(out)@.len() == old(out)@.len() + ps.len()
                        && final(self).state_table@ == spec_register_pairs(old(self).state_table@, ps)
                        && final(out)@.take(old(out)@.len() as int) == old(out)@
                        && spec_composed_arcs(
                        final(self).state_table@,
                        final(out)@.skip(old(out)@.len() as int),
                        ps,
                    ),
                    Err(e) => e == ComposeError::WeightArithmetic && !spec_pairs_ok(ps),
                }
            }),
            old(self).spec_ranged_call(s1, s2, arc) ==> final(self).spec_in_range(),
    {
        let ghost ps = self.setup().spec_pairs_for(arc, s1, s2);
        let ghost n0 = out@.len() as int;
        let drive1 = self.match_input(s1, s2);
        let peers = if drive1 {
            self.compose_filter.matcher2.iter(&self.fst2, s2, arc.olabel)
        } else {
            self.compose_filter.matcher1.iter(&self.fst1, s1, arc.ilabel)
        };
        let mut i: usize = 0;
        while i < peers.len()
            invariant
                self.spec_grows_from(*old(self)),
                self.cache_impl == old(self).cache_impl,
                drive1 == self.spec_match_input(),
                peers@ == old(self).setup().spec_peers(arc, s1, s2),
                ps == old(self).setup().spec_pairs_for(arc, s1, s2),
                ps.len() == peers@.len(),
                i <= peers@.len(),
                n0 == old(out)@.len(),
                out@.len() == n0 + i,
                out@.take(n0) == old(out)@,
                spec_pairs_ok(ps.take(i as int)),
                spec_composed_arcs(self.state_table@, out@.skip(n0), ps.take(i as int)),
                self.state_table@ == spec_register_pairs(old(self).state_table@, ps.take(i as int)),
                old(self).spec_ranged_call(s1, s2, arc) ==> self.spec_in_range(),
            decreases peers@.len() - i,
        {
            proof {
                if old(self).spec_ranged_call(s1, s2, arc) {
                    if drive1 {
                        lemma_matches_in_range(self.fst2, s2, arc.olabel, self.compose_filter.matcher2.match_type, i as int);
                    } else {
                        lemma_matches_in_range(self.fst1, s1, arc.ilabel, self.compose_filter.matcher1.match_type, i as int);
                    }
                }
            }
            let mut arca = peers[i];
            let mut arcb = arc;
            let ghost out_before = out@;
            let ghost table_before = self.state_table@;
            let res = if drive1 {
                let fs = self.compose_filter.filter_arc(&mut arcb, &mut arca);
                if fs != FilterState::NoState {
                    self.add_arc(out, arcb, arca, fs)
                } else {
                    Ok(())
                }
            } else {
                let fs = self.compose_filter.filter_arc(&mut arca, &mut arcb);
                if fs != FilterState::NoState {
                    self.add_arc(out, arca, arcb, fs)
                } else {
                    Ok(())
                }
            };
            proof {
                assert(ps[i as int] == (if drive1 { (arc, peers@[i as int]) } else { (peers@[i as int], arc) }));
            }
            match res {
                Ok(_) => {},
                Err(e) => {
                    proof {
                        assert(W::spec_times(ps[i as int].0.weight, ps[i as int].1.weight).is_none());
                    }
                    return Err(e);
                },
            }
            proof {
                let t = ps.take(i as int + 1);
                assert(t.take(i as int) =~= ps.take(i as int));
                assert(t.drop_last() =~= ps.take(i as int));
                assert(t.last() == ps[i as int]);
                assert forall|k: int| 0 <= k < t.len() implies (#[trigger] W::spec_times(
                    t[k].0.weight,
                    t[k].1.weight,
                )).is_some() by {
                    if k < i {
                        assert(t[k] == ps.take(i as int)[k]);
                    }
                }
                assert(out@.take(n0) =~= out_before.take(n0));
                lemma_composed_grow(table_before, self.state_table@, out_before.skip(n0), ps.take(i as int));
                assert(out@.skip(n0) =~= out_before.skip(n0).push(out@.last()));
                assert forall|k: int| 0 <= k < t.len() implies spec_composed_arc(
                    self.state_table@,
                    #[trigger] out@.skip(n0)[k],
                    t[k],
                ) by {
                    if k < i {
                        assert(out@.skip(n0)[k] == out_before.skip(n0)[k]);
                        assert(t[k] == ps.take(i as int)[k]);
                    }
                }
            }
            i = i + 1;
        }
        proof {
            assert(ps.take(i as int) =~= ps);
        }
        Ok(())
    }
}

impl<W: Semiring> ComposeFstImpl<W> {
    /// Computes the composed arcs of the state with components `s1`, `s2`
    /// into the empty vector `out`: for the driver's "stay" arc and then
    /// each of its arcs, the pairs with what the peer matcher returns.
    fn ordered_expand(&mut self, out: &mut Vec<Arc<W>>, s1: StateId, s2: StateId) -> (r: Result<
        (),
        ComposeError,
    >)
        requires
            old(self).inv(),
            old(out)@.len() == 0,
        ensures
            final(self).spec_grows_from(*old(self)),
            final(self).cache_impl == old(self).cache_impl,
            ({
                let ps = old(self).setup().spec_expansion(s1, s2);
                match r {
                    Ok(_) => spec_pairs_ok(ps) && spec_composed_arcs(
                        final(self).state_table@,
                        final(out)@,
                        ps,
                    ) && final(self).state_table@ == spec_register_pairs(old(self).state_table@, ps),
                    Err(e) => e == ComposeError::WeightArithmetic && !spec_pairs_ok(ps),
                }
            }),
            old(self).spec_in_range() && s1 < old(self).fst1.spec_num_states() && s2
                < old(self).fst2.spec_num_states() ==> final(self).spec_in_range(),
    {
        let ghost setup = self.setup();
        let ghost d = setup.spec_driver_arcs(s1, s2);
        let drive1 = self.match_input(s1, s2);
        let one = W::one();
        let stay = if drive1 {
            Arc::new(EPS_LABEL, NO_LABEL, one, s1)
        } else {
            Arc::new(NO_LABEL, EPS_LABEL, one, s2)
        };
        proof {
            assert(d[0] == stay);
            assert(d.take(1).drop_last() =~= Seq::<Arc<W>>::empty());
            assert(d.take(1).last() == stay);
            assert(setup.spec_pairs(Seq::<Arc<W>>::empty(), s1, s2) =~= Seq::<(Arc<W>, Arc<W>)>::empty());
            assert(setup.spec_pairs(d.take(1), s1, s2) =~= setup.spec_pairs_for(stay, s1, s2));
        }
        match self.match_arc(out, s1, s2, stay) {
            Ok(_) => {},
            Err(e) => {
                proof {
                    lemma_pairs_ok_prefix(setup, d, 1, s1, s2);
                }
                return Err(e);
            },
        }
        proof {
            assert(out@.skip(0) =~= out@);
            assert(setup.spec_pairs(d.take(1), s1, s2) == setup.spec_pairs_for(stay, s1, s2));
        }
        let n = if drive1 {
            self.fst1.num_arcs(s1)
        } else {
            self.fst2.num_arcs(s2)
        };
        let mut i: usize = 0;
        while i < n
            invariant
                self.spec_grows_from(*old(self)),
                self.cache_impl == old(self).cache_impl,
                setup == old(self).setup(),
                drive1 == setup.drive1,
                d == setup.spec_driver_arcs(s1, s2),
                d.len() == n + 1,
                i <= n,
                spec_pairs_ok(setup.spec_pairs(d.take(i + 1), s1, s2)),
                spec_composed_arcs(self.state_table@, out@, setup.spec_pairs(d.take(i + 1), s1, s2)),
                self.state_table@ == spec_register_pairs(old(self).state_table@, setup.spec_pairs(d.take(i + 1), s1, s2)),
                old(self).spec_in_range() && s1 < old(self).fst1.spec_num_states() && s2
                    < old(self).fst2.spec_num_states() ==> self.spec_in_range(),
            decreases n - i,
        {
            let b = if drive1 {
                self.fst1.arc(s1, i)
            } else {
                self.fst2.arc(s2, i)
            };
            let ghost out_before = out@;
            let ghost table_before = self.state_table@;
            let ghost prev = setup.spec_pairs(d.take(i + 1), s1, s2);
            proof {
                assert(d[i + 1] == b);
                assert(d.take(i + 2).drop_last() =~= d.take(i + 1));
                assert(setup.spec_pairs(d.take(i + 2), s1, s2) == prev.add(
                    setup.spec_pairs_for(b, s1, s2),
                ));
            }
            match self.match_arc(out, s1, s2, b) {
                Ok(_) => {},
                Err(e) => {
                    proof {
                        let pf = setup.spec_pairs_for(b, s1, s2);
                        let all = prev.add(pf);
                        let j = choose|j: int| 0 <= j < pf.len() && !(#[trigger] W::spec_times(pf[j].0.weight, pf[j].1.weight)).is_some();
                        assert(all[prev.len() + j] == pf[j]);
                        assert(!spec_pairs_ok(setup.spec_pairs(d.take(i + 2), s1, s2)));
                        lemma_pairs_ok_prefix(setup, d, i + 2, s1, s2);
                    }
                    return Err(e);
                },
            }
            proof {
                lemma_register_concat(old(self).state_table@, prev, setup.spec_pairs_for(b, s1, s2));
                lemma_composed_grow(table_before, self.state_table@, out_before, prev);
                assert(out@.take(prev.len() as int) == out_before);
                lemma_composed_concat(
                    self.state_table@,
                    out@,
                    prev,
                    setup.spec_pairs_for(b, s1, s2),
                );
            }
            i = i + 1;
        }
        proof {
            assert(d.take(n + 1) =~= d);
        }
        Ok(())
    }

    /// The composed arcs leaving state `id`, computed on first request and
    /// cached; later requests return the cached list.
    pub fn expand(&mut self, id: StateId) -> (r: Result<Vec<Arc<W>>, ComposeError>)
        requires
            old(self).inv(),
            id < old(self).state_table@.len(),
        ensures
            final(self).spec_grows_from(*old(self)),
            ({
                let ps = old(self).setup().spec_expansion(
                    old(self).spec_tuple(id as int).s1,
                    old(self).spec_tuple(id as int).s2,
                );
                match r {
                    Ok(v) => spec_pairs_ok(ps) && spec_composed_arcs(final(self).state_table@, v@, ps)
                        && final(self).state_table@ == spec_register_pairs(old(self).state_table@, ps)
                        && final(self).cache_impl.spec_arcs(id as int) == Some(v@),
                    Err(e) => e == ComposeError::WeightArithmetic && !spec_pairs_ok(ps)
                        && final(self).cache_impl == old(self).cache_impl,
                }
            }),
            old(self).cache_impl.spec_arcs(id as int) matches Some(v) ==> r matches Ok(w) && w@
                == v && *final(self) == *old(self),
            forall|j: int| #[trigger] final(self).cache_impl.spec_final(j) == old(self).cache_impl.spec_final(j),
            forall|j: int| j != id ==> #[trigger] final(self).cache_impl.spec_arcs(j) == old(self).cache_impl.spec_arcs(j),
            old(self).spec_in_range() ==> final(self).spec_in_range(),
    {
        match self.cache_impl.get_arcs(id) {
            Some(v) => {
                proof {
                    assert(self.spec_arcs_entry_ok(id as int));
                    lemma_composed_pairs_ok(
                        self.state_table@,
                        v@,
                        self.setup().spec_expansion(
                            self.spec_tuple(id as int).s1,
                            self.spec_tuple(id as int).s2,
                        ),
                    );
                    lemma_composed_known(
                        self.state_table@,
                        v@,
                        self.setup().spec_expansion(
                            self.spec_tuple(id as int).s1,
                            self.spec_tuple(id as int).s2,
                        ),
                    );
                    assert(self.state_table@.is_prefix_of(self.state_table@));
                }
                return Ok(v);
            },
            None => {},
        }
        let tuple = self.state_table.find_tuple(id);
        proof {
            if self.spec_in_range() {
                assert(spec_tuple_in_range(self.state_table@[id as int], self.fst1.spec_num_states(), self.fst2.spec_num_states()));
            }
        }
        self.compose_filter.set_state(tuple.s1, tuple.s2, tuple.fs);
        let mut out: Vec<Arc<W>> = Vec::new();
        match self.ordered_expand(&mut out, tuple.s1, tuple.s2) {
            Ok(_) => {},
            Err(e) => return Err(e),
        }
        let result = copy_arcs(&out);
        let ghost before = *self;
        self.cache_impl.set_arcs(id, out);
        proof {
            assert(self.spec_tuple(id as int) == tuple);
            assert forall|j: int| #[trigger] self.spec_arcs_entry_ok(j) by {
                assert(before.spec_arcs_entry_ok(j));
            }
            assert forall|j: int| #[trigger] self.spec_final_entry_ok(j) by {
                assert(before.spec_final_entry_ok(j));
            }
        }
        Ok(result)
    }

    /// The start of the composition: none where either automaton has none,
    /// else the id of `(filter start, start1, start2)`.
    pub fn compute_start(&mut self) -> (r: Option<StateId>)
        requires
            old(self).inv(),
        ensures
            final(self).spec_grows_from(*old(self)),
            final(self).cache_impl == old(self).cache_impl,
            r.is_none() <==> (old(self).fst1.start.is_none() || old(self).fst2.start.is_none()),
            r matches Some(id) ==> id < final(self).state_table@.len() && final(self).spec_tuple(
                id as int,
            ) == (ComposeStateTuple {
                fs: FilterState::Trivial,
                s1: old(self).fst1.start.unwrap(),
                s2: old(self).fst2.start.unwrap(),
            }),
            old(self).spec_in_range() ==> final(self).spec_in_range(),
            final(self).state_table@.len() <= old(self).state_table@.len() + 1,
            r is None ==> final(self).state_table@ == old(self).state_table@,
            r is Some ==> final(self).state_table@ == spec_register(
                old(self).state_table@,
                ComposeStateTuple {
                    fs: FilterState::Trivial,
                    s1: old(self).fst1.start.unwrap(),
                    s2: old(self).fst2.start.unwrap(),
                },
            ),
    {
        proof {
            assert(self.state_table@.is_prefix_of(self.state_table@));
        }
        let s1 = match self.fst1.start() {
            Some(s) => s,
            None => return None,
        };
        let s2 = match self.fst2.start() {
            Some(s) => s,
            None => return None,
        };
        let fs = self.compose_filter.start();
        let ghost before = *self;
        let id = self.state_table.find_id(ComposeStateTuple { fs, s1, s2 });
        proof {
            Self::lemma_inv_grow(before, *self);
        }
        Some(id)
    }

    /// The final weight of state `id`: none unless both components are
    /// final, else `w1 ⊗ w2` (side-1 weight first) unless the filter
    /// zeroes it. Computed on first request and cached.
    pub fn compute_final(&mut self, id: StateId) -> (r: Result<Option<W>, ComposeError>)
        requires
            old(self).inv(),
            id < old(self).state_table@.len(),
        ensures
            final(self).spec_grows_from(*old(self)),
            final(self).state_table == old(self).state_table,
            r == old(self).setup().spec_final_weight(
                old(self).spec_tuple(id as int).s1,
                old(self).spec_tuple(id as int).s2,
            ),
            r matches Ok(f) ==> final(self).cache_impl.spec_final(id as int) == Some(f),
            r is Err ==> final(self).cache_impl == old(self).cache_impl,
            forall|j: int| j != id ==> #[trigger] final(self).cache_impl.spec_final(j) == old(self).cache_impl.spec_final(j),
            old(self).cache_impl.spec_final(id as int) is Some ==> *final(self) == *old(self),
            forall|j: int| #[trigger] final(self).cache_impl.spec_arcs(j) == old(self).cache_impl.spec_arcs(j),
    {
        proof {
            assert(self.state_table@.is_prefix_of(self.state_table@));
        }
        match self.cache_impl.get_final(id) {
            Some(f) => {
                proof {
                    assert(self.spec_final_entry_ok(id as int));
                }
                return Ok(f);
            },
            None => {},
        }
        let tuple = self.state_table.find_tuple(id);
        let ghost before = *self;
        let res = match self.compose_filter.matcher1.final_weight(&self.fst1, tuple.s1) {
            None => None,
            Some(w1) => match self.compose_filter.matcher2.final_weight(&self.fst2, tuple.s2) {
                None => None,
                Some(w2) => {
                    let mut w1 = w1;
                    let mut w2 = w2;
                    self.compose_filter.set_state(tuple.s1, tuple.s2, tuple.fs);
                    self.compose_filter.filter_final(&mut w1, &mut w2);
                    match w1.times(&w2) {
                        None => return Err(ComposeError::WeightArithmetic),
                        Some(p) => if p.is_zero() {
                            None
                        } else {
                            Some(p)
                        },
                    }
                },
            },
        };
        self.cache_impl.set_final(id, res);
        proof {
            assert(self.spec_tuple(id as int) == tuple);
            assert forall|j: int| #[trigger] self.spec_arcs_entry_ok(j) by {
                assert(before.spec_arcs_entry_ok(j));
            }
            assert forall|j: int| #[trigger] self.spec_final_entry_ok(j) by {
                assert(before.spec_final_entry_ok(j));
            }
        }
        Ok(res)
    }
}

/// Where the pairs of the first `k` driver arcs do not all have a defined
/// product, neither do all the pairs.
proof fn lemma_pairs_ok_prefix<W: Semiring>(
    setup: ExpandSetup<W>,
    d: Seq<Arc<W>>,
    k: int,
    s1: StateId,
    s2: StateId,
)
    requires
        0 <= k <= d.len(),
        !spec_pairs_ok(setup.spec_pairs(d.take(k), s1, s2)),
    ensures
        !spec_pairs_ok(setup.spec_pairs(d, s1, s2)),
    decreases d.len() - k,
{
    if k < d.len() {
        let t = d.take(k + 1);
        assert(t.drop_last() =~= d.take(k));
        let a = setup.spec_pairs(d.take(k), s1, s2);
        let b = setup.spec_pairs(t, s1, s2);
        assert(b == a.add(setup.spec_pairs_for(t.last(), s1, s2)));
        let j = choose|j: int| 0 <= j < a.len() && !(#[trigger] W::spec_times(a[j].0.weight, a[j].1.weight)).is_some();
        assert(b[j] == a[j]);
        lemma_pairs_ok_prefix(setup, d, k + 1, s1, s2);
    } else {
        assert(d.take(k) =~= d);
    }
}

/// An arc is selected for a label exactly when it is stored and carries
/// that label on the indexed side.
pub proof fn lemma_select_contains<W>(arcs: Seq<Arc<W>>, label: usize, mt: MatchType, a: Arc<W>)
    ensures
        spec_select(arcs, label, mt).contains(a) <==> (arcs.contains(a) && spec_side_label(a, mt)
            == label),
    decreases arcs.len(),
{
    if arcs.len() > 0 {
        let rest = arcs.drop_last();
        lemma_select_contains(rest, label, mt, a);
        let sel = spec_select(rest, label, mt);
        let full = spec_select(arcs, label, mt);
        let hit = spec_side_label(arcs.last(), mt) == label;
        assert(full == (if hit { sel.push(arcs.last()) } else { sel }));
        if arcs.contains(a) && spec_side_label(a, mt) == label {
            let i = choose|i: int| 0 <= i < arcs.len() && arcs[i] == a;
            if i < arcs.len() - 1 {
                assert(rest[i] == a);
                assert(rest.contains(a));
                let k = choose|k: int| 0 <= k < sel.len() && sel[k] == a;
                assert(full[k] == a);
            } else {
                assert(full[sel.len() as int] == a);
            }
        }
        if full.contains(a) {
            let j = choose|j: int| 0 <= j < full.len() && full[j] == a;
            if hit && j == sel.len() {
                assert(arcs[arcs.len() - 1] == a);
            } else {
                assert(sel[j] == a);
                assert(sel.contains(a));
                let i = choose|i: int| 0 <= i < rest.len() && rest[i] == a;
                assert(arcs[i] == a);
            }
        }
    }
}

/// A pair is formed from a list of driver arcs exactly when its driver arc
/// is in the list and its peer arc is among what the peer matcher returns.
proof fn lemma_pairs_contains<W: Semiring>(
    setup: ExpandSetup<W>,
    d: Seq<Arc<W>>,
    s1: StateId,
    s2: StateId,
    x: Arc<W>,
    y: Arc<W>,
)
    ensures
        setup.spec_pairs(d, s1, s2).contains((x, y)) <==> (if setup.drive1 {
            d.contains(x) && setup.spec_peers(x, s1, s2).contains(y)
        } else {
            d.contains(y) && setup.spec_peers(y, s1, s2).contains(x)
        }),
    decreases d.len(),
{
    if d.len() > 0 {
        let rest = d.drop_last();
        let b = d.last();
        lemma_pairs_contains(setup, rest, s1, s2, x, y);
        let pr = setup.spec_pairs(rest, s1, s2);
        let pf = setup.spec_pairs_for(b, s1, s2);
        let all = pr.add(pf);
        let peers = setup.spec_peers(b, s1, s2);
        let (drv, peer) = if setup.drive1 { (x, y) } else { (y, x) };
        if all.contains((x, y)) {
            let j = choose|j: int| 0 <= j < all.len() && all[j] == (x, y);
            if j < pr.len() {
                assert(pr[j] == (x, y));
                let i = choose|i: int| 0 <= i < rest.len() && rest[i] == drv;
                assert(d[i] == drv);
            } else {
                assert(pf[j - pr.len()] == (x, y));
                assert(drv == b);
                assert(peers[j - pr.len()] == peer);
                assert(d[d.len() - 1] == drv);
            }
        }
        if d.contains(drv) && setup.spec_peers(drv, s1, s2).contains(peer) {
            let i = choose|i: int| 0 <= i < d.len() && d[i] == drv;
            if i < d.len() - 1 {
                assert(rest[i] == drv);
                let j = choose|j: int| 0 <= j < pr.len() && pr[j] == (x, y);
                assert(all[j] == (x, y));
            } else {
                let k = choose|k: int| 0 <= k < peers.len() && peers[k] == peer;
                assert(pf[k] == (x, y));
                assert(all[pr.len() + k] == (x, y));
            }
        }
    }
}

/// Composition through the trivial filter is the classical cross product:
/// with the first automaton driving, the expansion of `(s1, s2)` pairs an
/// arc `x` of `s1` or its "stay" arc with an arc `y` of `s2` exactly when
/// `y`'s input label matches `x`'s output label (a `NO_LABEL` output
/// matching epsilon), or when `x` outputs epsilon and `y` is the second
/// automaton's implicit self-loop. With the second automaton driving the
/// roles are mirrored. Each such pair yields one composed arc in the list
/// that `expand` returns, and no other arc is listed.
pub proof fn lemma_cross_product<W: Semiring>(
    setup: ExpandSetup<W>,
    s1: StateId,
    s2: StateId,
    x: Arc<W>,
    y: Arc<W>,
)
    requires
        setup.drive1 ==> setup.matcher2.match_type == MatchType::MatchInput,
        !setup.drive1 ==> setup.matcher1.match_type == MatchType::MatchOutput,
    ensures
        setup.drive1 ==> (setup.spec_expansion(s1, s2).contains((x, y)) <==> (
            seq![spec_stay1::<W>(s1)].add(setup.fst1.spec_arcs(s1 as int)).contains(x) && (
            (x.olabel == EPS_LABEL && y == spec_loop_arc::<W>(s2, MatchType::MatchInput)) || (
            setup.fst2.spec_arcs(s2 as int).contains(y) && y.ilabel == spec_lookup_label(x.olabel))))),
        !setup.drive1 ==> (setup.spec_expansion(s1, s2).contains((x, y)) <==> (
            seq![spec_stay2::<W>(s2)].add(setup.fst2.spec_arcs(s2 as int)).contains(y) && (
            (y.ilabel == EPS_LABEL && x == spec_loop_arc::<W>(s1, MatchType::MatchOutput)) || (
            setup.fst1.spec_arcs(s1 as int).contains(x) && x.olabel == spec_lookup_label(y.ilabel))))),
{
    let d = setup.spec_driver_arcs(s1, s2);
    lemma_pairs_contains(setup, d, s1, s2, x, y);
    if setup.drive1 {
        let arcs2 = setup.fst2.spec_arcs(s2 as int);
        let l = spec_lookup_label(x.olabel);
        lemma_select_contains(arcs2, l, MatchType::MatchInput, y);
        let sel = spec_select(arcs2, l, MatchType::MatchInput);
        let lp = spec_loop_arc::<W>(s2, MatchType::MatchInput);
        if x.olabel == EPS_LABEL {
            let m = seq![lp].add(sel);
            assert(m[0] == lp);
            if m.contains(y) && y != lp {
                let k = choose|k: int| 0 <= k < m.len() && m[k] == y;
                assert(sel[k - 1] == y);
            }
            if sel.contains(y) {
                let k = choose|k: int| 0 <= k < sel.len() && sel[k] == y;
                assert(m[k + 1] == y);
            }
        }
    } else {
        let arcs1 = setup.fst1.spec_arcs(s1 as int);
        let l = spec_lookup_label(y.ilabel);
        lemma_select_contains(arcs1, l, MatchType::MatchOutput, x);
        let sel = spec_select(arcs1, l, MatchType::MatchOutput);
        let lp = spec_loop_arc::<W>(s1, MatchType::MatchOutput);
        if y.ilabel == EPS_LABEL {
            let m = seq![lp].add(sel);
            assert(m[0] == lp);
            if m.contains(x) && x != lp {
                let k = choose|k: int| 0 <= k < m.len() && m[k] == x;
                assert(sel[k - 1] == x);
            }
            if sel.contains(x) {
                let k = choose|k: int| 0 <= k < sel.len() && sel[k] == x;
                assert(m[k + 1] == x);
            }
        }
    }
}

/// A tuple that the trivial filter can reach from automata with `n1` and
/// `n2` states.
pub open spec fn spec_tuple_in_range(t: ComposeStateTuple, n1: nat, n2: nat) -> bool {
    t.fs == FilterState::Trivial && t.s1 < n1 && t.s2 < n2
}

proof fn lemma_code_injective(a: int, b: int, c: int, d: int, n2: int)
    requires
        0 <= a,
        0 <= c,
        0 <= b < n2,
        0 <= d < n2,
        a * n2 + b == c * n2 + d,
    ensures
        a == c && b == d,
{
    if a < c {
        assert(a * n2 + b < c * n2) by (nonlinear_arith)
            requires
                a < c,
                0 <= b < n2,
        ;
    } else if c < a {
        assert(c * n2 + d < a * n2) by (nonlinear_arith)
            requires
                c < a,
                0 <= d < n2,
        ;
    }
}

proof fn lemma_code_bound(a: int, b: int, n1: int, n2: int)
    requires
        0 <= a < n1,
        0 <= b < n2,
    ensures
        0 <= a * n2 + b < n1 * n2,
{
    assert(0 <= a * n2 + b < n1 * n2) by (nonlinear_arith)
        requires
            0 <= a < n1,
            0 <= b < n2,
    ;
}

/// A table of distinct tuples in range holds at most `n1 * n2` of them.
pub proof fn lemma_table_bound(table: StateTable, n1: nat, n2: nat)
    requires
        table.wf(),
        forall|j: int| 0 <= j < table@.len() ==> spec_tuple_in_range(#[trigger] table@[j], n1, n2),
    ensures
        table@.len() <= n1 * n2,
{
    let m2 = n2 as int;
    let codes = table@.map_values(|t: ComposeStateTuple| t.s1 as int * m2 + t.s2 as int);
    assert forall|i: int, j: int| 0 <= i < codes.len() && 0 <= j < codes.len() && i != j implies codes[i] != codes[j] by {
        let ti = table@[i];
        let tj = table@[j];
        assert(spec_tuple_in_range(ti, n1, n2));
        assert(spec_tuple_in_range(tj, n1, n2));
        if codes[i] == codes[j] {
            lemma_code_injective(ti.s1 as int, ti.s2 as int, tj.s1 as int, tj.s2 as int, m2);
            assert(ti == tj);
        }
    }
    assert(codes.no_duplicates());
    codes.unique_seq_to_set();
    lemma_int_range(0, (n1 * n2) as int);
    assert forall|c: int| codes.to_set().contains(c) implies set_int_range(0, (n1 * n2) as int).contains(c) by {
        let i = choose|i: int| 0 <= i < codes.len() && codes[i] == c;
        let t = table@[i];
        assert(spec_tuple_in_range(t, n1, n2));
        lemma_code_bound(t.s1 as int, t.s2 as int, n1 as int, m2);
    }
    lemma_len_subset(codes.to_set(), set_int_range(0, (n1 * n2) as int));
}

/// What a matcher returns at an existing state of a well-formed automaton
/// leads to an existing state.
proof fn lemma_matches_in_range<W: Semiring>(fst: VectorFst<W>, s: StateId, label: usize, mt: MatchType, k: int)
    requires
        fst.wf(),
        s < fst.spec_num_states(),
        0 <= k < spec_matches(fst, s, label, mt).len(),
    ensures
        spec_matches(fst, s, label, mt)[k].nextstate < fst.spec_num_states(),
{
    let arcs = fst.spec_arcs(s as int);
    let sel = spec_select(arcs, spec_lookup_label(label), mt);
    let m = spec_matches(fst, s, label, mt);
    if label == EPS_LABEL && k == 0 {
    } else {
        let k2 = if label == EPS_LABEL { k - 1 } else { k };
        assert(m[k] == sel[k2]);
        lemma_select_contains(arcs, spec_lookup_label(label), mt, sel[k2]);
        let i = choose|i: int| 0 <= i < arcs.len() && arcs[i] == sel[k2];
        assert(fst.states@[s as int].arcs@[i].nextstate < fst.states@.len());
    }
}

/// How many pairs driver arcs `d` form when peers are looked up on `arcs`
/// by the label that `mt` indexes: each driver arc with epsilon on its
/// matched side meets the implicit self-loop once, and each driver arc meets
/// every peer arc whose label equals its own (`NO_LABEL` meeting epsilon).
pub open spec fn spec_pair_count<W>(arcs: Seq<Arc<W>>, d: Seq<Arc<W>>, mt: MatchType) -> nat
    decreases d.len(),
{
    if d.len() == 0 {
        0
    } else {
        let b = d.last();
        let l = if mt == MatchType::MatchInput {
            b.olabel
        } else {
            b.ilabel
        };
        spec_pair_count(arcs, d.drop_last(), mt) + (if l == EPS_LABEL {
            1nat
        } else {
            0nat
        }) + spec_select(arcs, spec_lookup_label(l), mt).len()
    }
}

proof fn lemma_pairs_count<W: Semiring>(setup: ExpandSetup<W>, d: Seq<Arc<W>>, s1: StateId, s2: StateId)
    requires
        setup.drive1 ==> setup.matcher2.match_type == MatchType::MatchInput,
        !setup.drive1 ==> setup.matcher1.match_type == MatchType::MatchOutput,
    ensures
        setup.drive1 ==> setup.spec_pairs(d, s1, s2).len() == spec_pair_count(
            setup.fst2.spec_arcs(s2 as int),
            d,
            MatchType::MatchInput,
        ),
        !setup.drive1 ==> setup.spec_pairs(d, s1, s2).len() == spec_pair_count(
            setup.fst1.spec_arcs(s1 as int),
            d,
            MatchType::MatchOutput,
        ),
    decreases d.len(),
{
    if d.len() > 0 {
        lemma_pairs_count(setup, d.drop_last(), s1, s2);
        let b = d.last();
        assert(setup.spec_pairs_for(b, s1, s2).len() == setup.spec_peers(b, s1, s2).len());
    }
}

/// The number of composed arcs under the trivial filter: with the first
/// automaton driving, its "stay" arc and each of its arcs `a1` contribute
/// one arc per arc `a2` of the second automaton with
/// `a2.ilabel == a1.olabel` (`NO_LABEL` meeting epsilon), plus one for the
/// second automaton's self-loop when `a1.olabel` is epsilon; the mirror
/// holds with the second automaton driving. The two synthetic arcs are
/// never paired with each other.
pub proof fn lemma_cross_product_count<W: Semiring>(setup: ExpandSetup<W>, s1: StateId, s2: StateId)
    requires
        setup.drive1 ==> setup.matcher2.match_type == MatchType::MatchInput,
        !setup.drive1 ==> setup.matcher1.match_type == MatchType::MatchOutput,
    ensures
        setup.drive1 ==> setup.spec_expansion(s1, s2).len() == spec_pair_count(
            setup.fst2.spec_arcs(s2 as int),
            seq![spec_stay1::<W>(s1)].add(setup.fst1.spec_arcs(s1 as int)),
            MatchType::MatchInput,
        ) && !setup.spec_expansion(s1, s2).contains(
            (spec_stay1::<W>(s1), spec_loop_arc::<W>(s2, MatchType::MatchInput)),
        ),
        !setup.drive1 ==> setup.spec_expansion(s1, s2).len() == spec_pair_count(
            setup.fst1.spec_arcs(s1 as int),
            seq![spec_stay2::<W>(s2)].add(setup.fst2.spec_arcs(s2 as int)),
            MatchType::MatchOutput,
        ) && !setup.spec_expansion(s1, s2).contains(
            (spec_loop_arc::<W>(s1, MatchType::MatchOutput), spec_stay2::<W>(s2)),
        ),
{
    lemma_pairs_count(setup, setup.spec_driver_arcs(s1, s2), s1, s2);
    if setup.drive1 {
        let x = spec_stay1::<W>(s1);
        let y = spec_loop_arc::<W>(s2, MatchType::MatchInput);
        lemma_cross_product(setup, s1, s2, x, y);
    } else {
        let x = spec_loop_arc::<W>(s1, MatchType::MatchOutput);
        let y = spec_stay2::<W>(s2);
        lemma_cross_product(setup, s1, s2, x, y);
    }
}

/// Registering successors keeps the old table as a prefix, and every tuple
/// it appends is the successor of one of the pairs.
pub proof fn lemma_register_new<W>(t: Seq<ComposeStateTuple>, ps: Seq<(Arc<W>, Arc<W>)>)
    ensures
        t.is_prefix_of(spec_register_pairs(t, ps)),
        forall|j: int|
            t.len() <= j < spec_register_pairs(t, ps).len() ==> exists|k: int|
                0 <= k < ps.len() && #[trigger] spec_register_pairs(t, ps)[j] == spec_successor(
                    #[trigger] ps[k],
                ),
    decreases ps.len(),
{
    if ps.len() > 0 {
        let d = ps.drop_last();
        lemma_register_new(t, d);
        let r = spec_register_pairs(t, d);
        let full = spec_register_pairs(t, ps);
        assert forall|j: int| t.len() <= j < full.len() implies exists|k: int|
            0 <= k < ps.len() && #[trigger] full[j] == spec_successor(#[trigger] ps[k]) by {
            if j < r.len() {
                assert(full[j] == r[j]);
                let k = choose|k: int| 0 <= k < d.len() && #[trigger] r[j] == spec_successor(#[trigger] d[k]);
                assert(d[k] == ps[k]);
            } else {
                assert(full[j] == spec_successor(ps[ps.len() - 1]));
            }
        }
    }
}

} // verus!
