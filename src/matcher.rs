use vstd::prelude::*;
use crate::arc::{Arc, Label, StateId, EPS_LABEL, NO_LABEL};
use crate::fst::VectorFst;
use crate::semiring::Semiring;

verus! {

/// Which label side of its automaton a matcher indexes.
#[derive(Clone, Copy, PartialEq, Eq, Structural, Debug, Hash)]
pub enum MatchType {
    MatchInput,
    MatchOutput,
    /// The first automaton indexes output labels and the second input labels.
    MatchBoth,
}

/// The label of `a` on the side that `mt` indexes.
pub open spec fn spec_side_label<W>(a: Arc<W>, mt: MatchType) -> Label {
    if mt == MatchType::MatchInput {
        a.ilabel
    } else {
        a.olabel
    }
}

/// A query for `NO_LABEL` looks up the real epsilon arcs.
pub open spec fn spec_lookup_label(label: Label) -> Label {
    if label == NO_LABEL {
        EPS_LABEL
    } else {
        label
    }
}

/// The implicit epsilon self-loop that a query for epsilon also returns: it
/// carries epsilon on the side not indexed and `NO_LABEL` on the indexed side.
pub open spec fn spec_loop_arc<W: Semiring>(s: StateId, mt: MatchType) -> Arc<W> {
    if mt == MatchType::MatchInput {
        Arc { ilabel: NO_LABEL, olabel: EPS_LABEL, weight: W::spec_one(), nextstate: s }
    } else {
        Arc { ilabel: EPS_LABEL, olabel: NO_LABEL, weight: W::spec_one(), nextstate: s }
    }
}

/// The arcs of `arcs` whose indexed label is `label`, in their stored order.
pub open spec fn spec_select<W>(arcs: Seq<Arc<W>>, label: Label, mt: MatchType) -> Seq<Arc<W>>
    decreases arcs.len(),
{
    if arcs.len() == 0 {
        Seq::empty()
    } else {
        let rest = spec_select(arcs.drop_last(), label, mt);
        if spec_side_label(arcs.last(), mt) == label {
            rest.push(arcs.last())
        } else {
            rest
        }
    }
}

/// What a query for `label` at state `s` of `fst` returns.
pub open spec fn spec_matches<W: Semiring>(
    fst: VectorFst<W>,
    s: StateId,
    label: Label,
    mt: MatchType,
) -> Seq<Arc<W>> {
    let found = spec_select(fst.spec_arcs(s as int), spec_lookup_label(label), mt);
    if label == EPS_LABEL {
        seq![spec_loop_arc::<W>(s, mt)].add(found)
    } else {
        found
    }
}

/// The arcs are sorted on the side that `mt` indexes.
pub open spec fn spec_sorted<W>(arcs: Seq<Arc<W>>, mt: MatchType) -> bool {
    forall|i: int, j: int|
        0 <= i < j < arcs.len() ==> spec_side_label(#[trigger] arcs[i], mt) <= spec_side_label(
            #[trigger] arcs[j],
            mt,
        )
}

/// Every state's arcs are sorted on the side that `mt` indexes.
pub open spec fn spec_fst_sorted<W: Copy>(fst: VectorFst<W>, mt: MatchType) -> bool {
    forall|s: int| 0 <= s < fst.spec_num_states() ==> spec_sorted(#[trigger] fst.spec_arcs(s), mt)
}

/// Arcs whose label differs from `label` add nothing to the selection.
proof fn lemma_select_skip<W>(arcs: Seq<Arc<W>>, label: Label, mt: MatchType, a: int, b: int)
    requires
        0 <= a <= b <= arcs.len(),
        forall|i: int| a <= i < b ==> spec_side_label(#[trigger] arcs[i], mt) != label,
    ensures
        spec_select(arcs.take(b), label, mt) == spec_select(arcs.take(a), label, mt),
    decreases b - a,
{
    if a < b {
        lemma_select_skip(arcs, label, mt, a, b - 1);
        assert(arcs.take(b).drop_last() =~= arcs.take(b - 1));
        assert(arcs.take(b).last() == arcs[b - 1]);
    }
}

/// Whether the arcs of every state of `fst` are sorted on the side `mt`.
pub fn arcs_sorted<W: Copy>(fst: &VectorFst<W>, mt: MatchType) -> (r: bool)
    ensures
        r == spec_fst_sorted(*fst, mt),
{
    let n = fst.num_states();
    let mut s: usize = 0;
    while s < n
        invariant
            n == fst.spec_num_states(),
            s <= n,
            forall|q: int| 0 <= q < s ==> spec_sorted(#[trigger] fst.spec_arcs(q), mt),
        decreases n - s,
    {
        let m = fst.num_arcs(s);
        let ghost arcs = fst.spec_arcs(s as int);
        let mut j: usize = 1;
        while j < m
            invariant
                m == arcs.len(),
                arcs == fst.spec_arcs(s as int),
                1 <= j,
                j <= m || m == 0,
                forall|i: int, k: int|
                    0 <= i < k < j && k < m ==> spec_side_label(#[trigger] arcs[i], mt) <= spec_side_label(
                        #[trigger] arcs[k],
                        mt,
                    ),
            decreases m - j,
        {
            let x = fst.arc(s, j - 1);
            let y = fst.arc(s, j);
            let kx = if mt == MatchType::MatchInput {
                x.ilabel
            } else {
                x.olabel
            };
            let ky = if mt == MatchType::MatchInput {
                y.ilabel
            } else {
                y.olabel
            };
            if kx > ky {
                proof {
                    assert(!spec_sorted(arcs, mt));
                }
                return false;
            }
            j = j + 1;
        }
        s = s + 1;
    }
    true
}

/// Answers "which arcs leave state `s` with label `l`" on one label side of
/// an automaton.
#[derive(Clone, Copy, PartialEq, Eq, Structural, Debug, Hash)]
pub struct SortedMatcher {
    pub match_type: MatchType,
    /// Matching is mandatory: the automaton's arcs must be sorted on the
    /// indexed side, and lookups search them by bisection.
    pub require_match: bool,
}

impl SortedMatcher {
    pub fn new(match_type: MatchType) -> (r: SortedMatcher)
        ensures
            r.match_type == match_type,
            !r.require_match,
    {
        SortedMatcher { match_type, require_match: false }
    }

    pub fn match_type(&self) -> (r: MatchType)
        ensures
            r == self.match_type,
    {
        self.match_type
    }

    pub fn require_match(&self) -> (r: bool)
        ensures
            r == self.require_match,
    {
        self.require_match
    }

    /// The first position among the arcs of `s` whose indexed label is not
    /// below `label`, found by bisection over the sorted arcs.
    fn lower_bound<W: Semiring>(&self, fst: &VectorFst<W>, s: StateId, label: Label) -> (r: usize)
        requires
            spec_sorted(fst.spec_arcs(s as int), self.match_type),
        ensures
            r <= fst.spec_arcs(s as int).len(),
            forall|i: int| 0 <= i < r ==> spec_side_label(#[trigger] fst.spec_arcs(s as int)[i], self.match_type) < label,
    {
        let mt = self.match_type;
        let mut lo: usize = 0;
        let mut hi: usize = fst.num_arcs(s);
        let ghost arcs = fst.spec_arcs(s as int);
        while lo < hi
            invariant
                hi <= arcs.len(),
                lo <= hi,
                arcs == fst.spec_arcs(s as int),
                mt == self.match_type,
                spec_sorted(arcs, mt),
                forall|i: int| 0 <= i < lo ==> spec_side_label(#[trigger] arcs[i], mt) < label,
            decreases hi - lo,
        {
            let mid = lo + (hi - lo) / 2;
            let a = fst.arc(s, mid);
            let key = if mt == MatchType::MatchInput {
                a.ilabel
            } else {
                a.olabel
            };
            if key < label {
                proof {
                    assert forall|i: int| 0 <= i < mid + 1 implies spec_side_label(#[trigger] arcs[i], mt) < label by {
                        if i < mid {
                            assert(spec_side_label(arcs[i], mt) <= spec_side_label(arcs[mid as int], mt));
                        }
                    }
                }
                lo = mid + 1;
            } else {
                hi = mid;
            }
        }
        lo
    }

    pub fn final_weight<W: Semiring>(&self, fst: &VectorFst<W>, s: StateId) -> (r: Option<W>)
        ensures
            r == fst.spec_final(s as int),
    {
        fst.final_weight(s)
    }

    /// The arcs leaving `s` whose indexed label is `label`, preceded by the
    /// implicit self-loop when `label` is epsilon. A query for `NO_LABEL`
    /// returns the real epsilon arcs only.
    pub fn iter<W: Semiring>(&self, fst: &VectorFst<W>, s: StateId, label: Label) -> (r: Vec<Arc<W>>)
        requires
            self.require_match ==> spec_fst_sorted(*fst, self.match_type),
        ensures
            r@ == spec_matches(*fst, s, label, self.match_type),
    {
        let mt = self.match_type;
        let lookup = if label == NO_LABEL {
            EPS_LABEL
        } else {
            label
        };
        let mut out: Vec<Arc<W>> = Vec::new();
        if label == EPS_LABEL {
            let one = W::one();
            if mt == MatchType::MatchInput {
                out.push(Arc::new(NO_LABEL, EPS_LABEL, one, s));
            } else {
                out.push(Arc::new(EPS_LABEL, NO_LABEL, one, s));
            }
        }
        let ghost prefix = out@;
        let n = fst.num_arcs(s);
        let ghost arcs = fst.spec_arcs(s as int);
        let sorted = self.require_match;
        proof {
            if sorted && s < fst.spec_num_states() {
                assert(spec_sorted(fst.spec_arcs(s as int), mt));
            }
            assert(arcs.take(0) =~= Seq::<Arc<W>>::empty());
        }
        let mut i: usize = if sorted {
            self.lower_bound(fst, s, lookup)
        } else {
            0
        };
        proof {
            lemma_select_skip(arcs, lookup, mt, 0, i as int);
        }
        let mut done = false;
        while i < n && !done
            invariant
                n == arcs.len(),
                arcs == fst.spec_arcs(s as int),
                mt == self.match_type,
                sorted ==> spec_sorted(arcs, mt),
                i <= n,
                out@ == prefix.add(spec_select(arcs.take(i as int), lookup, mt)),
                done ==> spec_select(arcs, lookup, mt) == spec_select(arcs.take(i as int), lookup, mt),
            decreases n - i + if done { 0int } else { 1int },
        {
            let a = fst.arc(s, i);
            proof {
                assert(arcs.take(i as int + 1).drop_last() =~= arcs.take(i as int));
                assert(arcs.take(i as int + 1).last() == a);
            }
            let side = if mt == MatchType::MatchInput {
                a.ilabel
            } else {
                a.olabel
            };
            if side == lookup {
                out.push(a);
                proof {
                    assert(out@ =~= prefix.add(spec_select(arcs.take(i as int + 1), lookup, mt)));
                }
                i = i + 1;
            } else if sorted && side > lookup {
                proof {
                    assert forall|k: int| i <= k < n implies spec_side_label(#[trigger] arcs[k], mt) != lookup by {
                        if k > i {
                            assert(spec_side_label(arcs[i as int], mt) <= spec_side_label(arcs[k], mt));
                        }
                    }
                    lemma_select_skip(arcs, lookup, mt, i as int, n as int);
                    assert(arcs.take(n as int) =~= arcs);
                }
                done = true;
            } else {
                i = i + 1;
            }
        }
        proof {
            assert(arcs.take(n as int) =~= arcs);
            if label != EPS_LABEL {
                assert(out@ =~= spec_select(arcs, lookup, mt));
            }
        }
        out
    }
}

} // verus!
