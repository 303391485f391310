use vstd::prelude::*;
use crate::arc::{Arc, StateId};
use crate::fst::VectorFst;

verus! {

/// `set` holds the destination of every arc that leaves a state in it.
pub open spec fn spec_closed_forward<W: Copy>(fst: VectorFst<W>, set: Set<int>) -> bool {
    forall|s: int, i: int|
        #![trigger set.contains(s), fst.spec_arcs(s)[i]]
        set.contains(s) && 0 <= i < fst.spec_arcs(s).len() ==> set.contains(
            fst.spec_arcs(s)[i].nextstate as int,
        )
}

/// `set` holds every state with an arc into it.
pub open spec fn spec_closed_backward<W: Copy>(fst: VectorFst<W>, set: Set<int>) -> bool {
    forall|s: int, i: int|
        #![trigger fst.spec_arcs(s)[i]]
        0 <= s < fst.spec_num_states() && 0 <= i < fst.spec_arcs(s).len() && set.contains(
            fst.spec_arcs(s)[i].nextstate as int,
        ) ==> set.contains(s)
}

/// `s` is reachable from the start: it lies in every set that holds the
/// start and is closed under arcs.
pub open spec fn spec_accessible<W: Copy>(fst: VectorFst<W>, s: int) -> bool {
    forall|set: Set<int>|
        (fst.start matches Some(st) ==> set.contains(st as int)) && spec_closed_forward(fst, set)
            ==> #[trigger] set.contains(s)
}

/// A final state is reachable from `s`: it lies in every set that holds the
/// final states and every state with an arc into the set.
pub open spec fn spec_coaccessible<W: Copy>(fst: VectorFst<W>, s: int) -> bool {
    forall|set: Set<int>|
        (forall|t: int| 0 <= t < fst.spec_num_states() && fst.spec_final(t).is_some() ==> set.contains(t))
            && spec_closed_backward(fst, set) ==> #[trigger] set.contains(s)
}

/// The number of `false` entries.
pub open spec fn spec_count_false(m: Seq<bool>) -> nat
    decreases m.len(),
{
    if m.len() == 0 {
        0
    } else {
        spec_count_false(m.drop_last()) + if m.last() {
            0nat
        } else {
            1nat
        }
    }
}

proof fn lemma_count_false_set(m: Seq<bool>, k: int)
    requires
        0 <= k < m.len(),
        !m[k],
    ensures
        spec_count_false(m.update(k, true)) + 1 == spec_count_false(m),
    decreases m.len(),
{
    let u = m.update(k, true);
    if k < m.len() - 1 {
        assert(u.drop_last() =~= m.drop_last().update(k, true));
        lemma_count_false_set(m.drop_last(), k);
    } else {
        assert(u.drop_last() =~= m.drop_last());
    }
}

/// Marks the states reachable from the start.
pub fn accessible_states<W: Copy>(fst: &VectorFst<W>) -> (r: Vec<bool>)
    requires
        fst.wf(),
    ensures
        r@.len() == fst.spec_num_states(),
        forall|s: int| 0 <= s < r@.len() ==> #[trigger] r@[s] == spec_accessible(*fst, s),
{
    let n = fst.num_states();
    let mut marks: Vec<bool> = Vec::new();
    let mut k: usize = 0;
    while k < n
        invariant
            k <= n,
            n == fst.spec_num_states(),
            marks@.len() == k,
            forall|j: int| 0 <= j < k ==> !#[trigger] marks@[j],
        decreases n - k,
    {
        marks.push(false);
        k = k + 1;
    }
    let mut work: Vec<StateId> = Vec::new();
    match fst.start() {
        Some(st) => {
            proof {
                lemma_count_false_set(marks@, st as int);
            }
            let ghost m0 = marks@;
            marks.set(st, true);
            work.push(st);
            proof {
                assert(work@[0] == st);
                assert forall|q: int| 0 <= q < n && marks@[q] implies q == st by {
                    if q != st {
                        assert(marks@[q] == m0[q]);
                    }
                }
            }
        },
        None => {},
    }
    while work.len() > 0
        invariant
            n == fst.spec_num_states(),
            fst.wf(),
            marks@.len() == n,
            forall|j: int| 0 <= j < work@.len() ==> #[trigger] work@[j] < n && marks@[work@[j] as int],
            fst.start matches Some(st) ==> marks@[st as int],
            // every marked state lies in every closed set holding the start
            forall|s: int, set: Set<int>|
                0 <= s < n && #[trigger] marks@[s] && (fst.start matches Some(st) ==> set.contains(st as int))
                    && spec_closed_forward(*fst, set) ==> #[trigger] set.contains(s),
            // a marked state off the work list has all its successors marked
            forall|s: int, i: int|
                #![trigger marks@[s], fst.spec_arcs(s)[i]]
                0 <= s < n && marks@[s] && !work@.contains(s as usize) && 0 <= i < fst.spec_arcs(s).len()
                    ==> marks@[fst.spec_arcs(s)[i].nextstate as int],
        decreases 2 * spec_count_false(marks@) + work@.len(),
    {
        let ghost measure0 = 2 * spec_count_false(marks@) + work@.len();
        let ghost work0 = work@;
        let x = work.pop().unwrap();
        proof {
            assert(work0 == work@.push(x));
            assert forall|s: int, i2: int|
                #![trigger marks@[s], fst.spec_arcs(s)[i2]]
                0 <= s < n && marks@[s] && !work@.contains(s as usize) && s != x && 0 <= i2 < fst.spec_arcs(s).len()
                    implies marks@[fst.spec_arcs(s)[i2].nextstate as int] by {
                if work0.contains(s as usize) {
                    let j = choose|j: int| 0 <= j < work0.len() && work0[j] == s as usize;
                    if j < work@.len() {
                        assert(work@[j] == s as usize);
                    }
                }
            }
        }
        let m = fst.num_arcs(x);
        let mut i: usize = 0;
        while i < m
            invariant
                n == fst.spec_num_states(),
                fst.wf(),
                x < n,
                marks@[x as int],
                m == fst.spec_arcs(x as int).len(),
                i <= m,
                marks@.len() == n,
                forall|j: int| 0 <= j < work@.len() ==> #[trigger] work@[j] < n && marks@[work@[j] as int],
                fst.start matches Some(st) ==> marks@[st as int],
                forall|s: int, set: Set<int>|
                    0 <= s < n && #[trigger] marks@[s] && (fst.start matches Some(st) ==> set.contains(st as int))
                        && spec_closed_forward(*fst, set) ==> #[trigger] set.contains(s),
                forall|s: int, i2: int|
                    #![trigger marks@[s], fst.spec_arcs(s)[i2]]
                    0 <= s < n && marks@[s] && !work@.contains(s as usize) && s != x && 0 <= i2 < fst.spec_arcs(s).len()
                        ==> marks@[fst.spec_arcs(s)[i2].nextstate as int],
                forall|i2: int| 0 <= i2 < i ==> marks@[#[trigger] fst.spec_arcs(x as int)[i2].nextstate as int],
                2 * spec_count_false(marks@) + work@.len() < measure0,
            decreases m - i,
        {
            let t = fst.arc(x, i).nextstate;
            proof {
                assert(fst.states@[x as int].arcs@[i as int].nextstate < n);
            }
            if !marks[t] {
                proof {
                    lemma_count_false_set(marks@, t as int);
                    assert forall|set: Set<int>|
                        (fst.start matches Some(st) ==> set.contains(st as int)) && spec_closed_forward(*fst, set)
                            implies #[trigger] set.contains(t as int) by {
                        assert(set.contains(x as int));
                        assert(set.contains(fst.spec_arcs(x as int)[i as int].nextstate as int));
                    }
                }
                let ghost wb = work@;
                let ghost mb = marks@;
                marks.set(t, true);
                work.push(t);
                proof {
                    assert(work@[work@.len() - 1] == t);
                    assert forall|q: int, i2: int|
                        #![trigger marks@[q], fst.spec_arcs(q)[i2]]
                        0 <= q < n && marks@[q] && !work@.contains(q as usize) && q != x && 0 <= i2 < fst.spec_arcs(q).len()
                            implies marks@[fst.spec_arcs(q)[i2].nextstate as int] by {
                        if q != t {
                            assert(mb[q]);
                            if wb.contains(q as usize) {
                                let j = choose|j: int| 0 <= j < wb.len() && wb[j] == q as usize;
                                assert(work@[j] == q as usize);
                            }
                            assert(mb[fst.spec_arcs(q)[i2].nextstate as int]);
                        }
                    }
                }
            }
            i = i + 1;
        }
    }
    proof {
        let set = Set::new(|s: int| 0 <= s < n && marks@[s]);
        assert forall|s: int, i: int|
            #![trigger set.contains(s), fst.spec_arcs(s)[i]]
            set.contains(s) && 0 <= i < fst.spec_arcs(s).len() implies set.contains(
                fst.spec_arcs(s)[i].nextstate as int,
            ) by {
            assert(!work@.contains(s as usize));
            assert(fst.states@[s].arcs@[i].nextstate < n);
        }
        assert forall|s: int| 0 <= s < n implies #[trigger] marks@[s] == spec_accessible(*fst, s) by {
            if spec_accessible(*fst, s) {
                assert(set.contains(s));
            }
        }
    }
    marks
}

/// Marks the states from which a final state is reachable.
pub fn coaccessible_states<W: Copy>(fst: &VectorFst<W>) -> (r: Vec<bool>)
    requires
        fst.wf(),
    ensures
        r@.len() == fst.spec_num_states(),
        forall|s: int| 0 <= s < r@.len() ==> #[trigger] r@[s] == spec_coaccessible(*fst, s),
{
    let n = fst.num_states();
    let mut marks: Vec<bool> = Vec::new();
    let mut k: usize = 0;
    while k < n
        invariant
            k <= n,
            n == fst.spec_num_states(),
            marks@.len() == k,
            forall|j: int| 0 <= j < k ==> #[trigger] marks@[j] == fst.spec_final(j).is_some(),
        decreases n - k,
    {
        marks.push(fst.final_weight(k).is_some());
        k = k + 1;
    }
    let mut changed = true;
    while changed
        invariant
            n == fst.spec_num_states(),
            fst.wf(),
            marks@.len() == n,
            forall|t: int| 0 <= t < n && fst.spec_final(t).is_some() ==> #[trigger] marks@[t],
            forall|s: int, set: Set<int>|
                0 <= s < n && #[trigger] marks@[s] && (forall|t: int|
                    0 <= t < fst.spec_num_states() && fst.spec_final(t).is_some() ==> set.contains(t))
                    && spec_closed_backward(*fst, set) ==> #[trigger] set.contains(s),
            !changed ==> forall|s: int, i: int|
                #![trigger fst.spec_arcs(s)[i]]
                0 <= s < n && 0 <= i < fst.spec_arcs(s).len() && marks@[fst.spec_arcs(s)[i].nextstate as int]
                    ==> marks@[s],
        decreases spec_count_false(marks@) + if changed {
            1nat
        } else {
            0nat
        },
    {
        let ghost cf0 = spec_count_false(marks@);
        let ghost m0 = marks@;
        changed = false;
        let mut s: usize = 0;
        while s < n
            invariant
                n == fst.spec_num_states(),
                fst.wf(),
                s <= n,
                marks@.len() == n,
                forall|t: int| 0 <= t < n && fst.spec_final(t).is_some() ==> #[trigger] marks@[t],
                forall|q: int, set: Set<int>|
                    0 <= q < n && #[trigger] marks@[q] && (forall|t: int|
                        0 <= t < fst.spec_num_states() && fst.spec_final(t).is_some() ==> set.contains(t))
                        && spec_closed_backward(*fst, set) ==> #[trigger] set.contains(q),
                !changed ==> marks@ == m0,
                cf0 == spec_count_false(m0),
                changed ==> spec_count_false(marks@) < cf0,
                !changed ==> forall|q: int, i: int|
                    #![trigger fst.spec_arcs(q)[i]]
                    0 <= q < s && 0 <= i < fst.spec_arcs(q).len() && marks@[fst.spec_arcs(q)[i].nextstate as int]
                        ==> marks@[q],
            decreases n - s,
        {
            if !marks[s] {
                let m = fst.num_arcs(s);
                let mut found = false;
                let mut i: usize = 0;
                while i < m && !found
                    invariant
                        n == fst.spec_num_states(),
                        fst.wf(),
                        s < n,
                        m == fst.spec_arcs(s as int).len(),
                        i <= m,
                        marks@.len() == n,
                        found ==> i < m && marks@[fst.spec_arcs(s as int)[i as int].nextstate as int],
                        !marks@[s as int],
                        changed ==> spec_count_false(marks@) < cf0,
                        !changed ==> marks@ == m0,
                        cf0 == spec_count_false(m0),
                        forall|t: int| 0 <= t < n && fst.spec_final(t).is_some() ==> #[trigger] marks@[t],
                        forall|q: int, set: Set<int>|
                            0 <= q < n && #[trigger] marks@[q] && (forall|t: int|
                                0 <= t < fst.spec_num_states() && fst.spec_final(t).is_some() ==> set.contains(t))
                                && spec_closed_backward(*fst, set) ==> #[trigger] set.contains(q),
                        !changed ==> forall|q: int, i3: int|
                            #![trigger fst.spec_arcs(q)[i3]]
                            0 <= q < s && 0 <= i3 < fst.spec_arcs(q).len() && marks@[fst.spec_arcs(q)[i3].nextstate as int]
                                ==> marks@[q],
                        !found ==> forall|i2: int| 0 <= i2 < i ==> !marks@[#[trigger] fst.spec_arcs(s as int)[i2].nextstate as int],
                    decreases m - i + if found { 0int } else { 1int },
                {
                    let t = fst.arc(s, i).nextstate;
                    proof {
                        assert(fst.states@[s as int].arcs@[i as int].nextstate < n);
                    }
                    if marks[t] {
                        found = true;
                    } else {
                        i = i + 1;
                    }
                }
                if found {
                    proof {
                        lemma_count_false_set(marks@, s as int);
                        let t = fst.spec_arcs(s as int)[i as int].nextstate as int;
                        assert forall|set: Set<int>|
                            (forall|t2: int| 0 <= t2 < fst.spec_num_states() && fst.spec_final(t2).is_some() ==> set.contains(t2))
                                && spec_closed_backward(*fst, set) implies #[trigger] set.contains(s as int) by {
                            assert(set.contains(t));
                        }
                    }
                    let ghost mb = marks@;
                    marks.set(s, true);
                    proof {
                        assert(marks@ == mb.update(s as int, true));
                        assert(spec_count_false(marks@) + 1 == spec_count_false(mb));
                        if !changed {
                            assert(mb == m0);
                        }
                    }
                    changed = true;
                }
            }
            s = s + 1;
        }
    }
    proof {
        let set = Set::new(|q: int| 0 <= q < n && marks@[q]);
        assert forall|q: int| 0 <= q < n implies #[trigger] marks@[q] == spec_coaccessible(*fst, q) by {
            if spec_coaccessible(*fst, q) {
                assert(set.contains(q));
            }
        }
    }
    marks
}

/// The number of `true` entries.
pub open spec fn spec_count_true(m: Seq<bool>) -> nat
    decreases m.len(),
{
    if m.len() == 0 {
        0
    } else {
        spec_count_true(m.drop_last()) + if m.last() {
            1nat
        } else {
            0nat
        }
    }
}

/// The new number of state `s`: how many kept states precede it.
pub open spec fn spec_rank(keep: Seq<bool>, s: int) -> nat {
    spec_count_true(keep.take(s))
}

/// Which states `connect` keeps: those both accessible and co-accessible.
pub open spec fn spec_keep<W: Copy>(fst: VectorFst<W>) -> Seq<bool> {
    Seq::new(fst.spec_num_states(), |s: int| spec_accessible(fst, s) && spec_coaccessible(fst, s))
}

/// The arcs of `arcs` into kept states, renumbered.
pub open spec fn spec_kept_arcs<W>(arcs: Seq<Arc<W>>, keep: Seq<bool>) -> Seq<Arc<W>>
    decreases arcs.len(),
{
    if arcs.len() == 0 {
        Seq::empty()
    } else {
        let rest = spec_kept_arcs(arcs.drop_last(), keep);
        let a = arcs.last();
        if a.nextstate < keep.len() && keep[a.nextstate as int] {
            rest.push(Arc { nextstate: spec_rank(keep, a.nextstate as int) as usize, ..a })
        } else {
            rest
        }
    }
}

proof fn lemma_rank_step(keep: Seq<bool>, s: int)
    requires
        0 <= s < keep.len(),
    ensures
        spec_rank(keep, s + 1) == spec_rank(keep, s) + if keep[s] { 1nat } else { 0nat },
{
    assert(keep.take(s + 1).drop_last() =~= keep.take(s));
}

proof fn lemma_rank_mono(keep: Seq<bool>, a: int, b: int)
    requires
        0 <= a <= b <= keep.len(),
    ensures
        spec_rank(keep, a) <= spec_rank(keep, b),
        a < b && keep[a] ==> spec_rank(keep, a) < spec_rank(keep, b),
        spec_rank(keep, b) <= b,
    decreases b,
{
    if b > 0 {
        lemma_rank_step(keep, b - 1);
        if a < b {
            lemma_rank_mono(keep, a, b - 1);
        }
        lemma_rank_mono(keep, 0, b - 1);
    } else {
        assert(keep.take(0) =~= Seq::<bool>::empty());
    }
}

/// Appends kept state `s` of `fst` to `out`: its final weight and its arcs
/// into kept states, renumbered by `rank`.
fn push_kept_state<W: Copy>(
    fst: &VectorFst<W>,
    s: StateId,
    keep: &Vec<bool>,
    rank: &Vec<usize>,
    out: &mut VectorFst<W>,
)
    requires
        fst.wf(),
        s < fst.spec_num_states(),
        keep@.len() == fst.spec_num_states(),
        rank@.len() == fst.spec_num_states(),
        forall|j: int| 0 <= j < keep@.len() ==> #[trigger] rank@[j] == spec_rank(keep@, j),
    ensures
        final(out).spec_num_states() == old(out).spec_num_states() + 1,
        final(out).start == old(out).start,
        final(out).spec_final(old(out).spec_num_states() as int) == fst.spec_final(s as int),
        final(out).spec_arcs(old(out).spec_num_states() as int) == spec_kept_arcs(fst.spec_arcs(s as int), keep@),
        forall|t: int| t != old(out).spec_num_states() ==> #[trigger] final(out).spec_arcs(t) == old(out).spec_arcs(t),
        forall|t: int| t != old(out).spec_num_states() ==> #[trigger] final(out).spec_final(t) == old(out).spec_final(t),
{
    let n = fst.num_states();
    let id = out.add_state();
    match fst.final_weight(s) {
        Some(w) => out.set_final(id, w),
        None => {},
    }
    let ghost out1 = *out;
    let m = fst.num_arcs(s);
    let mut i: usize = 0;
    while i < m
        invariant
            n == fst.spec_num_states(),
            fst.wf(),
            s < n,
            keep@.len() == n,
            rank@.len() == n,
            forall|j: int| 0 <= j < n ==> #[trigger] rank@[j] == spec_rank(keep@, j),
            m == fst.spec_arcs(s as int).len(),
            i <= m,
            id == old(out).spec_num_states(),
            out.spec_num_states() == id + 1,
            out.start == old(out).start,
            out.spec_final(id as int) == fst.spec_final(s as int),
            out.spec_arcs(id as int) == spec_kept_arcs(fst.spec_arcs(s as int).take(i as int), keep@),
            forall|t: int| t != id ==> #[trigger] out.spec_arcs(t) == out1.spec_arcs(t),
            forall|t: int| #[trigger] out.spec_final(t) == out1.spec_final(t),
        decreases m - i,
    {
        let a = fst.arc(s, i);
        proof {
            assert(fst.states@[s as int].arcs@[i as int].nextstate < n);
            let t = fst.spec_arcs(s as int).take(i as int + 1);
            assert(t.drop_last() =~= fst.spec_arcs(s as int).take(i as int));
            assert(t.last() == a);
        }
        if keep[a.nextstate] {
            out.add_arc(id, Arc::new(a.ilabel, a.olabel, a.weight, rank[a.nextstate]));
        }
        i = i + 1;
    }
    proof {
        assert(fst.spec_arcs(s as int).take(m as int) =~= fst.spec_arcs(s as int));
    }
}

/// `after` is `before` with only its accessible and co-accessible states,
/// renumbered in their old order, and the arcs between them.
pub open spec fn spec_connected<W: Copy>(before: VectorFst<W>, after: VectorFst<W>) -> bool {
    let keep = spec_keep(before);
    let n = before.spec_num_states() as int;
    &&& after.spec_num_states() == spec_rank(keep, n)
    &&& forall|s: int|
        0 <= s < n && #[trigger] keep[s] ==> after.spec_final(spec_rank(keep, s) as int)
            == before.spec_final(s) && after.spec_arcs(spec_rank(keep, s) as int)
            == spec_kept_arcs(before.spec_arcs(s), keep)
    &&& after.start == (match before.start {
        Some(st) => if keep[st as int] {
            Some(spec_rank(keep, st as int) as usize)
        } else {
            None
        },
        None => None,
    })
}

/// Keeps only the states that are accessible and co-accessible, numbered in
/// their old order, with the arcs between them.
pub fn connect<W: Copy>(fst: &mut VectorFst<W>)
    requires
        old(fst).wf(),
    ensures
        spec_connected(*old(fst), *final(fst)),
{
    let ghost keep_s = spec_keep(*fst);
    let acc = accessible_states(fst);
    let coacc = coaccessible_states(fst);
    let n = fst.num_states();
    let mut keep: Vec<bool> = Vec::new();
    let mut rank: Vec<usize> = Vec::new();
    let mut cnt: usize = 0;
    let mut s: usize = 0;
    while s < n
        invariant
            n == fst.spec_num_states(),
            n == keep_s.len(),
            keep_s == spec_keep(*fst),
            acc@.len() == n,
            coacc@.len() == n,
            forall|j: int| 0 <= j < n ==> #[trigger] acc@[j] == spec_accessible(*fst, j),
            forall|j: int| 0 <= j < n ==> #[trigger] coacc@[j] == spec_coaccessible(*fst, j),
            s <= n,
            keep@ == keep_s.take(s as int),
            rank@.len() == s,
            forall|j: int| 0 <= j < s ==> #[trigger] rank@[j] == spec_rank(keep_s, j),
            cnt == spec_rank(keep_s, s as int),
        decreases n - s,
    {
        proof {
            lemma_rank_step(keep_s, s as int);
            lemma_rank_mono(keep_s, 0, s as int);
        }
        let k = acc[s] && coacc[s];
        keep.push(k);
        rank.push(cnt);
        if k {
            cnt = cnt + 1;
        }
        s = s + 1;
        proof {
            assert(keep@ =~= keep_s.take(s as int));
        }
    }
    proof {
        assert(keep@ =~= keep_s);
    }
    let mut out: VectorFst<W> = VectorFst::new();
    let mut s: usize = 0;
    while s < n
        invariant
            n == fst.spec_num_states(),
            fst.wf(),
            keep@ == keep_s,
            n == keep_s.len(),
            rank@.len() == n,
            forall|j: int| 0 <= j < n ==> #[trigger] rank@[j] == spec_rank(keep_s, j),
            s <= n,
            out.spec_num_states() == spec_rank(keep_s, s as int),
            out.start.is_none(),
            forall|q: int|
                0 <= q < s && #[trigger] keep_s[q] ==> out.spec_final(spec_rank(keep_s, q) as int)
                    == fst.spec_final(q) && out.spec_arcs(spec_rank(keep_s, q) as int)
                    == spec_kept_arcs(fst.spec_arcs(q), keep_s),
        decreases n - s,
    {
        proof {
            lemma_rank_step(keep_s, s as int);
        }
        if keep[s] {
            let ghost out0 = out;
            push_kept_state(fst, s, &keep, &rank, &mut out);
            proof {
                assert forall|q: int|
                    0 <= q < s + 1 && #[trigger] keep_s[q] implies out.spec_final(spec_rank(keep_s, q) as int)
                        == fst.spec_final(q) && out.spec_arcs(spec_rank(keep_s, q) as int)
                        == spec_kept_arcs(fst.spec_arcs(q), keep_s) by {
                    if q < s {
                        lemma_rank_mono(keep_s, q, s as int);
                        assert(out.spec_arcs(spec_rank(keep_s, q) as int) == out0.spec_arcs(spec_rank(keep_s, q) as int));
                        assert(out.spec_final(spec_rank(keep_s, q) as int) == out0.spec_final(spec_rank(keep_s, q) as int));
                    }
                }
            }
        }
        s = s + 1;
    }
    match fst.start() {
        Some(st) => {
            if keep[st] {
                out.set_start(rank[st]);
            }
        },
        None => {},
    }
    *fst = out;
}

} // verus!
