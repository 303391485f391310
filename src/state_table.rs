use vstd::prelude::*;
use crate::arc::StateId;
use crate::filter_state::FilterState;

verus! {

/// The identity of a state of the composed automaton.
#[derive(Clone, Copy, PartialEq, Eq, Structural, Debug, Hash)]
pub struct ComposeStateTuple {
    pub fs: FilterState,
    pub s1: StateId,
    pub s2: StateId,
}

/// A growing bijection between tuples and dense ids, assigned in the order in
/// which tuples are first seen.
#[derive(Clone, Debug)]
pub struct StateTable {
    pub tuples: Vec<ComposeStateTuple>,
}

impl StateTable {
    pub open spec fn view(&self) -> Seq<ComposeStateTuple> {
        self.tuples@
    }

    /// No tuple is registered twice.
    pub open spec fn wf(&self) -> bool {
        forall|i: int, j: int|
            0 <= i < self@.len() && 0 <= j < self@.len() && i != j ==> #[trigger] self@[i]
                != #[trigger] self@[j]
    }

    /// The id of a registered tuple.
    pub open spec fn spec_id_of(&self, t: ComposeStateTuple) -> int {
        choose|i: int| 0 <= i < self@.len() && self@[i] == t
    }

    pub fn new() -> (r: StateTable)
        ensures
            r@.len() == 0,
            r.wf(),
    {
        StateTable { tuples: Vec::new() }
    }

    pub fn len(&self) -> (r: usize)
        ensures
            r == self@.len(),
    {
        self.tuples.len()
    }

    /// The id of `t`, registering it with the next id if it is new.
    pub fn find_id(&mut self, t: ComposeStateTuple) -> (r: StateId)
        requires
            old(self).wf(),
        ensures
            final(self).wf(),
            r < final(self)@.len(),
            final(self)@[r as int] == t,
            r == final(self).spec_id_of(t),
            old(self)@.contains(t) ==> final(self)@ == old(self)@,
            !old(self)@.contains(t) ==> final(self)@ == old(self)@.push(t),
    {
        let n = self.tuples.len();
        let mut i: usize = 0;
        while i < n
            invariant
                n == self@.len(),
                self.wf(),
                *self == *old(self),
                i <= n,
                forall|k: int| 0 <= k < i ==> self@[k] != t,
            decreases n - i,
        {
            if self.tuples[i] == t {
                proof {
                    lemma_unique_index(*self, t, i as int);
                }
                return i;
            }
            i = i + 1;
        }
        self.tuples.push(t);
        proof {
            assert(self@[n as int] == t);
            assert(!old(self)@.contains(t));
            lemma_unique_index(*self, t, n as int);
        }
        n
    }

    /// The tuple registered under `id`.
    pub fn find_tuple(&self, id: StateId) -> (r: ComposeStateTuple)
        requires
            id < self@.len(),
        ensures
            r == self@[id as int],
    {
        self.tuples[id]
    }
}

/// Each registered tuple has exactly one id: the tuple stored under id `i`
/// maps back to `i`, and only the tuple stored there does.
pub proof fn lemma_unique_index(table: StateTable, t: ComposeStateTuple, i: int)
    requires
        table.wf(),
        0 <= i < table@.len(),
    ensures
        (table@[i] == t) <==> (table@.contains(t) && table.spec_id_of(t) == i),
{
    if table@[i] == t {
        assert(table@.contains(t));
        let j = table.spec_id_of(t);
        assert(0 <= j < table@.len() && table@[j] == t);
    }
    if table@.contains(t) {
        let k = choose|k: int| 0 <= k < table@.len() && table@[k] == t;
        assert(0 <= k < table@.len() && table@[k] == t);
    }
}

} // verus!
