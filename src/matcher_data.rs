use vstd::prelude::*;
use crate::arc::{Arc, Label, StateId, NO_LABEL, NO_STATE_ID};
use crate::matcher::MatchType;
use crate::semiring::Semiring;

verus! {

/// An arc as recorded in matcher test data: `-1` stands for "none".
#[derive(Clone, Debug)]
pub struct SerializedArc {
    pub ilabel: i32,
    pub olabel: i32,
    pub weight: String,
    pub nextstate: i32,
}

/// One recorded matcher query and the arcs it returned.
#[derive(Clone, Debug)]
pub struct MatcherOperationResult {
    pub state: usize,
    pub label: usize,
    /// 1 for input labels, 2 for output labels.
    pub match_type: usize,
    pub arcs: Vec<SerializedArc>,
}

/// A matcher query with its expected answer.
#[derive(Clone, Debug)]
pub struct MatcherTestData<W> {
    pub label: Label,
    pub state: StateId,
    pub match_type: MatchType,
    pub arcs: Vec<Arc<W>>,
}

/// A recorded number: `-1` is `none`; any other value is converted with
/// `as usize`.
pub open spec fn spec_number(v: i32, none: usize) -> usize {
    if v == -1 {
        none
    } else {
        v as usize
    }
}

pub open spec fn spec_match_type_code(code: usize) -> Option<MatchType> {
    if code == 1 {
        Some(MatchType::MatchInput)
    } else if code == 2 {
        Some(MatchType::MatchOutput)
    } else {
        None
    }
}

/// The arc that a recorded arc stands for.
pub open spec fn spec_arc<W: Semiring>(s: SerializedArc) -> Option<Arc<W>> {
    match W::spec_parse_text(s.weight@) {
        Some(w) => Some(
            Arc {
                ilabel: spec_number(s.ilabel, NO_LABEL),
                olabel: spec_number(s.olabel, NO_LABEL),
                weight: w,
                nextstate: spec_number(s.nextstate, NO_STATE_ID),
            },
        ),
        None => None,
    }
}

fn number(v: i32, none: usize) -> (r: usize)
    ensures
        r == spec_number(v, none),
{
    if v == -1 {
        none
    } else {
        v as usize
    }
}

fn parse_arc<W: Semiring>(s: &SerializedArc) -> (r: Option<Arc<W>>)
    ensures
        r == spec_arc::<W>(*s),
{
    let i = number(s.ilabel, NO_LABEL);
    let o = number(s.olabel, NO_LABEL);
    let w = W::parse_text(s.weight.as_str());
    let n = number(s.nextstate, NO_STATE_ID);
    match w {
        Some(w) => Some(Arc::new(i, o, w, n)),
        None => None,
    }
}

impl MatcherOperationResult {
    /// The query as typed values: `None` where an arc's weight does not
    /// parse. The match type code must be 1 or 2.
    pub fn parse<W: Semiring>(&self) -> (r: Option<MatcherTestData<W>>)
        requires
            self.match_type == 1 || self.match_type == 2,
        ensures
            match r {
                Some(d) => d.label == self.label && d.state == self.state && Some(d.match_type)
                    == spec_match_type_code(self.match_type) && d.arcs@.len() == self.arcs@.len()
                    && forall|k: int| 0 <= k < self.arcs@.len() ==> Some(#[trigger] d.arcs@[k])
                    == spec_arc::<W>(self.arcs@[k]),
                None => exists|k: int|
                    0 <= k < self.arcs@.len() && (#[trigger] spec_arc::<W>(self.arcs@[k])).is_none(),
            },
    {
        let match_type = if self.match_type == 1 {
            MatchType::MatchInput
        } else {
            MatchType::MatchOutput
        };
        let mut arcs: Vec<Arc<W>> = Vec::new();
        let mut i: usize = 0;
        while i < self.arcs.len()
            invariant
                i <= self.arcs@.len(),
                arcs@.len() == i,
                forall|k: int| 0 <= k < i ==> Some(#[trigger] arcs@[k]) == spec_arc::<W>(self.arcs@[k]),
            decreases self.arcs@.len() - i,
        {
            match parse_arc(&self.arcs[i]) {
                Some(a) => arcs.push(a),
                None => {
                    proof {
                        assert(spec_arc::<W>(self.arcs@[i as int]).is_none());
                    }
                    return None;
                },
            }
            i = i + 1;
        }
        Some(MatcherTestData { label: self.label, state: self.state, match_type, arcs })
    }
}

} // verus!
