use vstd::prelude::*;

verus! {

/// A label names a symbol; `EPS_LABEL` and `NO_LABEL` are reserved.
pub type Label = usize;

/// A dense state number; `NO_STATE_ID` is reserved.
pub type StateId = usize;

/// The "no symbol" label.
pub const EPS_LABEL: Label = 0;

/// Placeholder label of synthetic arcs; never a real symbol.
pub const NO_LABEL: Label = usize::MAX;

/// The "no state" sentinel.
pub const NO_STATE_ID: StateId = usize::MAX;

/// A transition `ilabel:olabel/weight -> nextstate`.
#[derive(Clone, Copy, PartialEq, Eq, Debug, Hash)]
pub struct Arc<W> {
    pub ilabel: Label,
    pub olabel: Label,
    pub weight: W,
    pub nextstate: StateId,
}

impl<W: Copy> Arc<W> {
    pub fn new(ilabel: Label, olabel: Label, weight: W, nextstate: StateId) -> (r: Arc<W>)
        ensures
            r == (Arc { ilabel, olabel, weight, nextstate }),
    {
        Arc { ilabel, olabel, weight, nextstate }
    }
}

} // verus!
