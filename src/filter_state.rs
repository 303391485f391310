use vstd::prelude::*;
use crate::arc::Label;

verus! {

/// The state of a filter that a decorator wraps.
#[derive(Clone, Copy, PartialEq, Eq, Structural, Debug, Hash)]
pub enum BaseFilterState {
    Trivial,
    Integer(Label),
}

/// A token describing how much epsilon or label ambiguity is unresolved at a
/// composed state. `NoState` is the reject sentinel and is never stored.
#[derive(Clone, Copy, PartialEq, Eq, Structural, Debug, Hash)]
pub enum FilterState {
    NoState,
    /// The single state of the trivial filter.
    Trivial,
    /// A pending label, `NO_LABEL` when there is none.
    Integer(Label),
    /// A wrapped filter's state and a pending label (`NO_LABEL`: none).
    Pair(BaseFilterState, Label),
}

} // verus!
