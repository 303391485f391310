//! Lazy composition of weighted finite-state transducers.

pub mod semiring;
pub mod arc;
pub mod fst;
pub mod matcher;
pub mod filter_state;
pub mod trivial_filter;
pub mod state_table;
pub mod cache;
pub mod compose;
pub mod push_labels_filter;
pub mod matcher_data;
pub mod final_states;
pub mod compose_fst;
pub mod connect;
pub mod closure;
