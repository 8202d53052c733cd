//! Device-independent engine state.
pub mod change_laws;
pub mod committed;
pub mod laws;
pub mod publish_laws;
pub mod tree;
pub mod tree_laws;
pub mod volume_state;
