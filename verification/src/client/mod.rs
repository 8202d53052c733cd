//! The client: which node it asks, what it sends, and what it makes of the answers.
pub mod answer_laws;
pub mod laws;
pub mod reply;
pub mod search;
pub mod upload;
pub mod wire;
pub mod wire_laws;
