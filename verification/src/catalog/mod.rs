//! The catalog of volumes: what its rows hold and how they are looked up.
pub mod query;
pub mod sync;
pub mod db;
pub mod laws;
