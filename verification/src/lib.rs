pub mod catalog;
pub mod changer;
pub mod cli;
pub mod client;
pub mod daemon;
pub mod engine;
pub mod error;
pub mod fuse;
pub mod fuse_laws;
pub mod idmap;
pub mod json;
pub mod strmap;
pub mod text;
pub mod url;
