//! What the command line tools compute.
pub mod address_laws;
pub mod changer;
pub mod device_laws;
pub mod format_util;
pub mod inquiry;
pub mod laws;
pub mod ltfs;
pub mod order;
pub mod report;
pub mod size_laws;
pub mod tables;
pub mod tape;
pub mod union_find;
