//! Medium changers: their elements, what they report and what they are asked to do.
pub mod commands;
pub mod element;
pub mod laws;
pub mod report_laws;
