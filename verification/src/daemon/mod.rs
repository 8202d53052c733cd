//! The daemon: replicated control state, the file directory, the wire formats and the decisions
//! of the node and of the tape executor.
pub mod batch;
pub mod batch_laws;
pub mod batch_run;
pub mod codec;
pub mod control_laws;
pub mod copying;
pub mod detail_laws;
pub mod directory;
pub mod directory_laws;
pub mod encoding;
pub mod executor;
pub mod file_laws;
pub mod files;
pub mod http;
pub mod http_laws;
pub mod index_laws;
pub mod laws;
pub mod library;
pub mod library_laws;
pub mod listing_laws;
pub mod log_laws;
pub mod members;
pub mod member_laws;
pub mod net;
pub mod node;
pub mod node_laws;
pub mod nodes;
pub mod opening;
pub mod paths;
pub mod read_run;
pub mod read_laws;
pub mod reading;
pub mod reclaim;
pub mod reclaim_laws;
pub mod request;
pub mod request_laws;
pub mod run_laws;
pub mod service_laws;
pub mod state;
pub mod status;
pub mod store;
pub mod tape_laws;
pub mod tape_state;
pub mod tape_switch;
pub mod upkeep_laws;
pub mod volume;
pub mod write_tape;
