pub mod bytes;
pub mod transport;
pub mod response;
pub mod text;
pub mod json;
pub mod json_codec;
pub mod protocol;
pub mod responses;
pub mod scan;
pub mod discovery;
pub mod cli_text;
pub mod gui_model;
pub mod gui_reducer;
pub mod gui_panels;
pub mod action_text;
pub mod trace_box;
pub mod trace;
pub mod receipt;
pub mod chunking;
pub mod chunk_plan;
pub mod redaction;
pub mod worker_events;
pub mod runtime;
pub mod session;
pub mod debug_text;
pub mod cli_requests;
pub mod worker_flow;
pub mod worker_loop;
pub mod wifi_rows;
pub mod worker_state;
