//! The interpreter's state around running code.

pub mod arrays;
pub mod call_cx;
pub mod call_state;
pub mod callee_laws;
pub mod callee_text;
pub mod callsite;
pub mod class_fields;
pub mod coro_body;
pub mod field_laws;
pub mod frames;
pub mod interp;
pub mod line_table;
pub mod native_names;
pub mod scan_laws;
pub mod scope;
pub mod script_frames;
pub mod sources;
pub mod stack_trace;
pub mod ta_meta;
pub mod trace_laws;
pub mod trace_text;
