//! Typed conversions between the host and JavaScript: op descriptors, argument conversion with
//! borrowed byte views, results, errors, promises and classes.

pub mod arg_cx;
pub mod class;
pub mod convert;
pub mod convert_laws;
pub mod desc;
pub mod host;
pub mod host_laws;
pub mod into_heap;
pub mod op_error;
pub mod promise;
pub mod views;
