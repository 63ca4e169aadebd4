//! The optimizing tier: when to compile, how native code is entered and left, and what it may
//! assume of memory.

pub mod compiles;
pub mod direct;
pub mod enter;
pub mod function;
pub mod laws;
pub mod memory_laws;
pub mod layout;
pub mod new_plan;
pub mod prop_access;
pub mod records;
pub mod tier;
pub mod words;
