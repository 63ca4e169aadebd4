//! The verified core of the lumen JavaScript engine.

pub mod alloc_laws;
pub mod ast;
pub mod bytecode;
pub mod cldr_pack;
pub mod embed_convert;
pub mod engine;
pub mod engine_laws;
pub mod eval;
pub mod fastalloc;
pub mod interpreter;
pub mod lstr;
pub mod lstr_compact;
pub mod lstr_laws;
pub mod num;
pub mod num_laws;
pub mod object;
pub mod object_laws;
pub mod runs;
pub mod tables;
pub mod text;
pub mod text_laws;
pub mod value;
pub mod value_laws;
