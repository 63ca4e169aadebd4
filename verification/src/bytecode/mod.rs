//! Bytecode: the op set, compiled chunks, and what is computed over them.

pub mod call_laws;
pub mod chunk;
pub mod chunk_codec;
pub mod code_laws;
pub mod compiler;
pub mod default_laws;
pub mod fingerprint;
pub mod items;
pub mod jit;
pub mod list_codec;
pub mod machine;
pub mod memsize;
pub mod name_path;
pub mod op;
pub mod op_codec;
pub mod op_table_laws;
pub mod parameters;
pub mod path_laws;
pub mod positions;
pub mod prepared_call;
pub mod reflect;
pub mod registry;
pub mod registry_laws;
pub mod section;
pub mod section_laws;
pub mod self_tail;
pub mod strings;
pub mod switch_table;
pub mod table_laws;
pub mod unit_index;
pub mod unit_laws;
pub mod vm_regs;
pub mod wire;
