//! Compiled functions.

use super::op::Op;
use crate::value::{Value, ValueView};
use vstd::prelude::*;

verus! {

/// The identity of a function of the program.
#[derive(Clone, Copy, Debug, PartialEq, Eq, Structural)]
pub struct FnId(pub u64);

/// How a captured binding of an activation is seeded.
#[derive(Debug)]
pub enum CapInit {
    /// Parameter `k`, under a name.
    Param(u16, String),
    Var(String),
    /// A hoisted function declaration: inner function `k`, under a name.
    Fn(u16, String),
    /// A lexical binding (and whether it is `const`).
    Lexical(String, bool),
}

pub enum CapInitView {
    Param(u16, Seq<char>),
    Var(Seq<char>),
    Fn(u16, Seq<char>),
    Lexical(Seq<char>, bool),
}

impl DeepView for CapInit {
    type V = CapInitView;

    open spec fn deep_view(&self) -> CapInitView {
        match *self {
            CapInit::Param(k, n) => CapInitView::Param(k, n@),
            CapInit::Var(n) => CapInitView::Var(n@),
            CapInit::Fn(k, n) => CapInitView::Fn(k, n@),
            CapInit::Lexical(n, c) => CapInitView::Lexical(n@, c),
        }
    }
}

impl DeepView for FnId {
    type V = FnId;

    open spec fn deep_view(&self) -> FnId {
        *self
    }
}

impl DeepView for Op {
    type V = Op;

    open spec fn deep_view(&self) -> Op {
        *self
    }
}

/// A compiled function: what the compiler derives from the source, and the sizes of the tables
/// that hold run-time state.
pub struct Chunk {
    pub ops: Vec<Op>,
    pub consts: Vec<Value>,
    pub names: Vec<String>,
    pub n_slots: usize,
    pub slot_names: Vec<String>,
    pub n_params: usize,
    pub arguments_slot: Option<u16>,
    pub rest_slot: Option<u16>,
    pub virt_base: Option<u16>,
    pub var_force_resets: Vec<u16>,
    pub uses_this: bool,
    pub env_this: bool,
    pub derived: bool,
    pub reflect_args: bool,
    /// The inner function templates.
    pub funcs: Vec<FnId>,
    /// The number of class definitions.
    pub classes: usize,
    pub cap_inits: Vec<CapInit>,
    /// The call sites' positions (see [`super::positions`]).
    pub positions: Vec<u8>,
    /// Property inline caches.
    pub caches: usize,
    /// Object-literal templates.
    pub obj_maps: usize,
    /// Name caches, and the paths and pins that go with them.
    pub name_caches: usize,
    pub name_paths: usize,
    pub name_pins: usize,
    /// Captured-name caches and their pins.
    pub cap_caches: usize,
    pub cap_pins: usize,
    pub switch_tables: usize,
}

pub struct ChunkView {
    pub ops: Seq<Op>,
    pub consts: Seq<ValueView>,
    pub names: Seq<Seq<char>>,
    pub n_slots: usize,
    pub slot_names: Seq<Seq<char>>,
    pub n_params: usize,
    pub arguments_slot: Option<u16>,
    pub rest_slot: Option<u16>,
    pub virt_base: Option<u16>,
    pub var_force_resets: Seq<u16>,
    pub uses_this: bool,
    pub env_this: bool,
    pub derived: bool,
    pub reflect_args: bool,
    pub funcs: Seq<FnId>,
    pub classes: usize,
    pub cap_inits: Seq<CapInitView>,
    pub positions: Seq<u8>,
    pub caches: usize,
    pub obj_maps: usize,
    pub name_caches: usize,
    pub name_paths: usize,
    pub name_pins: usize,
    pub cap_caches: usize,
    pub cap_pins: usize,
    pub switch_tables: usize,
}

impl DeepView for Chunk {
    type V = ChunkView;

    open spec fn deep_view(&self) -> ChunkView {
        ChunkView {
            ops: self.ops@,
            consts: self.consts.deep_view(),
            names: self.names.deep_view(),
            n_slots: self.n_slots,
            slot_names: self.slot_names.deep_view(),
            n_params: self.n_params,
            arguments_slot: self.arguments_slot,
            rest_slot: self.rest_slot,
            virt_base: self.virt_base,
            var_force_resets: self.var_force_resets@,
            uses_this: self.uses_this,
            env_this: self.env_this,
            derived: self.derived,
            reflect_args: self.reflect_args,
            funcs: self.funcs@,
            classes: self.classes,
            cap_inits: self.cap_inits.deep_view(),
            positions: self.positions@,
            caches: self.caches,
            obj_maps: self.obj_maps,
            name_caches: self.name_caches,
            name_paths: self.name_paths,
            name_pins: self.name_pins,
            cap_caches: self.cap_caches,
            cap_pins: self.cap_pins,
            switch_tables: self.switch_tables,
        }
    }
}

impl ChunkView {
    /// The tables agree with each other as the compiler makes them.
    pub open spec fn tables_agree(self) -> bool {
        &&& self.n_slots == self.slot_names.len()
        &&& self.name_paths == self.name_caches
        &&& self.name_pins == self.name_caches
        &&& self.cap_caches == self.names.len()
        &&& self.cap_pins == self.names.len()
    }
}

} // verus!
