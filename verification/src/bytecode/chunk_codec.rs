//! Encoding and decoding one chunk.
//!
//! The layout, in order: ops, constants, names, slot names, the parameter count, a flags byte
//! and the slots it announces, the forced resets, the inner functions, the capture seeds, the
//! sizes of the cache tables, and the position table. Run-time state is never written: its
//! tables are sized anew when a chunk is decoded.

use super::chunk::{CapInit, CapInitView, Chunk, ChunkView, FnId};
use super::list_codec::{
    all_canonical, all_carried, carried_len, counted_at, counted_bytes, lemma_counted_reads_back,
    lemma_counted_stable, list_strs, read_list, tables_match, write_list, EncodeError, Tables,
    TablesView, Wire,
};
use super::op::Op;
use super::op_codec::u16_at;
use super::strings::{
    add_strs, all_in, continues, lemma_add_strs, lemma_add_strs_concat, lemma_continues_trans,
    Strings,
};
use super::unit_index::UnitIndex;
use super::wire::{
    bytes_at, count_at, has_at, lemma_count_reads_back, lemma_has_at_split, lemma_u8_reads_back,
    lemma_uv_reads_back, u8_at, uv, uv_at, uv_bytes, DecodeError, Rd, Read,
};
use crate::value::{Value, ValueView};
use vstd::prelude::*;

verus! {

// ---- what is carried ------------------------------------------------------------------------

/// Whether the encoding carries the chunk.
pub open spec fn chunk_carried(c: ChunkView, unit: Seq<FnId>) -> bool {
    &&& c.classes == 0
    &&& c.tables_agree()
    &&& all_carried::<Value>(c.consts, unit)
    &&& all_carried::<FnId>(c.funcs, unit)
}

/// Why the encoding does not carry the chunk: the first reason met in writing order.
pub open spec fn chunk_refusal(c: ChunkView, unit: Seq<FnId>) -> EncodeError {
    if c.classes != 0 {
        EncodeError::Classes
    } else if !c.tables_agree() {
        EncodeError::TablesDisagree
    } else if !all_carried::<Value>(c.consts, unit) {
        EncodeError::Constant
    } else {
        EncodeError::Function
    }
}

/// The strings that writing the chunk asks the table for, in order (also where the chunk turns
/// out not to be carried).
pub open spec fn chunk_strs(c: ChunkView, unit: Seq<FnId>) -> Seq<Seq<char>> {
    if c.classes != 0 || !c.tables_agree() {
        Seq::empty()
    } else if !all_carried::<Value>(c.consts, unit) {
        list_strs::<Value>(c.consts.take(carried_len::<Value>(c.consts, unit) as int))
    } else {
        let head = list_strs::<Value>(c.consts) + list_strs::<String>(c.names)
            + list_strs::<String>(c.slot_names);
        if !all_carried::<FnId>(c.funcs, unit) {
            head
        } else {
            head + list_strs::<CapInit>(c.cap_inits)
        }
    }
}

// ---- bytes ----------------------------------------------------------------------------------

/// A flag's share of the flags byte.
pub open spec fn bit(set: bool, weight: int) -> int {
    if set {
        weight
    } else {
        0
    }
}

/// The flags byte.
pub open spec fn flags_of(c: ChunkView) -> u8 {
    (bit(c.uses_this, 1) + bit(c.env_this, 2) + bit(c.arguments_slot is Some, 4) + bit(
        c.rest_slot is Some,
        8,
    ) + bit(c.derived, 16) + bit(c.reflect_args, 32) + bit(c.virt_base is Some, 64)) as u8
}

/// Flag `bit` (a power of two) of a flags byte.
pub open spec fn flag(flags: u8, bit: int) -> bool {
    (flags as int / bit) % 2 == 1
}

pub open spec fn slot_bytes(slot: Option<u16>) -> Seq<u8> {
    match slot {
        None => Seq::empty(),
        Some(v) => uv_bytes(v as nat),
    }
}

/// Reading a slot that is there if `present`.
pub open spec fn slot_at(s: Seq<u8>, pos: int, present: bool) -> Read<Option<u16>> {
    if present {
        match u16_at(s, pos) {
            Err(e) => Err(e),
            Ok((v, end)) => Ok((Some(v), end)),
        }
    } else {
        Ok((None, pos))
    }
}

pub open spec fn code_bytes(c: ChunkView, unit: Seq<FnId>, table: Seq<Seq<char>>) -> Seq<u8> {
    counted_bytes::<Op>(c.ops, unit, table) + counted_bytes::<Value>(c.consts, unit, table)
}

pub open spec fn name_bytes(c: ChunkView, unit: Seq<FnId>, table: Seq<Seq<char>>) -> Seq<u8> {
    counted_bytes::<String>(c.names, unit, table) + counted_bytes::<String>(
        c.slot_names,
        unit,
        table,
    )
}

pub open spec fn frame_bytes(c: ChunkView) -> Seq<u8> {
    uv_bytes(c.n_params as nat) + seq![flags_of(c)] + slot_bytes(c.arguments_slot) + slot_bytes(
        c.rest_slot,
    ) + slot_bytes(c.virt_base)
}

pub open spec fn inner_bytes(c: ChunkView, unit: Seq<FnId>, table: Seq<Seq<char>>) -> Seq<u8> {
    counted_bytes::<u16>(c.var_force_resets, unit, table) + counted_bytes::<FnId>(
        c.funcs,
        unit,
        table,
    ) + counted_bytes::<CapInit>(c.cap_inits, unit, table)
}

pub open spec fn size_bytes(c: ChunkView) -> Seq<u8> {
    uv_bytes(c.caches as nat) + uv_bytes(c.obj_maps as nat) + uv_bytes(c.name_caches as nat)
        + uv_bytes(c.positions.len()) + c.positions
}

/// The chunk's bytes.
#[verifier::opaque]
pub open spec fn chunk_bytes(c: ChunkView, unit: Seq<FnId>, table: Seq<Seq<char>>) -> Seq<u8> {
    code_bytes(c, unit, table) + name_bytes(c, unit, table) + frame_bytes(c) + inner_bytes(
        c,
        unit,
        table,
    ) + size_bytes(c)
}

// ---- reading --------------------------------------------------------------------------------

pub open spec fn code_at(s: Seq<u8>, pos: int, t: TablesView) -> Read<(Seq<Op>, Seq<ValueView>)> {
    match counted_at::<Op>(s, pos, t) {
        Err(e) => Err(e),
        Ok((ops, p)) => match counted_at::<Value>(s, p, t) {
            Err(e) => Err(e),
            Ok((consts, end)) => Ok(((ops, consts), end)),
        },
    }
}

pub open spec fn names_at(s: Seq<u8>, pos: int, t: TablesView) -> Read<
    (Seq<Seq<char>>, Seq<Seq<char>>),
> {
    match counted_at::<String>(s, pos, t) {
        Err(e) => Err(e),
        Ok((names, p)) => match counted_at::<String>(s, p, t) {
            Err(e) => Err(e),
            Ok((slot_names, end)) => Ok(((names, slot_names), end)),
        },
    }
}

/// What a chunk says about its frame.
pub struct Frame {
    pub n_params: usize,
    pub flags: u8,
    pub arguments_slot: Option<u16>,
    pub rest_slot: Option<u16>,
    pub virt_base: Option<u16>,
}

pub open spec fn frame_at(s: Seq<u8>, pos: int) -> Read<Frame> {
    match uv_at(s, pos) {
        Err(e) => Err(e),
        Ok((n_params, p)) => match u8_at(s, p) {
            Err(e) => Err(e),
            Ok((flags, p)) => match slot_at(s, p, flag(flags, 4)) {
                Err(e) => Err(e),
                Ok((arguments_slot, p)) => match slot_at(s, p, flag(flags, 8)) {
                    Err(e) => Err(e),
                    Ok((rest_slot, p)) => match slot_at(s, p, flag(flags, 64)) {
                        Err(e) => Err(e),
                        Ok((virt_base, end)) => Ok(
                            (
                                Frame {
                                    n_params: n_params as usize,
                                    flags,
                                    arguments_slot,
                                    rest_slot,
                                    virt_base,
                                },
                                end,
                            ),
                        ),
                    },
                },
            },
        },
    }
}

pub open spec fn inner_at(s: Seq<u8>, pos: int, t: TablesView) -> Read<
    (Seq<u16>, Seq<FnId>, Seq<CapInitView>),
> {
    match counted_at::<u16>(s, pos, t) {
        Err(e) => Err(e),
        Ok((resets, p)) => match counted_at::<FnId>(s, p, t) {
            Err(e) => Err(e),
            Ok((funcs, p)) => match counted_at::<CapInit>(s, p, t) {
                Err(e) => Err(e),
                Ok((caps, end)) => Ok(((resets, funcs, caps), end)),
            },
        },
    }
}

/// The sizes of the cache tables, and the position table.
pub struct Sizes {
    pub caches: usize,
    pub obj_maps: usize,
    pub name_caches: usize,
    pub positions: Seq<u8>,
}

pub open spec fn sizes_at(s: Seq<u8>, pos: int) -> Read<Sizes> {
    match uv_at(s, pos) {
        Err(e) => Err(e),
        Ok((caches, p)) => match uv_at(s, p) {
            Err(e) => Err(e),
            Ok((obj_maps, p)) => match uv_at(s, p) {
                Err(e) => Err(e),
                Ok((name_caches, p)) => match count_at(s, p) {
                    Err(e) => Err(e),
                    Ok((n, p)) => match bytes_at(s, p, n as int) {
                        Err(e) => Err(e),
                        Ok((positions, end)) => if caches as usize > u32::MAX || obj_maps as usize
                            > u32::MAX {
                            Err(DecodeError::BadCacheCount)
                        } else {
                            Ok(
                                (
                                    Sizes {
                                        caches: caches as usize,
                                        obj_maps: obj_maps as usize,
                                        name_caches: name_caches as usize,
                                        positions,
                                    },
                                    end,
                                ),
                            )
                        },
                    },
                },
            },
        },
    }
}

/// The number of switch tables the ops refer to: one past the largest table index.
pub open spec fn switch_table_count(ops: Seq<Op>) -> int
    decreases ops.len(),
{
    if ops.len() == 0 {
        0
    } else {
        let n = switch_table_count(ops.drop_last());
        match ops.last() {
            Op::SwitchLK(_, t) => if t + 1 > n {
                t + 1
            } else {
                n
            },
            _ => n,
        }
    }
}

/// The chunk that the decoded parts make: the run-time tables are sized as the compiler sizes
/// them.
pub open spec fn rebuilt(
    code: (Seq<Op>, Seq<ValueView>),
    names: (Seq<Seq<char>>, Seq<Seq<char>>),
    frame: Frame,
    inner: (Seq<u16>, Seq<FnId>, Seq<CapInitView>),
    sizes: Sizes,
) -> ChunkView {
    ChunkView {
        ops: code.0,
        consts: code.1,
        names: names.0,
        n_slots: names.1.len() as usize,
        slot_names: names.1,
        n_params: frame.n_params,
        arguments_slot: frame.arguments_slot,
        rest_slot: frame.rest_slot,
        virt_base: frame.virt_base,
        var_force_resets: inner.0,
        uses_this: flag(frame.flags, 1),
        env_this: flag(frame.flags, 2),
        derived: flag(frame.flags, 16),
        reflect_args: flag(frame.flags, 32),
        funcs: inner.1,
        classes: 0,
        cap_inits: inner.2,
        positions: sizes.positions,
        caches: sizes.caches,
        obj_maps: sizes.obj_maps,
        name_caches: sizes.name_caches,
        name_paths: sizes.name_caches,
        name_pins: sizes.name_caches,
        cap_caches: names.0.len() as usize,
        cap_pins: names.0.len() as usize,
        switch_tables: switch_table_count(code.0) as usize,
    }
}

/// Reading a chunk.
pub open spec fn chunk_at(s: Seq<u8>, pos: int, t: TablesView) -> Read<ChunkView> {
    match code_at(s, pos, t) {
        Err(e) => Err(e),
        Ok((code, p)) => match names_at(s, p, t) {
            Err(e) => Err(e),
            Ok((names, p)) => match frame_at(s, p) {
                Err(e) => Err(e),
                Ok((frame, p)) => match inner_at(s, p, t) {
                    Err(e) => Err(e),
                    Ok((inner, p)) => match sizes_at(s, p) {
                        Err(e) => Err(e),
                        Ok((sizes, end)) => Ok((rebuilt(code, names, frame, inner, sizes), end)),
                    },
                },
            },
        },
    }
}

/// A chunk as the compiler makes them: decoding gives exactly these back.
pub open spec fn chunk_canonical(c: ChunkView) -> bool {
    &&& all_canonical::<Value>(c.consts)
    &&& c.switch_tables == switch_table_count(c.ops)
    &&& c.caches <= u32::MAX
    &&& c.obj_maps <= u32::MAX
}

// ---- laws -----------------------------------------------------------------------------------

proof fn lemma_no_strs<T: Wire>(xs: Seq<<T as DeepView>::V>)
    requires
        forall|v: <T as DeepView>::V| #[trigger] T::strs(v).len() == 0,
    ensures
        list_strs::<T>(xs) == Seq::<Seq<char>>::empty(),
    decreases xs.len(),
{
    if xs.len() > 0 {
        lemma_no_strs::<T>(xs.drop_last());
        assert(T::strs(xs.last()).len() == 0);
        assert(list_strs::<T>(xs) =~= Seq::<Seq<char>>::empty());
    }
}

proof fn lemma_all_in_parts(a: Seq<Seq<char>>, b: Seq<Seq<char>>, t: Seq<Seq<char>>)
    requires
        all_in(a + b, t),
    ensures
        all_in(a, t),
        all_in(b, t),
{
    assert forall|i: int| 0 <= i < a.len() implies t.contains(#[trigger] a[i]) by {
        assert((a + b)[i] == a[i]);
    }
    assert forall|i: int| 0 <= i < b.len() implies t.contains(#[trigger] b[i]) by {
        assert((a + b)[a.len() + i] == b[i]);
    }
}

/// The strings of a carried chunk's lists are among the chunk's strings.
pub proof fn lemma_chunk_strs(c: ChunkView, unit: Seq<FnId>, t: Seq<Seq<char>>)
    requires
        chunk_carried(c, unit),
        all_in(chunk_strs(c, unit), t),
    ensures
        all_in(list_strs::<Op>(c.ops), t),
        all_in(list_strs::<Value>(c.consts), t),
        all_in(list_strs::<String>(c.names), t),
        all_in(list_strs::<String>(c.slot_names), t),
        all_in(list_strs::<u16>(c.var_force_resets), t),
        all_in(list_strs::<FnId>(c.funcs), t),
        all_in(list_strs::<CapInit>(c.cap_inits), t),
{
    let k = list_strs::<Value>(c.consts);
    let n = list_strs::<String>(c.names);
    let m = list_strs::<String>(c.slot_names);
    lemma_all_in_parts(k + n + m, list_strs::<CapInit>(c.cap_inits), t);
    lemma_all_in_parts(k + n, m, t);
    lemma_all_in_parts(k, n, t);
    lemma_no_strs::<Op>(c.ops);
    lemma_no_strs::<u16>(c.var_force_resets);
    lemma_no_strs::<FnId>(c.funcs);
}

/// A chunk's bytes stay what they are while the string table grows.
pub proof fn lemma_chunk_stable(
    c: ChunkView,
    unit: Seq<FnId>,
    a: Seq<Seq<char>>,
    b: Seq<Seq<char>>,
)
    requires
        chunk_carried(c, unit),
        all_in(chunk_strs(c, unit), a),
        continues(a, b),
        b.no_duplicates(),
    ensures
        chunk_bytes(c, unit, a) == chunk_bytes(c, unit, b),
{
    reveal(chunk_bytes);
    lemma_chunk_strs(c, unit, a);
    lemma_counted_stable::<Op>(c.ops, unit, a, b);
    lemma_counted_stable::<Value>(c.consts, unit, a, b);
    lemma_counted_stable::<String>(c.names, unit, a, b);
    lemma_counted_stable::<String>(c.slot_names, unit, a, b);
    lemma_counted_stable::<u16>(c.var_force_resets, unit, a, b);
    lemma_counted_stable::<FnId>(c.funcs, unit, a, b);
    lemma_counted_stable::<CapInit>(c.cap_inits, unit, a, b);
}

proof fn lemma_flags(c: ChunkView)
    ensures
        flag(flags_of(c), 1) == c.uses_this,
        flag(flags_of(c), 2) == c.env_this,
        flag(flags_of(c), 4) == c.arguments_slot is Some,
        flag(flags_of(c), 8) == c.rest_slot is Some,
        flag(flags_of(c), 16) == c.derived,
        flag(flags_of(c), 32) == c.reflect_args,
        flag(flags_of(c), 64) == c.virt_base is Some,
{
}

proof fn lemma_slot_reads_back(s: Seq<u8>, pos: int, slot: Option<u16>)
    requires
        has_at(s, pos, slot_bytes(slot)),
    ensures
        slot_at(s, pos, slot is Some) == Ok::<(Option<u16>, int), DecodeError>(
            (slot, pos + slot_bytes(slot).len()),
        ),
{
    if let Some(v) = slot {
        lemma_uv_reads_back(s, pos, v as u64);
    }
}

proof fn lemma_frame_reads_back(s: Seq<u8>, pos: int, c: ChunkView)
    requires
        has_at(s, pos, frame_bytes(c)),
    ensures
        frame_at(s, pos) == Ok::<(Frame, int), DecodeError>(
            (
                Frame {
                    n_params: c.n_params,
                    flags: flags_of(c),
                    arguments_slot: c.arguments_slot,
                    rest_slot: c.rest_slot,
                    virt_base: c.virt_base,
                },
                pos + frame_bytes(c).len(),
            ),
        ),
{
    let a = uv_bytes(c.n_params as nat);
    let b = a + seq![flags_of(c)];
    let d = b + slot_bytes(c.arguments_slot);
    let e = d + slot_bytes(c.rest_slot);
    lemma_has_at_split(s, pos, e, slot_bytes(c.virt_base));
    lemma_has_at_split(s, pos, d, slot_bytes(c.rest_slot));
    lemma_has_at_split(s, pos, b, slot_bytes(c.arguments_slot));
    lemma_has_at_split(s, pos, a, seq![flags_of(c)]);
    lemma_uv_reads_back(s, pos, c.n_params as u64);
    lemma_u8_reads_back(s, pos + a.len(), flags_of(c));
    lemma_flags(c);
    lemma_slot_reads_back(s, pos + b.len(), c.arguments_slot);
    lemma_slot_reads_back(s, pos + d.len(), c.rest_slot);
    lemma_slot_reads_back(s, pos + e.len(), c.virt_base);
}

proof fn lemma_sizes_read_back(s: Seq<u8>, pos: int, c: ChunkView)
    requires
        has_at(s, pos, size_bytes(c)),
        c.caches <= u32::MAX,
        c.obj_maps <= u32::MAX,
        c.positions.len() <= u64::MAX,
    ensures
        sizes_at(s, pos) == Ok::<(Sizes, int), DecodeError>(
            (
                Sizes {
                    caches: c.caches,
                    obj_maps: c.obj_maps,
                    name_caches: c.name_caches,
                    positions: c.positions,
                },
                pos + size_bytes(c).len(),
            ),
        ),
{
    let a = uv_bytes(c.caches as nat);
    let b = a + uv_bytes(c.obj_maps as nat);
    let d = b + uv_bytes(c.name_caches as nat);
    let e = d + uv_bytes(c.positions.len());
    lemma_has_at_split(s, pos, e, c.positions);
    lemma_has_at_split(s, pos, d, uv_bytes(c.positions.len()));
    lemma_has_at_split(s, pos, b, uv_bytes(c.name_caches as nat));
    lemma_has_at_split(s, pos, a, uv_bytes(c.obj_maps as nat));
    lemma_uv_reads_back(s, pos, c.caches as u64);
    lemma_uv_reads_back(s, pos + a.len(), c.obj_maps as u64);
    lemma_uv_reads_back(s, pos + b.len(), c.name_caches as u64);
    lemma_count_reads_back(s, pos + d.len(), c.positions.len() as u64);
}

/// A chunk whose lists can be counted.
pub open spec fn chunk_sized(c: ChunkView) -> bool {
    &&& c.ops.len() <= u64::MAX
    &&& c.consts.len() <= u64::MAX
    &&& c.names.len() <= usize::MAX
    &&& c.slot_names.len() <= usize::MAX
    &&& c.var_force_resets.len() <= u64::MAX
    &&& c.funcs.len() <= u64::MAX
    &&& c.cap_inits.len() <= u64::MAX
    &&& c.positions.len() <= u64::MAX
}

/// What decoding against the encoder's tables takes.
pub open spec fn decodable(
    t: TablesView,
    c: ChunkView,
    unit: Seq<FnId>,
    table: Seq<Seq<char>>,
) -> bool {
    &&& chunk_carried(c, unit)
    &&& chunk_canonical(c)
    &&& chunk_sized(c)
    &&& all_in(chunk_strs(c, unit), table)
    &&& table.no_duplicates()
    &&& table.len() <= u64::MAX
    &&& unit.len() <= u64::MAX
    &&& tables_match(t, unit, table)
}

proof fn lemma_code_reads_back(
    s: Seq<u8>,
    pos: int,
    t: TablesView,
    c: ChunkView,
    unit: Seq<FnId>,
    table: Seq<Seq<char>>,
)
    requires
        decodable(t, c, unit, table),
        has_at(s, pos, code_bytes(c, unit, table)),
    ensures
        code_at(s, pos, t) == Ok::<((Seq<Op>, Seq<ValueView>), int), DecodeError>(
            ((c.ops, c.consts), pos + code_bytes(c, unit, table).len()),
        ),
{
    lemma_chunk_strs(c, unit, table);
    let ops = counted_bytes::<Op>(c.ops, unit, table);
    lemma_has_at_split(s, pos, ops, counted_bytes::<Value>(c.consts, unit, table));
    lemma_counted_reads_back::<Op>(s, pos, t, c.ops, unit, table);
    lemma_counted_reads_back::<Value>(s, pos + ops.len(), t, c.consts, unit, table);
}

proof fn lemma_names_read_back(
    s: Seq<u8>,
    pos: int,
    t: TablesView,
    c: ChunkView,
    unit: Seq<FnId>,
    table: Seq<Seq<char>>,
)
    requires
        decodable(t, c, unit, table),
        has_at(s, pos, name_bytes(c, unit, table)),
    ensures
        names_at(s, pos, t) == Ok::<((Seq<Seq<char>>, Seq<Seq<char>>), int), DecodeError>(
            ((c.names, c.slot_names), pos + name_bytes(c, unit, table).len()),
        ),
{
    lemma_chunk_strs(c, unit, table);
    let names = counted_bytes::<String>(c.names, unit, table);
    lemma_has_at_split(s, pos, names, counted_bytes::<String>(c.slot_names, unit, table));
    lemma_counted_reads_back::<String>(s, pos, t, c.names, unit, table);
    lemma_counted_reads_back::<String>(s, pos + names.len(), t, c.slot_names, unit, table);
}

proof fn lemma_inner_reads_back(
    s: Seq<u8>,
    pos: int,
    t: TablesView,
    c: ChunkView,
    unit: Seq<FnId>,
    table: Seq<Seq<char>>,
)
    requires
        decodable(t, c, unit, table),
        has_at(s, pos, inner_bytes(c, unit, table)),
    ensures
        inner_at(s, pos, t) == Ok::<((Seq<u16>, Seq<FnId>, Seq<CapInitView>), int), DecodeError>(
            (
                (c.var_force_resets, c.funcs, c.cap_inits),
                pos + inner_bytes(c, unit, table).len(),
            ),
        ),
{
    lemma_chunk_strs(c, unit, table);
    let rs = counted_bytes::<u16>(c.var_force_resets, unit, table);
    let fs = counted_bytes::<FnId>(c.funcs, unit, table);
    lemma_has_at_split(s, pos, rs + fs, counted_bytes::<CapInit>(c.cap_inits, unit, table));
    lemma_has_at_split(s, pos, rs, fs);
    lemma_counted_reads_back::<u16>(s, pos, t, c.var_force_resets, unit, table);
    lemma_counted_reads_back::<FnId>(s, pos + rs.len(), t, c.funcs, unit, table);
    lemma_counted_reads_back::<CapInit>(s, pos + rs.len() + fs.len(), t, c.cap_inits, unit, table);
}

/// Decoding an encoded chunk gives the chunk back.
#[verifier::spinoff_prover]
#[verifier::rlimit(40)]
pub proof fn lemma_chunk_reads_back(
    s: Seq<u8>,
    pos: int,
    t: TablesView,
    c: ChunkView,
    unit: Seq<FnId>,
    table: Seq<Seq<char>>,
)
    requires
        decodable(t, c, unit, table),
        has_at(s, pos, chunk_bytes(c, unit, table)),
    ensures
        chunk_at(s, pos, t) == Ok::<(ChunkView, int), DecodeError>(
            (c, pos + chunk_bytes(c, unit, table).len()),
        ),
{
    reveal(chunk_bytes);
    let code = code_bytes(c, unit, table);
    let names = name_bytes(c, unit, table);
    let frame = frame_bytes(c);
    let inner = inner_bytes(c, unit, table);
    let p1 = pos + code.len();
    let p2 = p1 + names.len();
    let p3 = p2 + frame.len();
    let p4 = p3 + inner.len();
    lemma_has_at_split(s, pos, code + names + frame + inner, size_bytes(c));
    lemma_has_at_split(s, pos, code + names + frame, inner);
    lemma_has_at_split(s, pos, code + names, frame);
    lemma_has_at_split(s, pos, code, names);
    lemma_code_reads_back(s, pos, t, c, unit, table);
    lemma_names_read_back(s, p1, t, c, unit, table);
    lemma_frame_reads_back(s, p2, c);
    lemma_inner_reads_back(s, p3, t, c, unit, table);
    lemma_sizes_read_back(s, p4, c);
    lemma_flags(c);
}

// ---- encoding and decoding ------------------------------------------------------------------

fn write_slot(out: &mut Vec<u8>, slot: Option<u16>)
    ensures
        final(out)@ == old(out)@ + slot_bytes(slot),
{
    if let Some(v) = slot {
        uv(out, v as u64);
    } else {
        assert(out@ + Seq::<u8>::empty() =~= out@);
    }
}

fn read_slot(r: &mut Rd, present: bool) -> (res: Result<Option<u16>, DecodeError>)
    requires
        old(r).wf(),
    ensures
        final(r).moved(old(r), res, slot_at(old(r).b@, old(r).pos as int, present)),
{
    if present {
        let v: u16 = r.u16()?;
        Ok(Some(v))
    } else {
        Ok(None)
    }
}

/// Whether the chunk's tables agree with each other as the compiler makes them.
fn tables_agree(chunk: &Chunk) -> (r: bool)
    ensures
        r == chunk.deep_view().tables_agree(),
{
    chunk.n_slots == chunk.slot_names.len() && chunk.name_paths == chunk.name_caches
        && chunk.name_pins == chunk.name_caches && chunk.cap_caches == chunk.names.len()
        && chunk.cap_pins == chunk.names.len()
}

fn bit_of(set: bool, weight: u8) -> (r: u8)
    ensures
        r == bit(set, weight as int),
        r <= weight,
{
    if set {
        weight
    } else {
        0
    }
}

fn write_frame(out: &mut Vec<u8>, chunk: &Chunk)
    ensures
        final(out)@ == old(out)@ + frame_bytes(chunk.deep_view()),
{
    let ghost o0 = out@;
    uv(out, chunk.n_params as u64);
    let flags: u8 = bit_of(chunk.uses_this, 1) + bit_of(chunk.env_this, 2) + bit_of(
        chunk.arguments_slot.is_some(),
        4,
    ) + bit_of(chunk.rest_slot.is_some(), 8) + bit_of(chunk.derived, 16) + bit_of(
        chunk.reflect_args,
        32,
    ) + bit_of(chunk.virt_base.is_some(), 64);
    out.push(flags);
    let ghost a = uv_bytes(chunk.n_params as nat) + seq![flags];
    assert(flags == flags_of(chunk.deep_view()));
    assert(out@ =~= o0 + a);
    write_slot(out, chunk.arguments_slot);
    let ghost b = a + slot_bytes(chunk.arguments_slot);
    assert(out@ =~= o0 + b);
    write_slot(out, chunk.rest_slot);
    let ghost c = b + slot_bytes(chunk.rest_slot);
    assert(out@ =~= o0 + c);
    write_slot(out, chunk.virt_base);
    assert(out@ =~= o0 + (c + slot_bytes(chunk.virt_base)));
}

fn write_sizes(out: &mut Vec<u8>, chunk: &Chunk)
    ensures
        final(out)@ == old(out)@ + size_bytes(chunk.deep_view()),
{
    let ghost o0 = out@;
    uv(out, chunk.caches as u64);
    uv(out, chunk.obj_maps as u64);
    uv(out, chunk.name_caches as u64);
    uv(out, chunk.positions.len() as u64);
    let mut i: usize = 0;
    let ghost o1 = out@;
    assert(o1 =~= o1 + chunk.positions@.take(0));
    while i < chunk.positions.len()
        invariant
            i <= chunk.positions.len(),
            out@ == o1 + chunk.positions@.take(i as int),
        decreases chunk.positions.len() - i,
    {
        out.push(chunk.positions[i]);
        i = i + 1;
        assert(out@ =~= o1 + chunk.positions@.take(i as int));
    }
    assert(chunk.positions@.take(i as int) =~= chunk.positions@);
    assert(out@ =~= o0 + size_bytes(chunk.deep_view()));
}

/// Encodes one chunk against the unit's string table, which takes up its strings.
pub fn enc_chunk(strings: &mut Strings, unit: &UnitIndex, chunk: &Chunk) -> (r: Result<
    Vec<u8>,
    EncodeError,
>)
    requires
        old(strings).wf(),
    ensures
        final(strings).wf(),
        final(strings)@ == add_strs(old(strings)@, chunk_strs(chunk.deep_view(), unit@)),
        match r {
            Ok(b) => chunk_carried(chunk.deep_view(), unit@) && b@ == chunk_bytes(
                chunk.deep_view(),
                unit@,
                final(strings)@,
            ),
            Err(e) => !chunk_carried(chunk.deep_view(), unit@) && e == chunk_refusal(
                chunk.deep_view(),
                unit@,
            ),
        },
{
    let ghost c = chunk.deep_view();
    let ghost u = unit@;
    let ghost t0 = strings@;
    if chunk.classes != 0 {
        return Err(EncodeError::Classes);
    }
    if !tables_agree(chunk) {
        return Err(EncodeError::TablesDisagree);
    }
    let mut out: Vec<u8> = Vec::new();
    proof {
        lemma_no_strs::<Op>(c.ops);
        lemma_no_strs::<u16>(c.var_force_resets);
        lemma_no_strs::<FnId>(c.funcs);
        lemma_no_strs::<FnId>(c.funcs.take(carried_len::<FnId>(c.funcs, u) as int));
        assert(chunk.ops.deep_view() =~= c.ops);
        assert(chunk.var_force_resets.deep_view() =~= c.var_force_resets);
        assert(chunk.funcs.deep_view() =~= c.funcs);
    }
    write_list::<Op>(&chunk.ops, &mut out, strings, unit)?;
    let ghost o1 = out@;
    write_list::<Value>(&chunk.consts, &mut out, strings, unit)?;
    let ghost t1 = strings@;
    let ghost o2 = out@;
    write_list::<String>(&chunk.names, &mut out, strings, unit)?;
    let ghost t2 = strings@;
    let ghost o3 = out@;
    write_list::<String>(&chunk.slot_names, &mut out, strings, unit)?;
    let ghost t3 = strings@;
    let ghost o4 = out@;
    proof {
        lemma_add_strs_concat(t0, list_strs::<Value>(c.consts), list_strs::<String>(c.names));
        lemma_add_strs_concat(
            t0,
            list_strs::<Value>(c.consts) + list_strs::<String>(c.names),
            list_strs::<String>(c.slot_names),
        );
    }
    write_frame(&mut out, chunk);
    let ghost o5 = out@;
    write_list::<u16>(&chunk.var_force_resets, &mut out, strings, unit)?;
    let ghost o6 = out@;
    write_list::<FnId>(&chunk.funcs, &mut out, strings, unit)?;
    let ghost o7 = out@;
    write_list::<CapInit>(&chunk.cap_inits, &mut out, strings, unit)?;
    let ghost t = strings@;
    let ghost o8 = out@;
    write_sizes(&mut out, chunk);
    proof {
        let k = list_strs::<Value>(c.consts);
        let n = list_strs::<String>(c.names);
        let m = list_strs::<String>(c.slot_names);
        lemma_add_strs_concat(t0, k + n + m, list_strs::<CapInit>(c.cap_inits));
        lemma_add_strs(t0, k);
        lemma_add_strs(t1, n);
        lemma_add_strs(t2, m);
        lemma_add_strs(t3, list_strs::<CapInit>(c.cap_inits));
        lemma_continues_trans(t2, t3, t);
        lemma_continues_trans(t1, t2, t);
        lemma_continues_trans(t0, t1, t);
        lemma_counted_stable::<Op>(c.ops, u, t0, t);
        lemma_counted_stable::<Value>(c.consts, u, t1, t);
        lemma_counted_stable::<String>(c.names, u, t2, t);
        lemma_counted_stable::<String>(c.slot_names, u, t3, t);
        lemma_counted_stable::<u16>(c.var_force_resets, u, t3, t);
        lemma_counted_stable::<FnId>(c.funcs, u, t3, t);
        reveal(chunk_bytes);
        assert(o2 =~= code_bytes(c, u, t));
        assert(o4 =~= code_bytes(c, u, t) + name_bytes(c, u, t));
        assert(o8 =~= o5 + inner_bytes(c, u, t));
    }
    Ok(out)
}

/// One past the largest switch table index of `ops`.
fn count_switch_tables(ops: &Vec<Op>) -> (r: u64)
    ensures
        r == switch_table_count(ops@),
{
    let mut n: u64 = 0;
    let mut i: usize = 0;
    while i < ops.len()
        invariant
            i <= ops.len(),
            n == switch_table_count(ops@.take(i as int)),
            n <= 0x1_0000_0000,
        decreases ops.len() - i,
    {
        proof {
            assert(ops@.take(i + 1).drop_last() =~= ops@.take(i as int));
            assert(ops@.take(i + 1).last() == ops@[i as int]);
        }
        if let Op::SwitchLK(_, t) = ops[i] {
            if t as u64 + 1 > n {
                n = t as u64 + 1;
            }
        }
        i = i + 1;
    }
    assert(ops@.take(i as int) =~= ops@);
    n
}

fn read_code(r: &mut Rd, t: &Tables) -> (res: Result<(Vec<Op>, Vec<Value>), DecodeError>)
    requires
        old(r).wf(),
    ensures
        final(r).b@ == old(r).b@,
        final(r).wf(),
        match (res, code_at(old(r).b@, old(r).pos as int, t@)) {
            (Ok(v), Ok((w, end))) => v.0@ == w.0 && v.1.deep_view() == w.1 && final(r).pos == end,
            (Err(e), Err(f)) => e == f,
            _ => false,
        },
{
    let ops: Vec<Op> = read_list::<Op>(r, t)?;
    assert(ops.deep_view() =~= ops@);
    let consts: Vec<Value> = read_list::<Value>(r, t)?;
    Ok((ops, consts))
}

fn read_names(r: &mut Rd, t: &Tables) -> (res: Result<(Vec<String>, Vec<String>), DecodeError>)
    requires
        old(r).wf(),
    ensures
        final(r).b@ == old(r).b@,
        final(r).wf(),
        match (res, names_at(old(r).b@, old(r).pos as int, t@)) {
            (Ok(v), Ok((w, end))) => v.0.deep_view() == w.0 && v.1.deep_view() == w.1 && final(r).pos == end,
            (Err(e), Err(f)) => e == f,
            _ => false,
        },
{
    let names: Vec<String> = read_list::<String>(r, t)?;
    let slot_names: Vec<String> = read_list::<String>(r, t)?;
    Ok((names, slot_names))
}

fn read_frame(r: &mut Rd) -> (res: Result<Frame, DecodeError>)
    requires
        old(r).wf(),
    ensures
        final(r).moved(old(r), res, frame_at(old(r).b@, old(r).pos as int)),
{
    let n_params: u64 = r.uv()?;
    let flags: u8 = r.u8()?;
    let arguments_slot: Option<u16> = read_slot(r, (flags / 4) % 2 == 1)?;
    let rest_slot: Option<u16> = read_slot(r, (flags / 8) % 2 == 1)?;
    let virt_base: Option<u16> = read_slot(r, (flags / 64) % 2 == 1)?;
    Ok(Frame { n_params: n_params as usize, flags, arguments_slot, rest_slot, virt_base })
}

fn read_inner(r: &mut Rd, t: &Tables) -> (res: Result<
    (Vec<u16>, Vec<FnId>, Vec<CapInit>),
    DecodeError,
>)
    requires
        old(r).wf(),
    ensures
        final(r).b@ == old(r).b@,
        final(r).wf(),
        match (res, inner_at(old(r).b@, old(r).pos as int, t@)) {
            (Ok(v), Ok((w, end))) => v.0@ == w.0 && v.1@ == w.1 && v.2.deep_view() == w.2 && final(r).pos == end,
            (Err(e), Err(f)) => e == f,
            _ => false,
        },
{
    let resets: Vec<u16> = read_list::<u16>(r, t)?;
    assert(resets.deep_view() =~= resets@);
    let funcs: Vec<FnId> = read_list::<FnId>(r, t)?;
    assert(funcs.deep_view() =~= funcs@);
    let caps: Vec<CapInit> = read_list::<CapInit>(r, t)?;
    Ok((resets, funcs, caps))
}

/// Reads the sizes of the property, object-template and name caches, and the position table.
fn read_sizes(r: &mut Rd) -> (res: Result<(usize, usize, usize, Vec<u8>), DecodeError>)
    requires
        old(r).wf(),
    ensures
        final(r).b@ == old(r).b@,
        final(r).wf(),
        match (res, sizes_at(old(r).b@, old(r).pos as int)) {
            (Ok(v), Ok((w, end))) => v.0 == w.caches && v.1 == w.obj_maps && v.2 == w.name_caches
                && v.3@ == w.positions && final(r).pos == end,
            (Err(e), Err(f)) => e == f,
            _ => false,
        },
{
    let caches: u64 = r.uv()?;
    let obj_maps: u64 = r.uv()?;
    let name_caches: u64 = r.uv()?;
    let n: usize = r.len()?;
    let bytes: &[u8] = r.bytes(n)?;
    let positions: Vec<u8> = vstd::slice::slice_to_vec(bytes);
    let caches: usize = caches as usize;
    let obj_maps: usize = obj_maps as usize;
    if caches as u64 > u32::MAX as u64 || obj_maps as u64 > u32::MAX as u64 {
        return Err(DecodeError::BadCacheCount);
    }
    Ok((caches, obj_maps, name_caches as usize, positions))
}

/// Decodes one chunk.
pub fn dec_chunk(r: &mut Rd, t: &Tables) -> (res: Result<Chunk, DecodeError>)
    requires
        old(r).wf(),
    ensures
        final(r).b@ == old(r).b@,
        final(r).wf(),
        match (res, chunk_at(old(r).b@, old(r).pos as int, t@)) {
            (Ok(v), Ok((w, end))) => v.deep_view() == w && final(r).pos == end,
            (Err(e), Err(f)) => e == f,
            _ => false,
        },
{
    let (ops, consts) = read_code(r, t)?;
    let (names, slot_names) = read_names(r, t)?;
    let frame: Frame = read_frame(r)?;
    let (var_force_resets, funcs, cap_inits) = read_inner(r, t)?;
    let (caches, obj_maps, name_caches, positions) = read_sizes(r)?;
    let switch_tables: u64 = count_switch_tables(&ops);
    Ok(
        Chunk {
            n_slots: slot_names.len(),
            cap_caches: names.len(),
            cap_pins: names.len(),
            ops,
            consts,
            names,
            slot_names,
            n_params: frame.n_params,
            arguments_slot: frame.arguments_slot,
            rest_slot: frame.rest_slot,
            virt_base: frame.virt_base,
            var_force_resets,
            uses_this: frame.flags % 2 == 1,
            env_this: (frame.flags / 2) % 2 == 1,
            derived: (frame.flags / 16) % 2 == 1,
            reflect_args: (frame.flags / 32) % 2 == 1,
            funcs,
            classes: 0,
            cap_inits,
            positions,
            caches,
            obj_maps,
            name_caches,
            name_paths: name_caches,
            name_pins: name_caches,
            switch_tables: switch_tables as usize,
        },
    )
}

} // verus!
