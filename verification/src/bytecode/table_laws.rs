//! Laws of a chunk's tables: switch dispatch, call positions, constants, flags and sizes.

use super::chunk::{Chunk, ChunkView, FnId, CapInit, CapInitView};
use super::chunk_codec::{chunk_carried, chunk_refusal, flag, flags_of, switch_table_count};
use super::list_codec::Wire;
use super::machine::call_shape;
use super::memsize::{bytes_of, cache_tables, pool_tables, spare_of, ChunkRoom, TableUse};
use super::op::{CmpKind, Op};
use super::positions::{site, site_count, table_of, zigzag, unzigzag, pos_value};
use super::switch_table::{
    case_at, case_matches, chain_len, chain_target, covered, dense_key, first_match, folded, laid,
    moved_to, retarget, switched, table_count, tabled,
};
use super::wire::lemma_uv_bytes_len;
use crate::ast::NO_POS;
use crate::num::{integer_value, num_eq, zero};
use crate::value::{Value, ValueView};
use vstd::prelude::*;

verus! {

// ---- switch chains ----------------------------------------------------------------------------

/// A case of a chain tests a local for a constant, falls to the next case when it differs, and
/// otherwise jumps to the case's body.
pub proof fn lemma_cases_of_a_chain(ops: Seq<Op>, p: int, s: u16, k: u32, body: u32)
    requires
        0 <= p,
        p + 2 <= u32::MAX,
    ensures
        case_at(ops, p) == Some((s, k, body)) <==> {
            &&& p + 1 < ops.len()
            &&& ops[p] == Op::JumpIfNotCmpLK(CmpKind::StrictEq, s, k, (p + 2) as u32)
            &&& ops[p + 1] == Op::Jump(body)
        },
{
}

/// A chain is as long as its cases follow each other on one local, and no longer.
pub proof fn lemma_chains_test_one_local(ops: Seq<Op>, p: int, i: int)
    ensures
        case_at(ops, p) is None ==> chain_len(ops, p, None) == 0,
        0 <= i < chain_len(ops, p, None) ==> {
            &&& case_at(ops, p + 2 * i) is Some
            &&& (case_at(ops, p + 2 * i)->0).0 == (case_at(ops, p)->0).0
        },
        case_at(ops, p) is Some ==> {
            let next = case_at(ops, p + 2 * chain_len(ops, p, None) as int);
            next is None || (next->0).0 != (case_at(ops, p)->0).0
        },
{
    if case_at(ops, p) is Some {
        lemma_chain_on(ops, p + 2, (case_at(ops, p)->0).0, i - 1);
    }
}

proof fn lemma_chain_on(ops: Seq<Op>, p: int, s: u16, i: int)
    ensures
        0 <= i < chain_len(ops, p, Some(s)) ==> {
            &&& case_at(ops, p + 2 * i) is Some
            &&& (case_at(ops, p + 2 * i)->0).0 == s
        },
        ({
            let next = case_at(ops, p + 2 * chain_len(ops, p, Some(s)) as int);
            next is None || (next->0).0 != s
        }),
    decreases ops.len() - p,
{
    if case_at(ops, p) is Some && (case_at(ops, p)->0).0 == s {
        lemma_chain_on(ops, p + 2, s, i - 1);
    }
}

proof fn lemma_chain_fits(ops: Seq<Op>, p: int, slot: Option<u16>)
    requires
        0 <= p,
    ensures
        chain_len(ops, p, slot) > 0 ==> p + 2 * chain_len(ops, p, slot) <= ops.len(),
    decreases ops.len() - p,
{
    if case_at(ops, p) is Some {
        lemma_chain_fits(ops, p + 2, Some((case_at(ops, p)->0).0));
    }
}

/// How many dispatch ops stand before an op once chains have theirs.
spec fn laid_well(ops: Seq<Op>, pc: int, at: int, tables: nat, q: int) -> bool {
    let m = moved_to(ops, pc, at, q) - at;
    let l = laid(ops, pc, tables);
    &&& 0 <= m < l.len()
    &&& l[m] == ops[q] || {
        &&& l[m] matches Op::SwitchLK(s, t)
        &&& chain_len(ops, q, None) >= 4
        &&& (case_at(ops, q)->0).0 == s
        &&& tables <= t < tables + table_count(ops, pc)
        &&& m + 1 < l.len()
        &&& l[m + 1] == ops[q]
    }
}

proof fn lemma_laid(ops: Seq<Op>, pc: int, at: int, tables: nat, q: int)
    requires
        0 <= pc <= ops.len(),
        pc <= q <= ops.len(),
        ops.len() <= u32::MAX,
        tables <= pc,
    ensures
        laid(ops, pc, tables).len() == ops.len() - pc + table_count(ops, pc),
        table_count(ops, pc) <= ops.len() - pc,
        q < ops.len() ==> laid_well(ops, pc, at, tables, q),
        q == ops.len() ==> moved_to(ops, pc, at, q) == at + laid(ops, pc, tables).len(),
    decreases ops.len() - pc,
{
    if pc < ops.len() {
        let n = chain_len(ops, pc, None);
        lemma_chain_fits(ops, pc, None);
        let l = laid(ops, pc, tables);
        if n == 0 {
            let q2 = if q > pc {
                q
            } else {
                pc + 1
            };
            lemma_laid(ops, pc + 1, at + 1, tables, q2);
            let rest = laid(ops, pc + 1, tables);
            assert(l == seq![ops[pc]] + rest);
            assert forall|i: int| 0 <= i < rest.len() implies l[i + 1] == #[trigger] rest[i] by {}
            if q == pc {
                assert(l[0] == ops[pc]);
            } else if q < ops.len() {
                let m = moved_to(ops, pc + 1, at + 1, q) - (at + 1);
                assert(l[m + 1] == rest[m]);
                if m + 1 < rest.len() {
                    assert(l[m + 2] == rest[m + 1]);
                }
            }
        } else {
            let end = pc + 2 * n;
            let t2 = tables + tabled(n);
            let a2 = at + tabled(n) + 2 * n;
            let q2 = if q >= end {
                q
            } else {
                end
            };
            lemma_laid(ops, end, a2, t2, q2);
            let rest = laid(ops, end, t2);
            let mid = ops.subrange(pc, end);
            let head = tabled(n) as int;
            if n >= 4 {
                let front = seq![Op::SwitchLK((case_at(ops, pc)->0).0, tables as u32)];
                assert(l == front + mid + rest);
                assert(l[0] == front[0]);
            } else {
                assert(l == mid + rest);
            }
            assert forall|i: int| 0 <= i < 2 * n implies l[head + i] == #[trigger] ops[pc + i] by {
                assert(mid[i] == ops[pc + i]);
            }
            assert forall|i: int| 0 <= i < rest.len() implies l[head + 2 * n + i]
                == #[trigger] rest[i] by {}
            if q < end {
                assert(l[head + (q - pc)] == ops[pc + (q - pc)]);
            } else if q < ops.len() {
                let m = moved_to(ops, end, a2, q) - a2;
                if q == end {
                    assert(moved_to(ops, end, a2, q) == a2);
                }
                assert(l[head + 2 * n + m] == rest[m]);
                if m + 1 < rest.len() {
                    assert(l[head + 2 * n + (m + 1)] == rest[m + 1]);
                }
            }
        }
    }
}

/// Where an op stands after the pass, every jump to it lands: on the op itself with its own
/// jumps moved along, or on the dispatch of the chain of four or more cases that begins with it,
/// which the op follows.
pub proof fn lemma_jumps_land_on_the_moved_op(ops: Seq<Op>, q: int)
    requires
        0 <= q < ops.len(),
        2 * ops.len() <= u32::MAX,
        table_count(ops, 0) > 0,
    ensures
        ({
            let m = moved_to(ops, 0, 0, q);
            let after = switched(ops);
            let op = retarget(ops[q], |t: u32| moved_to(ops, 0, 0, t as int) as u32);
            &&& 0 <= m < after.len()
            &&& after[m] == op || {
                &&& after[m] matches Op::SwitchLK(s, t)
                &&& chain_len(ops, q, None) >= 4
                &&& (case_at(ops, q)->0).0 == s
                &&& t < table_count(ops, 0)
                &&& m + 1 < after.len()
                &&& after[m + 1] == op
            }
        }),
{
    lemma_laid(ops, 0, 0, 0, q);
    let l = laid(ops, 0, 0);
    let m = moved_to(ops, 0, 0, q);
    assert(laid_well(ops, 0, 0, 0, q));
    let f = |t: u32| moved_to(ops, 0, 0, t as int) as u32;
    assert(switched(ops)[m] == retarget(l[m], f));
    if m + 1 < l.len() {
        assert(switched(ops)[m + 1] == retarget(l[m + 1], f));
    }
}

/// The pass adds one op per table and nothing else, a jump past the end stays one, and code
/// without a chain of four cases is left alone.
pub proof fn lemma_the_pass_adds_one_op_per_table(ops: Seq<Op>)
    requires
        ops.len() <= u32::MAX,
    ensures
        switched(ops).len() == ops.len() + table_count(ops, 0),
        table_count(ops, 0) > 0 ==> moved_to(ops, 0, 0, ops.len() as int) == switched(ops).len(),
        (forall|p: int| 0 <= p < ops.len() ==> #[trigger] chain_len(ops, p, None) < 4)
            ==> switched(ops) == ops,
{
    lemma_laid(ops, 0, 0, 0, ops.len() as int);
    if forall|p: int| 0 <= p < ops.len() ==> #[trigger] chain_len(ops, p, None) < 4 {
        lemma_short_chains_have_no_table(ops, 0);
    }
}

proof fn lemma_short_chains_have_no_table(ops: Seq<Op>, pc: int)
    requires
        0 <= pc,
        forall|p: int| 0 <= p < ops.len() ==> #[trigger] chain_len(ops, p, None) < 4,
    ensures
        table_count(ops, pc) == 0,
    decreases ops.len() - pc,
{
    if pc < ops.len() {
        let n = chain_len(ops, pc, None);
        if n == 0 || pc + 2 * n > ops.len() {
            lemma_short_chains_have_no_table(ops, pc + 1);
        } else {
            lemma_short_chains_have_no_table(ops, pc + 2 * n);
        }
    }
}

/// A table's case matches a value as strict equality does: numbers by value, strings by their
/// text, and nothing across kinds.
pub proof fn lemma_cases_match_strictly(c: ValueView, v: ValueView)
    ensures
        c matches ValueView::Num(a) ==> match v {
            ValueView::Num(b) => case_matches(c, v) == num_eq(a, b),
            _ => !case_matches(c, v),
        },
        c matches ValueView::Str(a) ==> match v {
            ValueView::Str(b) => case_matches(c, v) == (a == b),
            _ => !case_matches(c, v),
        },
        !(c is Num) && !(c is Str) ==> !case_matches(c, v),
{
}

/// The target of a value is the body of the first case that matches it.
pub proof fn lemma_the_first_case_wins(cases: Seq<(ValueView, u32)>, v: ValueView, i: int)
    requires
        0 <= i < cases.len(),
        case_matches(cases[i].0, v),
        forall|j: int| 0 <= j < i ==> !case_matches((#[trigger] cases[j]).0, v),
    ensures
        first_match(cases, v) == Some(cases[i].1),
    decreases cases.len(),
{
    let d = cases.drop_last();
    if i < d.len() {
        assert forall|j: int| 0 <= j < i implies !case_matches((#[trigger] d[j]).0, v) by {
            assert(d[j] == cases[j]);
        }
        lemma_the_first_case_wins(d, v, i);
    } else {
        assert forall|j: int| 0 <= j < d.len() implies !case_matches((#[trigger] d[j]).0, v) by {
            assert(d[j] == cases[j]);
        }
        lemma_no_case_misses(d, v);
    }
}

/// A value that no case matches has no target, and goes past the chain.
pub proof fn lemma_no_case_misses(cases: Seq<(ValueView, u32)>, v: ValueView)
    requires
        forall|j: int| 0 <= j < cases.len() ==> !case_matches((#[trigger] cases[j]).0, v),
    ensures
        first_match(cases, v) is None,
    decreases cases.len(),
{
    if cases.len() > 0 {
        let d = cases.drop_last();
        assert forall|j: int| 0 <= j < d.len() implies !case_matches((#[trigger] d[j]).0, v) by {
            assert(d[j] == cases[j]);
        }
        lemma_no_case_misses(d, v);
        assert(!case_matches(cases[cases.len() - 1].0, v));
    }
}

/// A chain sends a value to its case's body or to the end; a local that holds no value yet is
/// left to the chain itself.
pub proof fn lemma_chains_send_values(cases: Seq<(ValueView, u32)>, end: u32, v: ValueView)
    ensures
        v is Empty <==> chain_target(cases, end, v) is None,
        !(v is Empty) && first_match(cases, v) is None ==> chain_target(cases, end, v) == Some(end),
        !(v is Empty) && first_match(cases, v) is Some ==> chain_target(cases, end, v)
            == first_match(cases, v),
{
}

/// A table covers the chain's cases on its local, in order, up to the first constant that is
/// neither a number nor a string.
pub proof fn lemma_tables_cover_numbers_and_strings(
    ops: Seq<Op>,
    p: int,
    slot: u16,
    consts: Seq<ValueView>,
    i: int,
)
    ensures
        0 <= i < covered(ops, p, slot, consts).len() ==> {
            &&& case_at(ops, p + 2 * i) matches Some((s, k, body))
            &&& s == slot
            &&& covered(ops, p, slot, consts)[i] == (consts[k as int], body)
            &&& consts[k as int] is Num || consts[k as int] is Str
        },
        ({
            let next = case_at(ops, p + 2 * covered(ops, p, slot, consts).len() as int);
            next matches Some((s, k, _)) ==> s != slot || !(consts[k as int] is Num
                || consts[k as int] is Str)
        }),
    decreases ops.len() - p,
{
    if let Some((s, k, body)) = case_at(ops, p) {
        if s == slot && (consts[k as int] is Num || consts[k as int] is Str) {
            lemma_tables_cover_numbers_and_strings(ops, p + 2, slot, consts, i - 1);
            let rest = covered(ops, p + 2, slot, consts);
            assert(covered(ops, p, slot, consts) == seq![(consts[k as int], body)] + rest);
            if 0 < i < rest.len() + 1 {
                assert(covered(ops, p, slot, consts)[i] == rest[i - 1]);
            }
        }
    }
}

/// Small integers have a dense place, which is their value, and both zeros fold to one key.
pub proof fn lemma_dense_places(x: u64, i: int)
    ensures
        dense_key(x) == Some(i) <==> integer_value(x) == Some(i) && 0 <= i < 4096,
        zero(x) ==> folded(x) == 0,
        !zero(x) ==> folded(x) == x,
{
}

// ---- positions --------------------------------------------------------------------------------

/// The ops with a position are the calls, constructions and `super` calls.
pub proof fn lemma_calls_have_positions(op: Op)
    ensures
        site(op) <==> (call_shape(op) is Some || op is New || op is NewSpread || op is SuperCall
            || op is SuperCallSpread),
{
}

/// A step between positions is written as a natural number: twice a step forward, and one less
/// than twice a step back. Both are read back.
pub proof fn lemma_steps_are_written_as_naturals(d: int)
    requires
        -0x8000_0000 * 0x8000_0000 <= d < 0x8000_0000 * 0x8000_0000,
    ensures
        d >= 0 ==> zigzag(d) == 2 * d,
        d < 0 ==> zigzag(d) == 2 * (-d) - 1,
        unzigzag(zigzag(d) as u64) == d,
        pos_value(NO_POS) == -1,
{
}

/// The table of positions is empty exactly when no call has one, or the calls were not counted
/// alike.
pub proof fn lemma_empty_position_tables(ops: Seq<Op>, sites: Seq<u32>)
    ensures
        table_of(ops, sites).len() == 0 <==> (sites.len() != site_count(ops) || forall|i: int|
            0 <= i < sites.len() ==> #[trigger] sites[i] == 0xffff_ffff),
{
    if sites.len() > 0 {
        lemma_uv_bytes_len(
            zigzag(pos_value(sites.last()) - super::positions::last_value(sites.drop_last())),
        );
    }
}

// ---- constants, flags and sizes in the encoding -----------------------------------------------

/// The first byte of a constant is its kind; a number follows as its bits, least significant
/// byte first.
pub proof fn lemma_constants_have_kinds(v: ValueView, unit: Seq<FnId>, table: Seq<Seq<char>>)
    requires
        Value::carried(v, unit),
    ensures
        ({
            let b = <Value as Wire>::bytes(v, unit, table);
            &&& b.len() >= 1
            &&& b[0] == 0 <==> v is Undefined
            &&& b[0] == 1 <==> v is Null
            &&& b[0] == 2 <==> v == ValueView::Bool(false)
            &&& b[0] == 3 <==> v == ValueView::Bool(true)
            &&& b[0] == 4 <==> v is Num
            &&& b[0] == 5 <==> v is Str
            &&& b[0] == 6 <==> v is BigInt
            &&& v matches ValueView::Num(n) ==> b.skip(1) == vstd::bytes::spec_u64_to_le_bytes(n)
        }),
        ({
            let k = <Value as Wire>::carried(v, unit);
            k == !(v is Empty || v is Sym || v is Obj)
        }),
{
    if let ValueView::Num(n) = v {
        let b = <Value as Wire>::bytes(v, unit, table);
        assert(b.skip(1) =~= vstd::bytes::spec_u64_to_le_bytes(n));
    }
}

/// The first byte of a captured binding's start is its kind: a parameter, a `var`, a function or
/// a lexical binding.
pub proof fn lemma_captures_have_kinds(v: CapInitView, unit: Seq<FnId>, table: Seq<Seq<char>>)
    ensures
        ({
            let b = <CapInit as Wire>::bytes(v, unit, table);
            &&& b.len() >= 1
            &&& b[0] == 0 <==> v is Param
            &&& b[0] == 1 <==> v is Var
            &&& b[0] == 2 <==> v is Fn
            &&& b[0] == 3 <==> v is Lexical
            &&& v matches CapInitView::Lexical(_, c) ==> b.last() == (if c {
                1u8
            } else {
                0u8
            })
        }),
{
}

/// A chunk's flag byte, from the lowest bit: `this`, `this` of the scope, `arguments`, a rest
/// parameter, a derived constructor, reflected arguments, virtual slots. The top bit is clear.
pub proof fn lemma_flags_of_a_chunk(c: ChunkView)
    ensures
        flag(flags_of(c), 1) == c.uses_this,
        flag(flags_of(c), 2) == c.env_this,
        flag(flags_of(c), 4) == (c.arguments_slot is Some),
        flag(flags_of(c), 8) == (c.rest_slot is Some),
        flag(flags_of(c), 16) == c.derived,
        flag(flags_of(c), 32) == c.reflect_args,
        flag(flags_of(c), 64) == (c.virt_base is Some),
        flags_of(c) < 128,
{
}

/// A chunk is carried when it defines no class, its tables have the lengths that decoding
/// gives them, its constants are primitive and its functions are the unit's. Otherwise the first
/// of these that fails is the reason.
pub proof fn lemma_chunks_are_carried(c: ChunkView, unit: Seq<FnId>)
    ensures
        c.classes != 0 ==> !chunk_carried(c, unit) && chunk_refusal(c, unit) is Classes,
        c.classes == 0 && !(c.n_slots == c.slot_names.len() && c.name_paths == c.name_caches
            && c.name_pins == c.name_caches && c.cap_caches == c.names.len() && c.cap_pins
            == c.names.len()) ==> !chunk_carried(c, unit) && chunk_refusal(c, unit)
            is TablesDisagree,
        chunk_carried(c, unit) ==> {
            &&& forall|i: int|
                0 <= i < c.consts.len() ==> !(#[trigger] c.consts[i] is Empty || c.consts[i] is Sym
                    || c.consts[i] is Obj)
            &&& forall|i: int|
                0 <= i < c.funcs.len() ==> super::unit_index::unit_index(
                    unit,
                    #[trigger] c.funcs[i],
                ) is Some
        },
        !chunk_carried(c, unit) && chunk_refusal(c, unit) is Constant ==> exists|i: int|
            0 <= i < c.consts.len() && (#[trigger] c.consts[i] is Empty || c.consts[i] is Sym
                || c.consts[i] is Obj),
        !chunk_carried(c, unit) && chunk_refusal(c, unit) is Function ==> exists|i: int|
            0 <= i < c.funcs.len() && super::unit_index::unit_index(unit, #[trigger] c.funcs[i])
                is None,
{
    assert(forall|i: int|
        0 <= i < c.consts.len() ==> <Value as Wire>::carried(#[trigger] c.consts[i], unit) == !(
        c.consts[i] is Empty || c.consts[i] is Sym || c.consts[i] is Obj));
    assert(forall|i: int|
        0 <= i < c.funcs.len() ==> <FnId as Wire>::carried(#[trigger] c.funcs[i], unit) == (
        super::unit_index::unit_index(unit, c.funcs[i]) is Some));
}

/// A chunk has as many switch tables as its dispatch ops name: one more than the greatest.
pub proof fn lemma_switch_tables_are_counted(ops: Seq<Op>, i: int)
    ensures
        0 <= switch_table_count(ops),
        0 <= i < ops.len() && ops[i] is SwitchLK ==> ops[i]->SwitchLK_1 < switch_table_count(ops),
        switch_table_count(ops) > 0 ==> exists|j: int|
            0 <= j < ops.len() && (#[trigger] ops[j] is SwitchLK) && ops[j]->SwitchLK_1 + 1
                == switch_table_count(ops),
    decreases ops.len(),
{
    if ops.len() > 0 {
        let d = ops.drop_last();
        lemma_switch_tables_are_counted(d, i);
        if 0 <= i < d.len() {
            assert(d[i] == ops[i]);
        }
        if switch_table_count(ops) > 0 {
            if switch_table_count(ops) == switch_table_count(d) {
                let j = choose|j: int|
                    0 <= j < d.len() && (#[trigger] d[j] is SwitchLK) && d[j]->SwitchLK_1 + 1
                        == switch_table_count(d);
                assert(ops[j] == d[j]);
                assert(ops[j] is SwitchLK);
            } else {
                assert(ops[ops.len() - 1] is SwitchLK);
            }
        }
    }
}

// ---- sizes in memory --------------------------------------------------------------------------

/// A list of tables takes the room of each, and what is spare is what the items leave.
pub proof fn lemma_tables_take_their_room(ts: Seq<TableUse>, t: TableUse)
    ensures
        bytes_of(Seq::empty()) == 0,
        spare_of(Seq::empty()) == 0,
        bytes_of(ts.push(t)) == bytes_of(ts) + t.cap * t.item,
        spare_of(ts.push(t)) == spare_of(ts) + (t.cap - t.len) * t.item,
{
    assert(ts.push(t).drop_last() =~= ts);
}

/// Every table of a chunk is counted once, at its own length.
pub proof fn lemma_every_table_is_counted(c: Chunk, u: ChunkRoom)
    ensures
        ({
            let p = pool_tables(c, u);
            let q = cache_tables(c, u);
            &&& p.len() == 7
            &&& q.len() == 8
            &&& p[0].len == c.consts@.len() as usize && p[0].cap == u.consts.cap && p[0].item == u.consts.item
            &&& p[1].len == c.names@.len() as usize && p[1].cap == u.names.cap && p[1].item == u.names.item
            &&& p[2].len == c.slot_names@.len() as usize && p[2].cap == u.slot_names.cap && p[2].item == u.slot_names.item
            &&& p[3].len == c.var_force_resets@.len() as usize && p[3].cap == u.var_force_resets.cap && p[3].item == u.var_force_resets.item
            &&& p[4].len == c.funcs@.len() as usize && p[4].cap == u.funcs.cap && p[4].item == u.funcs.item
            &&& p[5].len == c.classes && p[5].cap == u.classes.cap && p[5].item == u.classes.item
            &&& p[6].len == c.cap_inits@.len() as usize && p[6].cap == u.cap_inits.cap && p[6].item == u.cap_inits.item
            &&& q[0].len == c.caches && q[0].cap == u.caches.cap && q[0].item == u.caches.item
            &&& q[1].len == c.obj_maps && q[1].cap == u.obj_maps.cap && q[1].item == u.obj_maps.item
            &&& q[2].len == c.name_caches && q[2].cap == u.name_caches.cap && q[2].item == u.name_caches.item
            &&& q[3].len == c.name_paths && q[3].cap == u.name_paths.cap && q[3].item == u.name_paths.item
            &&& q[4].len == c.name_pins && q[4].cap == u.name_pins.cap && q[4].item == u.name_pins.item
            &&& q[5].len == c.cap_caches && q[5].cap == u.cap_caches.cap && q[5].item == u.cap_caches.item
            &&& q[6].len == c.cap_pins && q[6].cap == u.cap_pins.cap && q[6].item == u.cap_pins.item
            &&& q[7].len == c.switch_tables && q[7].cap == u.switch_tables.cap && q[7].item == u.switch_tables.item
        }),
{
}

} // verus!
