//! `switch` dispatch tables: a chain of case tests on one local
//!
//! ```text
//!   p+0  JumpIfNotCmpLK(StrictEq, s, k0, p+2)    ; case k0?
//!   p+1  Jump(body0)
//!   p+2  JumpIfNotCmpLK(StrictEq, s, k1, p+4)    ; case k1?
//!   p+3  Jump(body1)
//! ```
//!
//! costs one compare-and-branch per case tried. [`switch_pass`] puts an [`Op::SwitchLK`] in front
//! of each such chain; its table is built from the chain's constants and then jumps straight to
//! the matching case body, or past the chain's covered prefix on a miss. The chain stays in
//! place and stays the reference: the table only covers Number and String constants, and what it
//! cannot decide falls through into the chain.

use super::op::{CmpKind, Op};
use super::positions::site;
use crate::num::{
    exact_int, exponent, fraction, integer_value, is_nan, is_zero, nan, negative, num_eq,
    significand, zero, FRAC,
};
use crate::value::{Value, ValueView};
use vstd::arithmetic::power2::{lemma2_to64, lemma_pow2_adds, lemma_pow2_pos, lemma_pow2_strictly_increases, pow2};
use std::collections::HashMap;
use vstd::hash_map::StringHashMap;
use vstd::prelude::*;

verus! {

broadcast use vstd::std_specs::hash::group_hash_axioms;

/// Shortest chain worth a table.
pub const MIN_CASES: usize = 4;

/// Dense Number tables cover integer keys below this bound.
pub const DENSE_MAX: usize = 4096;

/// "No target" in a table.
pub const NO_TARGET: u32 = 0xffff_ffff;

// ---- chains ---------------------------------------------------------------------------------

/// A case test at `p` on `slot`: its constant and its body.
pub open spec fn case_at(ops: Seq<Op>, p: int) -> Option<(u16, u32, u32)> {
    if 0 <= p && p + 1 < ops.len() {
        match (ops[p], ops[p + 1]) {
            (Op::JumpIfNotCmpLK(CmpKind::StrictEq, s, k, t), Op::Jump(body)) => if t == p + 2 {
                Some((s, k, body))
            } else {
                None
            },
            _ => None,
        }
    } else {
        None
    }
}

/// The number of consecutive case tests from `p` on one slot (`slot`, if it is fixed already).
pub open spec fn chain_len(ops: Seq<Op>, p: int, slot: Option<u16>) -> nat
    decreases ops.len() - p,
{
    match case_at(ops, p) {
        Some((s, _, _)) => if slot is None || slot == Some(s) {
            1 + chain_len(ops, p + 2, Some(s))
        } else {
            0
        },
        None => 0,
    }
}

proof fn lemma_chain_len(ops: Seq<Op>, p: int, slot: Option<u16>)
    requires
        0 <= p,
    ensures
        chain_len(ops, p, slot) > 0 ==> p + 2 * chain_len(ops, p, slot) <= ops.len(),
    decreases ops.len() - p,
{
    if let Some((s, _, _)) = case_at(ops, p) {
        if slot is None || slot == Some(s) {
            lemma_chain_len(ops, p + 2, Some(s));
        }
    }
}

/// The slot and the length of the chain of case tests that starts at `pc`.
pub fn chain_at(ops: &Vec<Op>, pc: usize) -> (r: Option<(u16, usize)>)
    requires
        ops.len() < usize::MAX - 2,
    ensures
        match r {
            Some((s, n)) => n == chain_len(ops@, pc as int, None) && n > 0 && (case_at(
                ops@,
                pc as int,
            ) matches Some(c) && c.0 == s),
            None => chain_len(ops@, pc as int, None) == 0,
        },
{
    let mut slot: Option<u16> = None;
    let mut p: usize = pc;
    let mut n: usize = 0;
    loop
        invariant
            ops.len() < usize::MAX - 2,
            n > 0 ==> p <= ops.len(),
            n <= p,
            p == pc + 2 * n,
            chain_len(ops@, pc as int, None) == n + chain_len(ops@, p as int, slot),
            n == 0 ==> slot is None && p == pc,
            n > 0 ==> (slot matches Some(s) && case_at(ops@, pc as int) matches Some(c) && c.0 == s),
        ensures
            chain_len(ops@, p as int, slot) == 0,
        decreases ops.len() - n,
    {
        if p >= ops.len() || p + 1 >= ops.len() {
            break;
        }
        match (ops[p], ops[p + 1]) {
            (Op::JumpIfNotCmpLK(CmpKind::StrictEq, s, _, t), Op::Jump(_)) => {
                let fits: bool = match slot {
                    None => true,
                    Some(x) => x == s,
                };
                if t as usize == p + 2 && fits {
                    slot = Some(s);
                    n = n + 1;
                    p = p + 2;
                } else {
                    break;
                }
            },
            _ => {
                break;
            },
        }
    }
    match slot {
        Some(s) => Some((s, n)),
        None => None,
    }
}

// ---- inserting table ops --------------------------------------------------------------------

/// The op with its jump target (if it has one) replaced.
pub open spec fn retarget(op: Op, f: spec_fn(u32) -> u32) -> Op {
    match op {
        Op::Jump(t) => Op::Jump(f(t)),
        Op::JumpIfFalse(t) => Op::JumpIfFalse(f(t)),
        Op::JumpIfNotCmp(k, t) => Op::JumpIfNotCmp(k, f(t)),
        Op::JumpIfNotCmpLL(k, a, b, t) => Op::JumpIfNotCmpLL(k, a, b, f(t)),
        Op::JumpIfNotCmpLK(k, a, b, t) => Op::JumpIfNotCmpLK(k, a, b, f(t)),
        Op::JumpIfFalsePeek(t) => Op::JumpIfFalsePeek(f(t)),
        Op::JumpIfTruePeek(t) => Op::JumpIfTruePeek(f(t)),
        Op::JumpIfNotNullishPeek(t) => Op::JumpIfNotNullishPeek(f(t)),
        Op::PushHandler(t) => Op::PushHandler(f(t)),
        _ => op,
    }
}

/// The op's jump target.
pub open spec fn target_of(op: Op) -> Option<u32> {
    match op {
        Op::Jump(t) => Some(t),
        Op::JumpIfFalse(t) => Some(t),
        Op::JumpIfNotCmp(k, t) => Some(t),
        Op::JumpIfNotCmpLL(k, a, b, t) => Some(t),
        Op::JumpIfNotCmpLK(k, a, b, t) => Some(t),
        Op::JumpIfFalsePeek(t) => Some(t),
        Op::JumpIfTruePeek(t) => Some(t),
        Op::JumpIfNotNullishPeek(t) => Some(t),
        Op::PushHandler(t) => Some(t),
        _ => None,
    }
}

/// One for a chain that gets a table op, else none.
pub open spec fn tabled(n: nat) -> nat {
    if n >= MIN_CASES {
        1
    } else {
        0
    }
}

/// The ops from `pc` on, with a table op in front of each chain of case tests that is long
/// enough; `tables` were placed before.
pub open spec fn laid(ops: Seq<Op>, pc: int, tables: nat) -> Seq<Op>
    decreases ops.len() - pc,
{
    if pc < 0 || pc >= ops.len() {
        Seq::empty()
    } else {
        let n = chain_len(ops, pc, None);
        if n == 0 || pc + 2 * n > ops.len() {
            seq![ops[pc]] + laid(ops, pc + 1, tables)
        } else if n >= MIN_CASES {
            seq![Op::SwitchLK((case_at(ops, pc)->0).0, tables as u32)] + ops.subrange(pc, pc + 2 * n)
                + laid(ops, pc + 2 * n, tables + 1)
        } else {
            ops.subrange(pc, pc + 2 * n) + laid(ops, pc + 2 * n, tables)
        }
    }
}

/// The number of table ops placed from `pc` on.
pub open spec fn table_count(ops: Seq<Op>, pc: int) -> nat
    decreases ops.len() - pc,
{
    if pc < 0 || pc >= ops.len() {
        0
    } else {
        let n = chain_len(ops, pc, None);
        if n == 0 || pc + 2 * n > ops.len() {
            table_count(ops, pc + 1)
        } else {
            tabled(n) + table_count(ops, pc + 2 * n)
        }
    }
}

/// Where a jump to op `q` goes, when the ops from `pc` on are placed at `at`: to the op's new
/// place, and for the head of a chain with a table op to the table op.
pub open spec fn moved_to(ops: Seq<Op>, pc: int, at: int, q: int) -> int
    decreases ops.len() - pc,
{
    if pc < 0 || pc >= ops.len() || q <= pc {
        at
    } else {
        let n = chain_len(ops, pc, None);
        if n == 0 || pc + 2 * n > ops.len() {
            moved_to(ops, pc + 1, at + 1, q)
        } else if q < pc + 2 * n {
            at + tabled(n) + (q - pc)
        } else {
            moved_to(ops, pc + 2 * n, at + tabled(n) + 2 * n, q)
        }
    }
}

/// The ops with their table ops in place and every jump redirected.
pub open spec fn switched(ops: Seq<Op>) -> Seq<Op> {
    if table_count(ops, 0) == 0 {
        ops
    } else {
        laid(ops, 0, 0).map_values(
            |op: Op| retarget(op, |t: u32| moved_to(ops, 0, 0, t as int) as u32),
        )
    }
}

proof fn lemma_laid_len(ops: Seq<Op>, pc: int, tables: nat)
    requires
        0 <= pc <= ops.len(),
    ensures
        laid(ops, pc, tables).len() == ops.len() - pc + table_count(ops, pc),
        8 * table_count(ops, pc) <= ops.len() - pc,
    decreases ops.len() - pc,
{
    if pc < ops.len() {
        let n = chain_len(ops, pc, None);
        lemma_chain_len(ops, pc, None);
        if n == 0 {
            lemma_laid_len(ops, pc + 1, tables);
        } else if n >= MIN_CASES {
            lemma_laid_len(ops, pc + 2 * n, tables + 1);
        } else {
            lemma_laid_len(ops, pc + 2 * n, tables);
        }
    }
}

proof fn lemma_laid_no_tables(ops: Seq<Op>, pc: int, tables: nat)
    requires
        0 <= pc <= ops.len(),
        table_count(ops, pc) == 0,
    ensures
        laid(ops, pc, tables) == ops.subrange(pc, ops.len() as int),
    decreases ops.len() - pc,
{
    if pc < ops.len() {
        let n = chain_len(ops, pc, None);
        lemma_chain_len(ops, pc, None);
        if n == 0 {
            lemma_laid_no_tables(ops, pc + 1, tables);
            assert(laid(ops, pc, tables) =~= ops.subrange(pc, ops.len() as int));
        } else {
            lemma_laid_no_tables(ops, pc + 2 * n, tables);
            assert(laid(ops, pc, tables) =~= ops.subrange(pc, ops.len() as int));
        }
    } else {
        assert(laid(ops, pc, tables) =~= ops.subrange(pc, ops.len() as int));
    }
}

/// Redirects the op's jump target through `map`.
fn remap_op(op: Op, map: &Vec<u32>) -> (r: Op)
    requires
        target_of(op) matches Some(t) ==> t < map@.len(),
    ensures
        r == retarget(op, |t: u32| map@[t as int]),
{
    match op {
        Op::Jump(t) => Op::Jump(map[t as usize]),
        Op::JumpIfFalse(t) => Op::JumpIfFalse(map[t as usize]),
        Op::JumpIfNotCmp(k, t) => Op::JumpIfNotCmp(k, map[t as usize]),
        Op::JumpIfNotCmpLL(k, a, b, t) => Op::JumpIfNotCmpLL(k, a, b, map[t as usize]),
        Op::JumpIfNotCmpLK(k, a, b, t) => Op::JumpIfNotCmpLK(k, a, b, map[t as usize]),
        Op::JumpIfFalsePeek(t) => Op::JumpIfFalsePeek(map[t as usize]),
        Op::JumpIfTruePeek(t) => Op::JumpIfTruePeek(map[t as usize]),
        Op::JumpIfNotNullishPeek(t) => Op::JumpIfNotNullishPeek(map[t as usize]),
        Op::PushHandler(t) => Op::PushHandler(map[t as usize]),
        _ => op,
    }
}

/// Jumps stay within the ops.
pub open spec fn targets_in(ops: Seq<Op>) -> bool {
    forall|i: int|
        0 <= i < ops.len() ==> (target_of(#[trigger] ops[i]) matches Some(t) ==> t <= ops.len())
}

proof fn lemma_laid_targets(ops: Seq<Op>, pc: int, tables: nat, limit: int)
    requires
        0 <= pc <= ops.len(),
        forall|i: int|
            0 <= i < ops.len() ==> (target_of(#[trigger] ops[i]) matches Some(t) ==> t <= limit),
    ensures
        forall|i: int|
            0 <= i < laid(ops, pc, tables).len() ==> (target_of(
                #[trigger] laid(ops, pc, tables)[i],
            ) matches Some(t) ==> t <= limit),
    decreases ops.len() - pc,
{
    if pc < ops.len() {
        let n = chain_len(ops, pc, None);
        lemma_chain_len(ops, pc, None);
        let out = laid(ops, pc, tables);
        if n == 0 {
            let rest = laid(ops, pc + 1, tables);
            lemma_laid_targets(ops, pc + 1, tables, limit);
            assert forall|i: int| 0 <= i < out.len() implies (target_of(
                #[trigger] out[i],
            ) matches Some(t) ==> t <= limit) by {
                if i > 0 {
                    assert(out[i] == rest[i - 1]);
                }
            }
        } else {
            let k = tabled(n) as int;
            let rest = laid(ops, pc + 2 * n, (tables + tabled(n)) as nat);
            lemma_laid_targets(ops, pc + 2 * n, (tables + tabled(n)) as nat, limit);
            assert forall|i: int| 0 <= i < out.len() implies (target_of(
                #[trigger] out[i],
            ) matches Some(t) ==> t <= limit) by {
                if i < k {
                } else if i < k + 2 * n {
                    assert(out[i] == ops[pc + i - k]);
                } else {
                    assert(out[i] == rest[i - k - 2 * n]);
                }
            }
        }
    }
}

/// Puts a table op in front of every chain of case tests that is long enough (jumps to the
/// chain's head then reach the table op). The number of tables the chunk needs is returned.
pub fn switch_pass(ops: &mut Vec<Op>) -> (r: usize)
    requires
        old(ops)@.len() < 0x8000_0000,
        table_count(old(ops)@, 0) > 0 ==> targets_in(old(ops)@),
    ensures
        final(ops)@ == switched(old(ops)@),
        r == table_count(old(ops)@, 0),
{
    let n: usize = ops.len();
    let ghost src = ops@;
    let mut out: Vec<Op> = Vec::new();
    let mut map: Vec<u32> = Vec::new();
    let mut tables: u32 = 0;
    let mut pc: usize = 0;
    proof {
        lemma_laid_len(src, 0, 0);
    }
    assert(out@ + laid(src, 0, 0) =~= laid(src, 0, 0));
    while pc < n
        invariant
            n < 0x8000_0000,
            ops@ == src,
            n == src.len(),
            pc <= n,
            tables + table_count(src, pc as int) == table_count(src, 0),
            8 * table_count(src, 0) <= src.len(),
            out@.len() == pc + tables,
            out@ + laid(src, pc as int, tables as nat) == laid(src, 0, 0),
            map@.len() == pc,
            forall|q: int| 0 <= q < pc ==> #[trigger] map@[q] == moved_to(src, 0, 0, q),
            forall|q: int|
                pc <= q ==> #[trigger] moved_to(src, 0, 0, q) == moved_to(
                    src,
                    pc as int,
                    out@.len() as int,
                    q,
                ),
        decreases n - pc,
    {
        let ghost o0 = out@;
        let ghost t0 = tables;
        let ghost c = chain_len(src, pc as int, None);
        proof {
            lemma_chain_len(src, pc as int, None);
            lemma_laid_len(src, pc as int, tables as nat);
            assert(moved_to(src, 0, 0, pc as int) == moved_to(
                src,
                pc as int,
                out@.len() as int,
                pc as int,
            ));
        }
        let head: u32 = out.len() as u32;
        match chain_at(ops, pc) {
            Some((slot, cases)) => {
                if cases >= MIN_CASES {
                    out.push(Op::SwitchLK(slot, tables));
                    tables = tables + 1;
                }
                let ghost o1 = out@;
                let end: usize = pc + 2 * cases;
                let mut q: usize = pc;
                while q < end
                    invariant
                        ops@ == src,
                        n == src.len(),
                        n < 0x8000_0000,
                        pc <= q <= end <= n,
                        end == pc + 2 * cases,
                        cases == chain_len(src, pc as int, None),
                        cases > 0,
                        head == o0.len(),
                        o1.len() == o0.len() + tabled(cases as nat),
                        o0.len() <= pc + n,
                        out@ == o1 + src.subrange(pc as int, q as int),
                        map@.len() == q,
                        forall|j: int| 0 <= j < q ==> #[trigger] map@[j] == moved_to(src, 0, 0, j),
                        forall|j: int|
                            pc <= j ==> #[trigger] moved_to(src, 0, 0, j) == moved_to(
                                src,
                                pc as int,
                                o0.len() as int,
                                j,
                            ),
                    decreases end - q,
                {
                    proof {
                        assert(moved_to(src, 0, 0, q as int) == moved_to(
                            src,
                            pc as int,
                            o0.len() as int,
                            q as int,
                        ));
                    }
                    if q == pc {
                        map.push(head);
                    } else {
                        map.push(out.len() as u32);
                    }
                    out.push(ops[q]);
                    q = q + 1;
                    assert(out@ =~= o1 + src.subrange(pc as int, q as int));
                }
                proof {
                    assert(o0 + laid(src, pc as int, t0 as nat) =~= out@ + laid(
                        src,
                        end as int,
                        tables as nat,
                    ));
                    assert forall|j: int| end <= j implies #[trigger] moved_to(src, 0, 0, j)
                        == moved_to(src, end as int, out@.len() as int, j) by {
                        assert(moved_to(src, 0, 0, j) == moved_to(
                            src,
                            pc as int,
                            o0.len() as int,
                            j,
                        ));
                    }
                }
                pc = end;
            },
            None => {
                map.push(head);
                out.push(ops[pc]);
                proof {
                    assert(o0 + laid(src, pc as int, t0 as nat) =~= out@ + laid(
                        src,
                        pc + 1,
                        tables as nat,
                    ));
                    assert forall|j: int| pc + 1 <= j implies #[trigger] moved_to(src, 0, 0, j)
                        == moved_to(src, pc + 1, out@.len() as int, j) by {
                        assert(moved_to(src, 0, 0, j) == moved_to(
                            src,
                            pc as int,
                            o0.len() as int,
                            j,
                        ));
                    }
                }
                pc = pc + 1;
            },
        }
    }
    assert(moved_to(src, 0, 0, n as int) == moved_to(src, n as int, out@.len() as int, n as int));
    map.push(out.len() as u32);
    if tables == 0 {
        return 0;
    }
    assert(out@ =~= laid(src, 0, 0));
    let ghost f = |t: u32| moved_to(src, 0, 0, t as int) as u32;
    let ghost g = |op: Op| retarget(op, |t: u32| moved_to(src, 0, 0, t as int) as u32);
    proof {
        lemma_laid_targets(src, 0, 0, n as int);
    }
    let mut done: Vec<Op> = Vec::new();
    let mut i: usize = 0;
    while i < out.len()
        invariant
            i <= out@.len(),
            out@ == laid(src, 0, 0),
            n == src.len(),
            map@.len() == n + 1,
            g == (|op: Op| retarget(op, |t: u32| moved_to(src, 0, 0, t as int) as u32)),
            forall|q: int| 0 <= q <= n ==> #[trigger] map@[q] == moved_to(src, 0, 0, q),
            forall|j: int|
                0 <= j < out@.len() ==> (target_of(#[trigger] out@[j]) matches Some(t) ==> t <= n),
            done@ == out@.take(i as int).map_values(g),
        decreases out@.len() - i,
    {
        let op: Op = remap_op(out[i], &map);
        proof {
            assert(target_of(out@[i as int]) matches Some(t) ==> map@[t as int] == moved_to(
                src,
                0,
                0,
                t as int,
            ));
            assert(op == g(out@[i as int]));
        }
        done.push(op);
        assert(done@ =~= out@.take(i + 1).map_values(g));
        i = i + 1;
    }
    assert(out@.take(i as int) =~= out@);
    *ops = done;
    tables as usize
}

/// The call-site ops, in order.
pub open spec fn site_ops(ops: Seq<Op>) -> Seq<Op> {
    ops.filter(|op: Op| site(op))
}

proof fn lemma_site_ops_concat(a: Seq<Op>, b: Seq<Op>)
    ensures
        site_ops(a + b) == site_ops(a) + site_ops(b),
    decreases b.len(),
{
    reveal(Seq::filter);
    if b.len() == 0 {
        assert(a + b =~= a);
        assert(site_ops(a) + site_ops(b) =~= site_ops(a));
    } else {
        assert((a + b).drop_last() =~= a + b.drop_last());
        lemma_site_ops_concat(a, b.drop_last());
        assert(site_ops(a + b) =~= site_ops(a) + site_ops(b));
    }
}

proof fn lemma_site_ops_one(op: Op)
    ensures
        site_ops(seq![op]) == (if site(op) {
            seq![op]
        } else {
            Seq::empty()
        }),
{
    reveal_with_fuel(Seq::filter, 2);
    assert(seq![op].drop_last() =~= Seq::empty());
    assert(site_ops(seq![op]) =~= (if site(op) {
        seq![op]
    } else {
        Seq::empty()
    }));
}

proof fn lemma_laid_sites(ops: Seq<Op>, pc: int, tables: nat)
    requires
        0 <= pc <= ops.len(),
    ensures
        site_ops(laid(ops, pc, tables)) == site_ops(ops.subrange(pc, ops.len() as int)),
    decreases ops.len() - pc,
{
    let len = ops.len() as int;
    if pc < ops.len() {
        let n = chain_len(ops, pc, None);
        lemma_chain_len(ops, pc, None);
        if n == 0 {
            lemma_laid_sites(ops, pc + 1, tables);
            lemma_site_ops_concat(seq![ops[pc]], laid(ops, pc + 1, tables));
            lemma_site_ops_concat(seq![ops[pc]], ops.subrange(pc + 1, len));
            assert(seq![ops[pc]] + ops.subrange(pc + 1, len) =~= ops.subrange(pc, len));
        } else {
            let end = pc + 2 * n;
            let chain = ops.subrange(pc, end);
            let t = (tables + tabled(n)) as nat;
            lemma_laid_sites(ops, end, t);
            lemma_site_ops_concat(chain, laid(ops, end, t));
            lemma_site_ops_concat(chain, ops.subrange(end, len));
            assert(chain + ops.subrange(end, len) =~= ops.subrange(pc, len));
            if n >= MIN_CASES {
                let head = seq![Op::SwitchLK((case_at(ops, pc)->0).0, tables as u32)];
                lemma_site_ops_one(Op::SwitchLK((case_at(ops, pc)->0).0, tables as u32));
                lemma_site_ops_concat(head + chain, laid(ops, end, t));
                lemma_site_ops_concat(head, chain);
                assert(site_ops(head) + site_ops(chain) =~= site_ops(chain));
            }
        }
    } else {
        assert(ops.subrange(pc, len) =~= Seq::empty());
    }
}

proof fn lemma_retarget_sites(ops: Seq<Op>, g: spec_fn(Op) -> Op)
    requires
        forall|op: Op| site(op) ==> #[trigger] g(op) == op,
        forall|op: Op| !site(op) ==> !site(#[trigger] g(op)),
    ensures
        site_ops(ops.map_values(g)) == site_ops(ops),
    decreases ops.len(),
{
    reveal(Seq::filter);
    let m = ops.map_values(g);
    if ops.len() > 0 {
        assert(m.drop_last() =~= ops.drop_last().map_values(g));
        lemma_retarget_sites(ops.drop_last(), g);
        assert(m.last() == g(ops.last()));
        assert(site_ops(m) =~= site_ops(ops));
    } else {
        assert(m =~= ops);
    }
}

/// The pass never drops, fuses or reorders a call-site op.
pub proof fn lemma_switch_pass_keeps_call_sites(ops: Seq<Op>)
    ensures
        site_ops(switched(ops)) == site_ops(ops),
{
    if table_count(ops, 0) != 0 {
        lemma_laid_sites(ops, 0, 0);
        assert(ops.subrange(0, ops.len() as int) =~= ops);
        lemma_retarget_sites(
            laid(ops, 0, 0),
            |op: Op| retarget(op, |t: u32| moved_to(ops, 0, 0, t as int) as u32),
        );
    }
}

// ---- tables ---------------------------------------------------------------------------------

/// Strict equality of a case constant (a Number or a String) with a value.
pub open spec fn case_matches(c: ValueView, v: ValueView) -> bool {
    match (c, v) {
        (ValueView::Num(a), ValueView::Num(b)) => num_eq(a, b),
        (ValueView::Str(a), ValueView::Str(b)) => a == b,
        _ => false,
    }
}

/// The cases that a table for the chain at `p` covers: up to the first constant that is neither
/// a Number nor a String.
pub open spec fn covered(ops: Seq<Op>, p: int, slot: u16, consts: Seq<ValueView>) -> Seq<
    (ValueView, u32),
>
    decreases ops.len() - p,
{
    match case_at(ops, p) {
        Some((s, k, body)) => if s == slot && (consts[k as int] is Num || consts[k as int] is Str) {
            seq![(consts[k as int], body)] + covered(ops, p + 2, slot, consts)
        } else {
            Seq::empty()
        },
        None => Seq::empty(),
    }
}

/// The body of the first case that matches `v`: what running the covered tests in order does.
pub open spec fn first_match(cases: Seq<(ValueView, u32)>, v: ValueView) -> Option<u32>
    decreases cases.len(),
{
    if cases.len() == 0 {
        None
    } else {
        match first_match(cases.drop_last(), v) {
            Some(b) => Some(b),
            None => if case_matches(cases.last().0, v) {
                Some(cases.last().1)
            } else {
                None
            },
        }
    }
}

/// The key of the first pair for `k`.
pub open spec fn assoc<K>(list: Seq<(K, u32)>, k: K) -> Option<u32>
    decreases list.len(),
{
    if list.len() == 0 {
        None
    } else {
        match assoc(list.drop_last(), k) {
            Some(b) => Some(b),
            None => if list.last().0 == k {
                Some(list.last().1)
            } else {
                None
            },
        }
    }
}

/// The integer key of a Number below the dense bound.
pub open spec fn dense_key(x: u64) -> Option<int> {
    match integer_value(x) {
        Some(i) => if 0 <= i < DENSE_MAX {
            Some(i)
        } else {
            None
        },
        None => None,
    }
}

/// A Number's bits with `-0` folded into `+0`.
pub open spec fn folded(x: u64) -> u64 {
    if zero(x) {
        0
    } else {
        x
    }
}

/// The target that a table holds for a key.
pub open spec fn target_in<K>(table: Map<K, u32>, k: K) -> Option<u32> {
    if table.contains_key(k) {
        Some(table[k])
    } else {
        None
    }
}

/// The table with a target for a key, unless it holds one: the first case wins.
pub open spec fn with_target<K>(table: Map<K, u32>, k: K, body: u32) -> Map<K, u32> {
    if table.contains_key(k) {
        table
    } else {
        table.insert(k, body)
    }
}

/// A table as it is being built: the cases with dense, other Number and String keys.
pub open spec fn parts_match(
    ints: Seq<(usize, u32)>,
    nums: Map<u64, u32>,
    strs: Map<Seq<char>, u32>,
    v: ValueView,
) -> Option<u32> {
    match v {
        ValueView::Num(x) => match dense_key(x) {
            Some(i) => assoc(ints, i as usize),
            None => if nan(x) {
                None
            } else {
                target_in(nums, folded(x))
            },
        },
        ValueView::Str(s) => target_in(strs, s),
        _ => None,
    }
}

proof fn lemma_pow2_window(a: nat, b: nat, v: int)
    requires
        pow2(a) <= v < pow2(a + 1),
        pow2(b) <= v < pow2(b + 1),
    ensures
        a == b,
{
    if a < b {
        if a + 1 < b {
            lemma_pow2_strictly_increases(a + 1, b);
        }
    } else if b < a {
        if b + 1 < a {
            lemma_pow2_strictly_increases(b + 1, a);
        }
    }
}

proof fn lemma_small_integer(x: u64)
    requires
        dense_key(x) is Some,
        !zero(x),
    ensures
        1023 <= exponent(x) < 1075,
        !negative(x),
        significand(x) == dense_key(x)->0 * pow2((1075 - exponent(x)) as nat),
        pow2((exponent(x) - 1023) as nat) <= dense_key(x)->0 < pow2((exponent(x) - 1022) as nat),
{
    let e = exponent(x);
    let m = significand(x);
    let v = dense_key(x)->0;
    if e >= 1075 {
        lemma_pow2_pos((e - 1075) as nat);
        let p = pow2((e - 1075) as nat);
        assert(m * p >= m) by (nonlinear_arith)
            requires
                p >= 1,
                m >= 0,
        ;
        assert(false);
    }
    let s = (1075 - e) as nat;
    lemma_pow2_pos(s);
    let p = pow2(s) as int;
    let q = m / p;
    assert(m == q * p) by {
        vstd::arithmetic::div_mod::lemma_fundamental_div_mod(m, p);
        vstd::arithmetic::mul::lemma_mul_is_commutative(p, q);
    }
    assert(q >= 0) by (nonlinear_arith)
        requires
            q == m / p,
            m >= 0,
            p > 0,
    ;
    lemma_pow2_adds((e - 1023) as nat, s);
    lemma_pow2_adds((e - 1022) as nat, s);
    lemma2_to64();
    assert(pow2(52) == FRAC) by {
        lemma_pow2_adds(20, 32);
    }
    assert(pow2(53) == 2 * FRAC) by {
        lemma_pow2_adds(1, 52);
    }
    let a = pow2((e - 1023) as nat) as int;
    let b = pow2((e - 1022) as nat) as int;
    assert(q != 0) by (nonlinear_arith)
        requires
            m == q * p,
            m > 0,
    ;
    assert(!negative(x));
    assert(a <= q < b) by (nonlinear_arith)
        requires
            a * p <= q * p,
            q * p < b * p,
            p > 0,
    ;
}

/// Numbers with equal small integer values are the same Number.
proof fn lemma_dense_key_injective(x: u64, y: u64)
    requires
        dense_key(x) is Some,
        dense_key(x) == dense_key(y),
    ensures
        num_eq(x, y),
{
    if !zero(x) {
        lemma_small_integer(x);
    }
    if !zero(y) {
        lemma_small_integer(y);
    }
    if zero(x) || zero(y) {
        if !zero(x) {
            lemma_pow2_pos((exponent(x) - 1023) as nat);
        }
        if !zero(y) {
            lemma_pow2_pos((exponent(y) - 1023) as nat);
        }
    } else {
        let v = dense_key(x)->0;
        lemma_pow2_window((exponent(x) - 1023) as nat, (exponent(y) - 1023) as nat, v);
        assert(exponent(x) == exponent(y));
        assert(fraction(x) == fraction(y));
        assert(x == y);
    }
}

proof fn lemma_parts_step(
    ints: Seq<(usize, u32)>,
    nums: Map<u64, u32>,
    strs: Map<Seq<char>, u32>,
    c: ValueView,
    body: u32,
    v: ValueView,
)
    requires
        c is Num || c is Str,
    ensures
        ({
            let old_match = parts_match(ints, nums, strs, v);
            let want = match old_match {
                Some(b) => Some(b),
                None => if case_matches(c, v) {
                    Some(body)
                } else {
                    None
                },
            };
            match c {
                ValueView::Num(x) => match dense_key(x) {
                    Some(i) => parts_match(ints.push((i as usize, body)), nums, strs, v) == want,
                    None => if nan(x) {
                        old_match == want
                    } else {
                        parts_match(ints, with_target(nums, folded(x), body), strs, v) == want
                    },
                },
                ValueView::Str(s) => parts_match(ints, nums, with_target(strs, s, body), v) == want,
                _ => true,
            }
        }),
{
    match c {
        ValueView::Num(x) => {
            if let ValueView::Num(y) = v {
                if dense_key(x) is Some && dense_key(x) == dense_key(y) {
                    lemma_dense_key_injective(x, y);
                }
                if let Some(i) = dense_key(x) {
                    assert(ints.push((i as usize, body)).drop_last() =~= ints);
                } else if !nan(x) {
                    lemma_folded_eq(x, y);
                }
            }
            if let Some(i) = dense_key(x) {
                assert(ints.push((i as usize, body)).drop_last() =~= ints);
            }
        },
        _ => {},
    }
}

proof fn lemma_folded_eq(x: u64, y: u64)
    requires
        !nan(x),
        dense_key(x) is None,
    ensures
        num_eq(x, y) ==> dense_key(y) is None && !nan(y) && folded(x) == folded(y),
        dense_key(y) is None && !nan(y) && folded(x) == folded(y) ==> num_eq(x, y),
{
}

pub struct SwitchTable {
    /// Integer keys below its length: the case target, or [`NO_TARGET`].
    pub dense: Vec<u32>,
    /// Other Number keys by their bits (`-0` folded into `+0`).
    pub nums: HashMap<u64, u32>,
    pub strs: StringHashMap<u32>,
    /// Where a value matching none of the covered cases continues: the first op after the
    /// covered prefix of the chain.
    pub end: u32,
}

impl SwitchTable {
    /// The case target that the table holds for `v`.
    pub open spec fn hit(&self, v: ValueView) -> Option<u32> {
        match v {
            ValueView::Num(x) => match dense_key(x) {
                Some(i) => if i < self.dense@.len() && self.dense@[i] != NO_TARGET {
                    Some(self.dense@[i])
                } else {
                    None
                },
                None => if nan(x) {
                    None
                } else {
                    target_in(self.nums@, folded(x))
                },
            },
            ValueView::Str(s) => target_in(self.strs@, s),
            _ => None,
        }
    }

    /// Where the table sends `v`.
    pub open spec fn goes_to(&self, v: ValueView) -> Option<u32> {
        if v is Empty {
            None
        } else {
            Some(
                match self.hit(v) {
                    Some(b) => b,
                    None => self.end,
                },
            )
        }
    }

    /// The table does what the tests of `cases` in order would do.
    pub open spec fn represents(&self, cases: Seq<(ValueView, u32)>) -> bool {
        &&& self.dense@.len() <= DENSE_MAX
        &&& forall|k: u64| #[trigger] self.nums@.contains_key(k) ==> dense_key(k) is None
        &&& forall|v: ValueView| #[trigger] self.hit(v) == first_match(cases, v)
    }
}

/// Where execution continues for a discriminant, given the covered cases and where they end.
pub open spec fn chain_target(cases: Seq<(ValueView, u32)>, end: u32, v: ValueView) -> Option<u32> {
    if v is Empty {
        None
    } else {
        Some(
            match first_match(cases, v) {
                Some(b) => b,
                None => end,
            },
        )
    }
}

proof fn lemma_assoc_prefix<K>(list: Seq<(K, u32)>, n: int, k: K)
    requires
        0 <= n <= list.len(),
        assoc(list.take(n), k) is Some,
    ensures
        assoc(list, k) == assoc(list.take(n), k),
    decreases list.len(),
{
    if n < list.len() {
        assert(list.drop_last().take(n) =~= list.take(n));
        lemma_assoc_prefix(list.drop_last(), n, k);
    } else {
        assert(list.take(n) =~= list);
    }
}

fn find_int(list: &Vec<(usize, u32)>, k: usize) -> (r: Option<u32>)
    ensures
        r == assoc(list@, k),
{
    let mut i: usize = 0;
    assert(list@.take(0) =~= Seq::empty());
    while i < list.len()
        invariant
            i <= list@.len(),
            assoc(list@.take(i as int), k) is None,
        decreases list@.len() - i,
    {
        proof {
            assert(list@.take(i + 1).drop_last() =~= list@.take(i as int));
            assert(list@.take(i + 1).last() == list@[i as int]);
        }
        if list[i].0 == k {
            proof {
                lemma_assoc_prefix(list@, i + 1, k);
            }
            return Some(list[i].1);
        }
        i = i + 1;
    }
    assert(list@.take(i as int) =~= list@);
    None
}

/// The dense key of a Number.
fn key_of(x: u64) -> (r: Option<usize>)
    ensures
        match (r, dense_key(x)) {
            (Some(i), Some(j)) => i == j,
            (None, None) => true,
            _ => false,
        },
{
    match exact_int(x) {
        Some(i) => if 0 <= i && i < DENSE_MAX as i64 {
            Some(i as usize)
        } else {
            None
        },
        None => None,
    }
}

/// What building a table takes of the chain at `p`: as far as it is looked at, its constants are
/// there and its covered bodies are real targets.
pub open spec fn chain_sound(ops: Seq<Op>, p: int, slot: u16, consts: Seq<ValueView>) -> bool
    decreases ops.len() - p,
{
    match case_at(ops, p) {
        Some((s, k, body)) => s == slot ==> {
            &&& k < consts.len()
            &&& consts[k as int] is Num || consts[k as int] is Str ==> body < NO_TARGET
                && chain_sound(ops, p + 2, slot, consts)
        },
        None => true,
    }
}

proof fn lemma_covered_len(ops: Seq<Op>, p: int, slot: u16, consts: Seq<ValueView>)
    requires
        0 <= p,
    ensures
        covered(ops, p, slot, consts).len() > 0 ==> p + 2 * covered(ops, p, slot, consts).len()
            <= ops.len(),
    decreases ops.len() - p,
{
    if let Some((s, k, body)) = case_at(ops, p) {
        if s == slot && (consts[k as int] is Num || consts[k as int] is Str) {
            lemma_covered_len(ops, p + 2, slot, consts);
        }
    }
}

impl SwitchTable {
    /// The table of the chain at `pc`, tests on `slot`.
    pub fn build(ops: &Vec<Op>, pc: usize, slot: u16, consts: &Vec<Value>) -> (r: SwitchTable)
        requires
            ops@.len() < 0x8000_0000,
            pc < u32::MAX,
            chain_sound(ops@, pc as int, slot, consts.deep_view()),
        ensures
            r.represents(covered(ops@, pc as int, slot, consts.deep_view())),
            r.end == pc + 2 * covered(ops@, pc as int, slot, consts.deep_view()).len(),
    {
        let ghost cv = consts.deep_view();
        let ghost all = covered(ops@, pc as int, slot, cv);
        let ghost mut cases: Seq<(ValueView, u32)> = Seq::empty();
        let mut ints: Vec<(usize, u32)> = Vec::new();
        let mut nums: HashMap<u64, u32> = HashMap::new();
        let mut strs: StringHashMap<u32> = StringHashMap::new();
        let mut p: usize = pc;
        let mut max: usize = 0;
        proof {
            lemma_covered_len(ops@, pc as int, slot, cv);
            assert(cases + all =~= all);
        }
        loop
            invariant
                ops@.len() < 0x8000_0000,
                pc < u32::MAX,
                chain_sound(ops@, p as int, slot, cv),
                cv == consts.deep_view(),
                all == covered(ops@, pc as int, slot, cv),
                cases.len() > 0 ==> p <= ops@.len(),
                p == pc + 2 * cases.len(),
                cases + covered(ops@, p as int, slot, cv) == all,
                forall|v: ValueView|
                    #[trigger] parts_match(ints@, nums@, strs@, v) == first_match(cases, v),
                forall|k: int|
                    0 <= k < ints@.len() ==> (#[trigger] ints@[k]).0 < max && ints@[k].1
                        < NO_TARGET,
                max <= DENSE_MAX,
                forall|k: u64| #[trigger] nums@.contains_key(k) ==> dense_key(k) is None,
            ensures
                covered(ops@, p as int, slot, cv) == Seq::<(ValueView, u32)>::empty(),
            decreases ops@.len() + pc - p,
        {
            if p >= ops.len() || p + 1 >= ops.len() {
                break;
            }
            let (s, k, next, body): (u16, u32, u32, u32) = match (ops[p], ops[p + 1]) {
                (Op::JumpIfNotCmpLK(CmpKind::StrictEq, s, k, next), Op::Jump(body)) => (
                    s,
                    k,
                    next,
                    body,
                ),
                _ => {
                    break;
                },
            };
            if s != slot || next as usize != p + 2 {
                break;
            }
            assert(case_at(ops@, p as int) == Some((s, k, body)));
            let ghost c = cv[k as int];
            let ghost (i0, n0, s0) = (ints@, nums@, strs@);
            match &consts[k as usize] {
                Value::Num(x) => {
                    let x: u64 = *x;
                    match key_of(x) {
                        Some(i) => {
                            ints.push((i, body));
                            if i >= max {
                                max = i + 1;
                            }
                        },
                        None => {
                            if !is_nan(x) {
                                let bits: u64 = if is_zero(x) {
                                    0
                                } else {
                                    x
                                };
                                if !nums.contains_key(&bits) {
                                    let _ = nums.insert(bits, body);
                                }
                            }
                        },
                    }
                },
                Value::Str(t) => {
                    if !strs.contains_key(t.as_str()) {
                        strs.insert(t.clone(), body);
                    }
                },
                _ => {
                    break;
                },
            }
            proof {
                let before = cases;
                cases = cases.push((c, body));
                assert(cases.drop_last() =~= before);
                assert(before + (seq![(c, body)] + covered(ops@, p + 2, slot, cv)) =~= cases
                    + covered(ops@, p + 2, slot, cv));
                assert forall|v: ValueView|
                    #[trigger] parts_match(ints@, nums@, strs@, v) == first_match(
                        cases,
                        v,
                    ) by {
                    lemma_parts_step(i0, n0, s0, c, body, v);
                    assert(parts_match(i0, n0, s0, v) == first_match(before, v));
                }
            }
            p = p + 2;
        }
        let mut dense: Vec<u32> = Vec::new();
        let mut i: usize = 0;
        while i < max
            invariant
                i <= max,
                dense@.len() == i,
                forall|j: int|
                    0 <= j < i ==> #[trigger] dense@[j] == (match assoc(ints@, j as usize) {
                        Some(b) => b,
                        None => NO_TARGET,
                    }),
            decreases max - i,
        {
            match find_int(&ints, i) {
                Some(b) => {
                    dense.push(b);
                },
                None => {
                    dense.push(NO_TARGET);
                },
            }
            i = i + 1;
        }
        let r = SwitchTable { dense, nums, strs, end: p as u32 };
        proof {
            assert(cases + Seq::<(ValueView, u32)>::empty() =~= cases);
            assert forall|v: ValueView| #[trigger] r.hit(v) == first_match(all, v) by {
                assert(parts_match(ints@, nums@, strs@, v) == first_match(cases, v));
                if let ValueView::Num(x) = v {
                    if let Some(j) = dense_key(x) {
                        lemma_assoc_bounds(ints@, j as usize, max);
                    }
                }
            }
        }
        r
    }

    /// Where execution continues for discriminant `v`, or `None` to run the chain as it is (an
    /// uninitialized binding: the chain's first test throws).
    pub fn target(&self, v: &Value) -> (r: Option<u32>)
        ensures
            r == self.goes_to(v.deep_view()),
    {
        let hit: Option<u32> = match v {
            Value::Num(x) => match key_of(*x) {
                Some(i) => if i < self.dense.len() && self.dense[i] != NO_TARGET {
                    Some(self.dense[i])
                } else {
                    None
                },
                None => if is_nan(*x) {
                    None
                } else {
                    let bits: u64 = if is_zero(*x) {
                        0
                    } else {
                        *x
                    };
                    match self.nums.get(&bits) {
                        Some(b) => Some(*b),
                        None => None,
                    }
                },
            },
            Value::Str(s) => match self.strs.get(s.as_str()) {
                Some(b) => Some(*b),
                None => None,
            },
            Value::Empty => {
                return None;
            },
            _ => None,
        };
        match hit {
            Some(b) => Some(b),
            None => Some(self.end),
        }
    }
}

/// A table sends every value where running its covered case tests in order would.
pub proof fn lemma_table_does_what_the_chain_does(
    t: SwitchTable,
    cases: Seq<(ValueView, u32)>,
    v: ValueView,
)
    requires
        t.represents(cases),
    ensures
        t.goes_to(v) == chain_target(cases, t.end, v),
{
    assert(t.hit(v) == first_match(cases, v));
}

proof fn lemma_assoc_bounds(list: Seq<(usize, u32)>, k: usize, max: usize)
    requires
        forall|i: int| 0 <= i < list.len() ==> (#[trigger] list[i]).0 < max && list[i].1 < NO_TARGET,
    ensures
        assoc(list, k) matches Some(b) ==> k < max && b < NO_TARGET,
    decreases list.len(),
{
    if list.len() > 0 {
        let init = list.drop_last();
        assert forall|i: int| 0 <= i < init.len() implies (#[trigger] init[i]).0 < max && init[i].1
            < NO_TARGET by {
            assert(init[i] == list[i]);
        }
        lemma_assoc_bounds(init, k, max);
        assert(list.last() == list[list.len() - 1]);
    }
}

} // verus!
