//! Call-site source positions of a compiled chunk, for stack traces.
//!
//! Every call-site op records the source position of the call or `new` expression it came from,
//! in emission order; later passes never drop, fuse or reorder a call-site op, so the `k`-th
//! call-site op of the finished chunk has the `k`-th recorded position and the table needs no
//! pcs. It is stored as zigzag varint deltas and decoded only when a trace is formatted.

use super::op::Op;
use super::wire::{
    has_at, lemma_has_at_split, lemma_uv_bytes_len, lemma_uv_reads_back, uv, uv_at, uv_bytes, Rd,
};
use crate::ast::NO_POS;
use vstd::prelude::*;

verus! {

/// Whether `op` calls into another function on behalf of a call or `new` expression.
pub open spec fn site(op: Op) -> bool {
    match op {
        Op::Call(_) => true,
        Op::CallWithThis(_) => true,
        Op::CallSpread(_) => true,
        Op::CallSpreadThis(_) => true,
        Op::New(_) => true,
        Op::NewSpread(_) => true,
        Op::SuperCall(_) => true,
        Op::SuperCallSpread(_) => true,
        Op::TailCall(_, _) => true,
        Op::TailCallSpread(_, _) => true,
        _ => false,
    }
}

/// The number of call-site ops.
pub open spec fn site_count(ops: Seq<Op>) -> nat
    decreases ops.len(),
{
    if ops.len() == 0 {
        0
    } else {
        site_count(ops.drop_last()) + if site(ops.last()) {
            1nat
        } else {
            0
        }
    }
}

/// A position as a number, "none" being below all.
pub open spec fn pos_value(p: u32) -> int {
    if p == NO_POS {
        -1
    } else {
        p as int
    }
}

/// A signed number as an unsigned one, small magnitudes first.
pub open spec fn zigzag(d: int) -> nat {
    if d >= 0 {
        (2 * d) as nat
    } else {
        (-2 * d - 1) as nat
    }
}

pub open spec fn unzigzag(z: u64) -> i64 {
    if z % 2 == 0 {
        (z / 2) as i64
    } else {
        (-(z / 2) - 1) as i64
    }
}

/// The value that the entry after `sites` is relative to.
pub open spec fn last_value(sites: Seq<u32>) -> int {
    if sites.len() == 0 {
        -1
    } else {
        pos_value(sites.last())
    }
}

/// The bytes of a position table.
pub open spec fn delta_bytes(sites: Seq<u32>) -> Seq<u8>
    decreases sites.len(),
{
    if sites.len() == 0 {
        Seq::empty()
    } else {
        delta_bytes(sites.drop_last()) + uv_bytes(
            zigzag(pos_value(sites.last()) - last_value(sites.drop_last())),
        )
    }
}

/// The table of a chunk: empty when nothing has a position, or when the counts disagree.
pub open spec fn table_of(ops: Seq<Op>, sites: Seq<u32>) -> Seq<u8> {
    if (forall|i: int| 0 <= i < sites.len() ==> #[trigger] sites[i] == NO_POS) || site_count(ops)
        != sites.len() {
        Seq::empty()
    } else {
        delta_bytes(sites)
    }
}

/// The running value after `n` entries of a table, and where they end.
pub open spec fn walk(table: Seq<u8>, n: nat) -> Option<(i64, int)>
    decreases n,
{
    if n == 0 {
        Some((-1i64, 0))
    } else {
        match walk(table, (n - 1) as nat) {
            None => None,
            Some((v, at)) => match uv_at(table, at) {
                Err(_) => None,
                Ok((z, end)) => Some((v.wrapping_add(unzigzag(z)), end)),
            },
        }
    }
}

/// The position that `table` has for the op at `pc`.
pub open spec fn position_at(ops: Seq<Op>, table: Seq<u8>, pc: int) -> u32 {
    if table.len() == 0 || !(0 <= pc < ops.len() && site(ops[pc])) {
        NO_POS
    } else {
        match walk(table, site_count(ops.take(pc)) + 1) {
            None => NO_POS,
            Some((v, _)) => if 0 <= v <= u32::MAX {
                v as u32
            } else {
                NO_POS
            },
        }
    }
}

/// Whether `op` calls into another function on behalf of a call or `new` expression.
pub fn is_site(op: &Op) -> (r: bool)
    ensures
        r == site(*op),
{
    match op {
        Op::Call(_) => true,
        Op::CallWithThis(_) => true,
        Op::CallSpread(_) => true,
        Op::CallSpreadThis(_) => true,
        Op::New(_) => true,
        Op::NewSpread(_) => true,
        Op::SuperCall(_) => true,
        Op::SuperCallSpread(_) => true,
        Op::TailCall(_, _) => true,
        Op::TailCallSpread(_, _) => true,
        _ => false,
    }
}

fn count_sites(ops: &[Op], n: usize) -> (r: usize)
    requires
        n <= ops@.len(),
    ensures
        r == site_count(ops@.take(n as int)),
        r <= n,
{
    let mut k: usize = 0;
    let mut i: usize = 0;
    while i < n
        invariant
            i <= n <= ops@.len(),
            k <= i,
            k == site_count(ops@.take(i as int)),
        decreases n - i,
    {
        proof {
            assert(ops@.take(i + 1).drop_last() =~= ops@.take(i as int));
            assert(ops@.take(i + 1).last() == ops@[i as int]);
        }
        if is_site(&ops[i]) {
            k = k + 1;
        }
        i = i + 1;
    }
    k
}

/// The table for a finished chunk's ops, from the positions recorded per emitted call-site op.
pub fn encode(ops: &[Op], sites: &[u32]) -> (r: Vec<u8>)
    ensures
        r@ == table_of(ops@, sites@),
{
    let mut any: bool = false;
    let mut i: usize = 0;
    while i < sites.len()
        invariant
            i <= sites@.len(),
            any == exists|j: int| 0 <= j < i && sites@[j] != NO_POS,
        decreases sites@.len() - i,
    {
        if sites[i] != NO_POS {
            any = true;
        }
        i = i + 1;
    }
    let mut out: Vec<u8> = Vec::new();
    assert(ops@.take(ops@.len() as int) =~= ops@);
    if !any || count_sites(ops, ops.len()) != sites.len() {
        return out;
    }
    let mut prev: i64 = -1;
    let mut i: usize = 0;
    assert(out@ =~= delta_bytes(sites@.take(0)));
    while i < sites.len()
        invariant
            i <= sites@.len(),
            prev == last_value(sites@.take(i as int)),
            -1 <= prev <= u32::MAX,
            out@ == delta_bytes(sites@.take(i as int)),
        decreases sites@.len() - i,
    {
        let p: u32 = sites[i];
        let v: i64 = if p == NO_POS {
            -1
        } else {
            p as i64
        };
        proof {
            assert(sites@.take(i + 1).drop_last() =~= sites@.take(i as int));
            assert(sites@.take(i + 1).last() == p);
        }
        let d: i64 = v - prev;
        let z: u64 = if d >= 0 {
            2 * d as u64
        } else {
            let m: i64 = -d;
            2 * m as u64 - 1
        };
        uv(&mut out, z);
        prev = v;
        i = i + 1;
    }
    assert(sites@.take(i as int) =~= sites@);
    out
}

proof fn lemma_walk_fails(table: Seq<u8>, m: nat, n: nat)
    requires
        m <= n,
        walk(table, m) is None,
    ensures
        walk(table, n) is None,
    decreases n,
{
    if m < n {
        lemma_walk_fails(table, m, (n - 1) as nat);
    }
}

/// The source position of the call op at `pc` ([`NO_POS`] when it is not a call-site op or the
/// table has none for it).
pub fn lookup(ops: &[Op], table: &[u8], pc: usize) -> (r: u32)
    ensures
        r == position_at(ops@, table@, pc as int),
{
    if table.len() == 0 || pc >= ops.len() || !is_site(&ops[pc]) {
        return NO_POS;
    }
    let k: usize = count_sites(ops, pc);
    let mut r: Rd = Rd::new(table);
    let mut v: i64 = -1;
    let mut i: usize = 0;
    while i <= k
        invariant
            i <= k + 1,
            k == site_count(ops@.take(pc as int)),
            k <= pc < ops@.len(),
            k < usize::MAX,
            table@.len() > 0,
            site(ops@[pc as int]),
            r.wf(),
            r.b@ == table@,
            walk(table@, i as nat) == Some((v, r.pos as int)),
        decreases k + 1 - i,
    {
        let z: u64 = match r.uv() {
            Ok(z) => z,
            Err(_) => {
                proof {
                    lemma_walk_fails(table@, i as nat + 1, k as nat + 1);
                }
                return NO_POS;
            },
        };
        let d: i64 = if z % 2 == 0 {
            (z / 2) as i64
        } else {
            -((z / 2) as i64) - 1
        };
        v = v.wrapping_add(d);
        i = i + 1;
    }
    if 0 <= v && v <= u32::MAX as i64 {
        v as u32
    } else {
        NO_POS
    }
}

// ---- laws -----------------------------------------------------------------------------------

proof fn lemma_delta_prefix(sites: Seq<u32>, n: int)
    requires
        0 <= n <= sites.len(),
    ensures
        delta_bytes(sites.take(n)).len() <= delta_bytes(sites).len(),
        has_at(delta_bytes(sites), 0, delta_bytes(sites.take(n))),
    decreases sites.len(),
{
    let all = delta_bytes(sites);
    if n < sites.len() {
        let init = sites.drop_last();
        lemma_delta_prefix(init, n);
        assert(init.take(n) =~= sites.take(n));
        let a = delta_bytes(init);
        let b = delta_bytes(sites.take(n));
        assert(all.subrange(0, b.len() as int) =~= a.subrange(0, b.len() as int));
    } else {
        assert(sites.take(n) =~= sites);
        assert(all.subrange(0, all.len() as int) =~= all);
    }
}

proof fn lemma_walk_deltas(sites: Seq<u32>, n: int)
    requires
        0 <= n <= sites.len(),
    ensures
        walk(delta_bytes(sites), n as nat) == Some(
            (
                last_value(sites.take(n)) as i64,
                delta_bytes(sites.take(n)).len() as int,
            ),
        ),
    decreases n,
{
    if n > 0 {
        let t = delta_bytes(sites);
        let a = sites.take(n);
        lemma_walk_deltas(sites, n - 1);
        lemma_delta_prefix(sites, n);
        assert(a.drop_last() =~= sites.take(n - 1));
        let head = delta_bytes(sites.take(n - 1));
        let d = pos_value(a.last()) - last_value(sites.take(n - 1));
        lemma_has_at_split(t, 0, head, uv_bytes(zigzag(d)));
        lemma_uv_reads_back(t, head.len() as int, zigzag(d) as u64);
        assert(unzigzag(zigzag(d) as u64) == d);
    } else {
        assert(sites.take(0) =~= Seq::empty());
    }
}

proof fn lemma_site_count_split(ops: Seq<Op>, pc: int)
    requires
        0 <= pc < ops.len(),
        site(ops[pc]),
    ensures
        site_count(ops.take(pc)) < site_count(ops),
    decreases ops.len(),
{
    if pc == ops.len() - 1 {
        assert(ops.take(pc) =~= ops.drop_last());
    } else {
        lemma_site_count_split(ops.drop_last(), pc);
        assert(ops.drop_last().take(pc) =~= ops.take(pc));
    }
}

/// The `k`-th call-site op of a chunk has the `k`-th recorded position.
pub proof fn lemma_positions_round_trip(ops: Seq<Op>, sites: Seq<u32>, pc: int)
    requires
        site_count(ops) == sites.len(),
        0 <= pc < ops.len(),
        site(ops[pc]),
    ensures
        site_count(ops.take(pc)) < sites.len(),
        position_at(ops, table_of(ops, sites), pc) == sites[site_count(ops.take(pc)) as int],
{
    lemma_site_count_split(ops, pc);
    let k = site_count(ops.take(pc)) as int;
    if !(forall|i: int| 0 <= i < sites.len() ==> #[trigger] sites[i] == NO_POS) {
        lemma_walk_deltas(sites, k + 1);
        assert(sites.take(k + 1).last() == sites[k]);
        lemma_delta_prefix(sites, k + 1);
        lemma_uv_bytes_len(
            zigzag(pos_value(sites[k]) - last_value(sites.take(k + 1).drop_last())),
        );
    }
}

/// An op that is no call site has no position.
pub proof fn lemma_other_ops_have_no_position(ops: Seq<Op>, table: Seq<u8>, pc: int)
    requires
        !(0 <= pc < ops.len() && site(ops[pc])),
    ensures
        position_at(ops, table, pc) == NO_POS,
{
}

} // verus!
