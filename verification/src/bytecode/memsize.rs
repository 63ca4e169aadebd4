//! Byte estimates of a compiled chunk, for memory reports.

use super::chunk::{Chunk, FnId};
use vstd::prelude::*;

verus! {

/// A chunk's heap bytes by part.
#[derive(Clone, Copy, Debug, PartialEq, Eq, Structural)]
pub struct ChunkBytes {
    /// The chunk itself.
    pub header: usize,
    /// The ops.
    pub ops: usize,
    /// Constants, name tables, inner-function lists, captured-binding plans.
    pub pools: usize,
    /// Inline caches and their side tables.
    pub ics: usize,
    /// The call-site position table.
    pub positions: usize,
    /// Capacity beyond length across the tables above.
    pub slack: usize,
}

impl Default for ChunkBytes {
    fn default() -> (r: ChunkBytes)
        ensures
            r == (ChunkBytes { header: 0, ops: 0, pools: 0, ics: 0, positions: 0, slack: 0 }),
    {
        ChunkBytes { header: 0, ops: 0, pools: 0, ics: 0, positions: 0, slack: 0 }
    }
}

impl ChunkBytes {
    pub open spec fn sum(self) -> int {
        self.header + self.ops + self.pools + self.ics + self.positions
    }

    /// Adds another chunk's bytes, part by part.
    pub fn add(&mut self, o: &ChunkBytes)
        requires
            old(self).header + o.header <= usize::MAX,
            old(self).ops + o.ops <= usize::MAX,
            old(self).pools + o.pools <= usize::MAX,
            old(self).ics + o.ics <= usize::MAX,
            old(self).positions + o.positions <= usize::MAX,
            old(self).slack + o.slack <= usize::MAX,
        ensures
            final(self).header == old(self).header + o.header,
            final(self).ops == old(self).ops + o.ops,
            final(self).pools == old(self).pools + o.pools,
            final(self).ics == old(self).ics + o.ics,
            final(self).positions == old(self).positions + o.positions,
            final(self).slack == old(self).slack + o.slack,
    {
        self.header = self.header + o.header;
        self.ops = self.ops + o.ops;
        self.pools = self.pools + o.pools;
        self.ics = self.ics + o.ics;
        self.positions = self.positions + o.positions;
        self.slack = self.slack + o.slack;
    }

    /// All bytes (the slack is part of the tables).
    pub fn total(&self) -> (r: usize)
        requires
            self.sum() <= usize::MAX,
        ensures
            r == self.sum(),
    {
        self.header + self.ops + self.pools + self.ics + self.positions
    }
}

/// How much room a table takes: its length and capacity in items, and an item's size.
#[derive(Clone, Copy, Debug, PartialEq, Eq, Structural)]
pub struct TableUse {
    pub len: usize,
    pub cap: usize,
    pub item: usize,
}

impl TableUse {
    pub open spec fn wf(self) -> bool {
        self.len <= self.cap
    }

    pub open spec fn bytes(self) -> int {
        self.cap * self.item
    }

    pub open spec fn spare(self) -> int {
        (self.cap - self.len) * self.item
    }
}

pub open spec fn bytes_of(ts: Seq<TableUse>) -> int
    decreases ts.len(),
{
    if ts.len() == 0 {
        0
    } else {
        bytes_of(ts.drop_last()) + ts.last().bytes()
    }
}

pub open spec fn spare_of(ts: Seq<TableUse>) -> int
    decreases ts.len(),
{
    if ts.len() == 0 {
        0
    } else {
        spare_of(ts.drop_last()) + ts.last().spare()
    }
}

/// The room that a table has: its capacity in items, and an item's size.
#[derive(Clone, Copy, Debug, PartialEq, Eq, Structural)]
pub struct Room {
    pub cap: usize,
    pub item: usize,
}

impl Room {
    /// The use of a table with this room and so many items.
    pub open spec fn holds(self, len: usize) -> TableUse {
        TableUse { len, cap: self.cap, item: self.item }
    }

    fn holding(&self, len: usize) -> (r: TableUse)
        ensures
            r == self.holds(len),
    {
        TableUse { len, cap: self.cap, item: self.item }
    }
}

/// The room that a chunk's tables have, and the sizes of the chunk itself and of a pointer.
#[derive(Clone, Copy, Debug, PartialEq, Eq, Structural)]
pub struct ChunkRoom {
    pub chunk: usize,
    pub word: usize,
    pub ops: Room,
    pub consts: Room,
    pub names: Room,
    pub slot_names: Room,
    pub var_force_resets: Room,
    pub funcs: Room,
    pub classes: Room,
    pub cap_inits: Room,
    pub caches: Room,
    pub obj_maps: Room,
    pub name_caches: Room,
    pub name_paths: Room,
    pub name_pins: Room,
    pub cap_caches: Room,
    pub cap_pins: Room,
    pub switch_tables: Room,
}

/// The tables of a chunk that are pools: constants, name tables, inner-function lists and
/// captured-binding plans.
pub open spec fn pool_tables(c: Chunk, u: ChunkRoom) -> Seq<TableUse> {
    seq![
        u.consts.holds(c.consts@.len() as usize),
        u.names.holds(c.names@.len() as usize),
        u.slot_names.holds(c.slot_names@.len() as usize),
        u.var_force_resets.holds(c.var_force_resets@.len() as usize),
        u.funcs.holds(c.funcs@.len() as usize),
        u.classes.holds(c.classes),
        u.cap_inits.holds(c.cap_inits@.len() as usize),
    ]
}

/// The tables of a chunk that are inline caches or stand beside them.
pub open spec fn cache_tables(c: Chunk, u: ChunkRoom) -> Seq<TableUse> {
    seq![
        u.caches.holds(c.caches),
        u.obj_maps.holds(c.obj_maps),
        u.name_caches.holds(c.name_caches),
        u.name_paths.holds(c.name_paths),
        u.name_pins.holds(c.name_pins),
        u.cap_caches.holds(c.cap_caches),
        u.cap_pins.holds(c.cap_pins),
        u.switch_tables.holds(c.switch_tables),
    ]
}

/// The room is that of the chunk: no table holds more than it has room for, and the sizes are
/// counted in `usize`.
pub open spec fn has_room(c: Chunk, u: ChunkRoom) -> bool {
    let ops = u.ops.holds(c.ops@.len() as usize);
    &&& ops.wf()
    &&& forall|i: int| 0 <= i < pool_tables(c, u).len() ==> (#[trigger] pool_tables(c, u)[i]).wf()
    &&& forall|i: int| 0 <= i < cache_tables(c, u).len() ==> (#[trigger] cache_tables(c, u)[i]).wf()
    &&& 2 * u.word + u.chunk <= usize::MAX
    &&& ops.bytes() + bytes_of(pool_tables(c, u)) + bytes_of(cache_tables(c, u)) <= usize::MAX
}

/// The table's bytes; its spare ones are added to `slack`.
pub fn vec_bytes(t: TableUse, slack: &mut usize) -> (r: usize)
    requires
        t.wf(),
        t.bytes() <= usize::MAX,
        *old(slack) + t.spare() <= usize::MAX,
    ensures
        r == t.bytes(),
        *final(slack) == *old(slack) + t.spare(),
{
    proof {
        assert((t.cap - t.len) * t.item <= t.cap * t.item) by (nonlinear_arith)
            requires
                0 <= t.len <= t.cap,
        ;
    }
    *slack = *slack + (t.cap - t.len) * t.item;
    t.cap * t.item
}

proof fn lemma_spare_le_bytes(ts: Seq<TableUse>, n: int)
    requires
        0 <= n <= ts.len(),
        forall|i: int| 0 <= i < ts.len() ==> (#[trigger] ts[i]).wf(),
    ensures
        0 <= spare_of(ts) <= bytes_of(ts),
        bytes_of(ts.take(n)) <= bytes_of(ts),
        spare_of(ts.take(n)) <= spare_of(ts),
    decreases ts.len(),
{
    if ts.len() > 0 {
        let init = ts.drop_last();
        assert forall|i: int| 0 <= i < init.len() implies (#[trigger] init[i]).wf() by {
            assert(init[i] == ts[i]);
        }
        let t = ts.last();
        assert(t == ts[ts.len() - 1]);
        assert(0 <= (t.cap - t.len) * t.item <= t.cap * t.item) by (nonlinear_arith)
            requires
                0 <= t.len <= t.cap,
                0 <= t.item,
        ;
        if n < ts.len() {
            lemma_spare_le_bytes(init, n);
            assert(init.take(n) =~= ts.take(n));
        } else {
            lemma_spare_le_bytes(init, init.len() as int);
            assert(ts.take(n) =~= ts);
        }
    } else {
        assert(ts.take(n) =~= ts);
    }
}

fn tables_bytes(ts: &Vec<TableUse>, slack: &mut usize) -> (r: usize)
    requires
        forall|i: int| 0 <= i < ts@.len() ==> (#[trigger] ts@[i]).wf(),
        bytes_of(ts@) <= usize::MAX,
        *old(slack) + spare_of(ts@) <= usize::MAX,
    ensures
        r == bytes_of(ts@),
        *final(slack) == *old(slack) + spare_of(ts@),
{
    let mut sum: usize = 0;
    let mut i: usize = 0;
    assert(ts@.take(0) =~= Seq::empty());
    while i < ts.len()
        invariant
            i <= ts@.len(),
            forall|i: int| 0 <= i < ts@.len() ==> (#[trigger] ts@[i]).wf(),
            bytes_of(ts@) <= usize::MAX,
            *old(slack) + spare_of(ts@) <= usize::MAX,
            sum == bytes_of(ts@.take(i as int)),
            *slack == *old(slack) + spare_of(ts@.take(i as int)),
        decreases ts@.len() - i,
    {
        proof {
            assert(ts@.take(i + 1).drop_last() =~= ts@.take(i as int));
            assert(ts@.take(i + 1).last() == ts@[i as int]);
            lemma_spare_le_bytes(ts@, i + 1);
            let ys = ts@.take(i as int);
            assert forall|k: int| 0 <= k < ys.len() implies (#[trigger] ys[k]).wf() by {
                assert(ys[k] == ts@[k]);
            }
            lemma_spare_le_bytes(ys, 0);
        }
        sum = sum + vec_bytes(ts[i], slack);
        i = i + 1;
    }
    assert(ts@.take(i as int) =~= ts@);
    sum
}

impl Chunk {
    /// The chunk's estimated heap bytes.
    pub fn mem_bytes(&self, u: &ChunkRoom) -> (r: ChunkBytes)
        requires
            has_room(*self, *u),
        ensures
            r.header == 2 * u.word + u.chunk,
            r.ops == u.ops.holds(self.ops@.len() as usize).bytes(),
            r.pools == bytes_of(pool_tables(*self, *u)),
            r.ics == bytes_of(cache_tables(*self, *u)),
            r.positions == self.positions@.len(),
            r.slack == u.ops.holds(self.ops@.len() as usize).spare() + spare_of(
                pool_tables(*self, *u),
            ) + spare_of(cache_tables(*self, *u)),
    {
        let ops_use: TableUse = u.ops.holding(self.ops.len());
        let pools: Vec<TableUse> = vec![
            u.consts.holding(self.consts.len()),
            u.names.holding(self.names.len()),
            u.slot_names.holding(self.slot_names.len()),
            u.var_force_resets.holding(self.var_force_resets.len()),
            u.funcs.holding(self.funcs.len()),
            u.classes.holding(self.classes),
            u.cap_inits.holding(self.cap_inits.len()),
        ];
        let ics: Vec<TableUse> = vec![
            u.caches.holding(self.caches),
            u.obj_maps.holding(self.obj_maps),
            u.name_caches.holding(self.name_caches),
            u.name_paths.holding(self.name_paths),
            u.name_pins.holding(self.name_pins),
            u.cap_caches.holding(self.cap_caches),
            u.cap_pins.holding(self.cap_pins),
            u.switch_tables.holding(self.switch_tables),
        ];
        proof {
            assert(pools@ =~= pool_tables(*self, *u));
            assert(ics@ =~= cache_tables(*self, *u));
            lemma_spare_le_bytes(pools@, 0);
            lemma_spare_le_bytes(ics@, 0);
            let t = ops_use;
            assert(0 <= (t.cap - t.len) * t.item <= t.cap * t.item) by (nonlinear_arith)
                requires
                    0 <= t.len <= t.cap,
                    0 <= t.item,
            ;
        }
        let mut slack: usize = 0;
        let ops: usize = vec_bytes(ops_use, &mut slack);
        let pools: usize = tables_bytes(&pools, &mut slack);
        let ics: usize = tables_bytes(&ics, &mut slack);
        ChunkBytes {
            header: 2 * u.word + u.chunk,
            ops,
            pools,
            ics,
            positions: self.positions.len(),
            slack,
        }
    }

    /// The functions this chunk instantiates.
    pub fn inner_functions(&self) -> (r: &[FnId])
        ensures
            r@ == self.funcs@,
    {
        self.funcs.as_slice()
    }
}

} // verus!
