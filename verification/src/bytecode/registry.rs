//! Precompiled units at run time: chunks are registered when a unit is attached and decoded when
//! their function first tiers up.

use super::chunk::{Chunk, ChunkView, FnId};
use super::chunk_codec::{chunk_bytes, chunk_carried, chunk_strs, enc_chunk};
use super::list_codec::{EncodeError, Tables, TablesView};
use super::section::{
    dec_chunk_at, entries_at, entry_view, parse_section, parse_strings, raws_end, section_at,
    table_at, whole_chunk_at, EntryAt, Section,
};
use super::strings::{add_strs, Strings};
use super::op::Op;
use super::unit_index::UnitIndex;
use super::wire::{count_at, lemma_uv_rest_bounds, uv_at, DecodeError};
use crate::tables::keys_of;
use std::collections::HashMap;
use vstd::prelude::*;

verus! {

broadcast use vstd::std_specs::hash::group_hash_axioms;

/// What a section holds for a function.
#[derive(Clone, Copy, Debug, PartialEq, Eq, Structural)]
pub enum EntryKind {
    /// Nothing: it compiles at run time as usual.
    Absent,
    /// The compiler refused it.
    Refused,
    /// Its chunk, at this byte range of the section.
    Chunk(usize, usize),
}

/// A unit whose chunks decode on demand.
pub struct LazyUnit {
    pub section: Vec<u8>,
    /// The string table's byte range.
    pub strings_at: (usize, usize),
    /// The string table, once a chunk was decoded.
    pub strings: Option<Vec<String>>,
    /// Each function's entry, by function index.
    pub entries: Vec<EntryKind>,
    /// The unit's functions, by index (`None`: not decoded, or gone).
    pub funcs: Vec<Option<FnId>>,
    /// Whether the unit's syntax tree is still there.
    pub live: bool,
}

impl LazyUnit {
    pub open spec fn wf(&self) -> bool {
        &&& self.strings_at.0 <= self.strings_at.1 <= self.section@.len()
        &&& self.entries@.len() == self.funcs@.len()
        &&& forall|i: int|
            0 <= i < self.entries@.len() ==> (#[trigger] self.entries@[i] matches EntryKind::Chunk(
                a,
                b,
            ) ==> a <= b <= self.section@.len())
    }

    /// The string table that chunks decode against.
    pub open spec fn table(&self) -> Option<Seq<Seq<char>>> {
        match self.strings {
            Some(t) => Some(t.deep_view()),
            None => match table_at(
                self.section@.subrange(self.strings_at.0 as int, self.strings_at.1 as int),
                0,
            ) {
                Ok((t, _)) => Some(t),
                Err(_) => None,
            },
        }
    }

    /// The chunk at the bytes `a..b` of the section, its inner functions by their index in the
    /// unit.
    pub open spec fn by_index(&self, a: int, b: int) -> Option<ChunkView> {
        match self.table() {
            None => None,
            Some(strings) => match whole_chunk_at(
                self.section@.subrange(a, b),
                TablesView { strings, funcs: index_table(self.funcs@.len()) },
            ) {
                Ok(c) => Some(c),
                Err(_) => None,
            },
        }
    }

    /// The inner functions of the chunk at the bytes `a..b` that are not decoded.
    pub open spec fn wanted(&self, a: int, b: int) -> Seq<usize> {
        match self.by_index(a, b) {
            None => Seq::empty(),
            Some(c) => undecoded(c.funcs, self.funcs@),
        }
    }

    /// What decoding the bytes `a..b` of the section gives.
    pub open spec fn decoded(&self, a: int, b: int) -> Option<ChunkView> {
        match self.table() {
            None => None,
            Some(strings) => match whole_chunk_at(
                self.section@.subrange(a, b),
                TablesView { strings, funcs: self.funcs@ },
            ) {
                Ok(c) => Some(c),
                Err(_) => None,
            },
        }
    }
}

/// A table in which every function of a unit stands under its index.
pub open spec fn index_table(n: nat) -> Seq<Option<FnId>> {
    Seq::new(n, |i: int| Some(FnId(i as u64)))
}

/// Those of the functions, given by their index, that a unit has not decoded.
pub open spec fn undecoded(inner: Seq<FnId>, funcs: Seq<Option<FnId>>) -> Seq<usize>
    decreases inner.len(),
{
    if inner.len() == 0 {
        Seq::empty()
    } else {
        let rest = undecoded(inner.drop_last(), funcs);
        let i = inner.last().0 as int;
        if i < funcs.len() && funcs[i] is None {
            rest.push(i as usize)
        } else {
            rest
        }
    }
}

/// A registered chunk: where it stands.
#[derive(Clone, Copy, Debug, PartialEq, Eq, Structural)]
pub struct LazyEntry {
    pub unit: usize,
    pub idx: usize,
    pub start: usize,
    pub end: usize,
}

/// How often things happened since the last reset.
#[derive(Clone, Copy, Debug, PartialEq, Eq, Structural)]
pub struct Counters {
    /// Functions really compiled.
    pub compiles: u64,
    /// Chunks registered for decoding on demand.
    pub registered: u64,
    /// Chunks decoded into a code cache.
    pub attached: u64,
    /// Compiler refusals attached.
    pub refusals: u64,
}

/// A function's tier state: its code cache (`Some(None)`: the compiler refused it) and its call
/// count.
pub struct FnState {
    pub code: Option<Option<Chunk>>,
    pub calls: u32,
}

/// The registered chunks that are not decoded yet.
pub struct Registry {
    pub units: Vec<LazyUnit>,
    /// By function.
    pub lazy: HashMap<u64, LazyEntry>,
    pub counters: Counters,
}

/// The registrations that are kept before dead ones are looked for.
pub const LAZY_SWEEP: usize = 4096;

/// Whether the registration's function still is that function of a live unit.
pub open spec fn entry_live(units: Seq<LazyUnit>, f: u64, e: LazyEntry) -> bool {
    &&& units[e.unit as int].live
    &&& units[e.unit as int].funcs@[e.idx as int] == Some(FnId(f))
}

impl Registry {
    pub open spec fn wf(&self) -> bool {
        &&& forall|i: int| 0 <= i < self.units@.len() ==> (#[trigger] self.units@[i]).wf()
        &&& forall|f: u64| #[trigger]
            self.lazy@.contains_key(f) ==> self.entry_wf(self.lazy@[f])
    }

    /// The registration refers to a function and to bytes of a unit.
    pub open spec fn entry_wf(&self, e: LazyEntry) -> bool {
        &&& e.unit < self.units@.len()
        &&& e.idx < self.units@[e.unit as int].funcs@.len()
        &&& e.start <= e.end <= self.units@[e.unit as int].section@.len()
    }

    pub fn new() -> (r: Registry)
        ensures
            r.wf(),
            r.units@.len() == 0,
            r.lazy@ == Map::<u64, LazyEntry>::empty(),
            r.counters == (Counters { compiles: 0, registered: 0, attached: 0, refusals: 0 }),
    {
        Registry {
            units: Vec::new(),
            lazy: HashMap::new(),
            counters: Counters { compiles: 0, registered: 0, attached: 0, refusals: 0 },
        }
    }

    /// Notes a real compile (not of a precompiled chunk).
    pub fn note_compile(&mut self)
        ensures
            final(self).units@ == old(self).units@,
            final(self).lazy@ == old(self).lazy@,
            final(self).counters == (Counters {
                compiles: old(self).counters.compiles.wrapping_add(1),
                ..old(self).counters
            }),
    {
        self.counters.compiles = self.counters.compiles.wrapping_add(1);
    }

    /// The counters: compiles, chunks registered, chunks decoded, refusals attached.
    pub fn counters(&self) -> (r: (u64, u64, u64, u64))
        ensures
            r == (
                self.counters.compiles,
                self.counters.registered,
                self.counters.attached,
                self.counters.refusals,
            ),
    {
        (
            self.counters.compiles,
            self.counters.registered,
            self.counters.attached,
            self.counters.refusals,
        )
    }

    pub fn reset_counters(&mut self)
        ensures
            final(self).units@ == old(self).units@,
            final(self).lazy@ == old(self).lazy@,
            final(self).counters == (Counters {
                compiles: 0,
                registered: 0,
                attached: 0,
                refusals: 0,
            }),
    {
        self.counters = Counters { compiles: 0, registered: 0, attached: 0, refusals: 0 };
    }

    /// The number of chunks registered and not yet decoded.
    pub fn lazy_registered(&self) -> (r: usize)
        ensures
            r == self.lazy@.len(),
    {
        self.lazy.len()
    }
}

// ---- attaching ------------------------------------------------------------------------------

pub open spec fn kind_of(e: Option<(int, int)>) -> EntryKind {
    match e {
        None => EntryKind::Refused,
        Some((a, b)) => EntryKind::Chunk(a as usize, b as usize),
    }
}

/// The entries of a section spread over the unit's functions.
pub open spec fn spread(entries: Seq<EntryAt>, n: nat) -> Seq<EntryKind>
    decreases entries.len(),
{
    if entries.len() == 0 {
        Seq::new(n, |i: int| EntryKind::Absent)
    } else {
        spread(entries.drop_last(), n).update(entries.last().0, kind_of(entries.last().1))
    }
}

proof fn lemma_spread_len(entries: Seq<EntryAt>, n: nat)
    requires
        forall|k: int| 0 <= k < entries.len() ==> 0 <= (#[trigger] entries[k]).0 < n,
    ensures
        spread(entries, n).len() == n,
    decreases entries.len(),
{
    if entries.len() > 0 {
        let init = entries.drop_last();
        assert forall|k: int| 0 <= k < init.len() implies 0 <= (#[trigger] init[k]).0 < n by {
            assert(init[k] == entries[k]);
        }
        lemma_spread_len(init, n);
        assert(entries.last() == entries[entries.len() - 1]);
    }
}

proof fn lemma_raws_end_bounds(s: Seq<u8>, pos: int, n: nat)
    requires
        0 <= pos <= s.len(),
        raws_end(s, pos, n) is Ok,
    ensures
        pos <= raws_end(s, pos, n)->Ok_0.1 <= s.len(),
    decreases n,
{
    if n > 0 {
        lemma_raws_end_bounds(s, pos, (n - 1) as nat);
        lemma_uv_rest_bounds(s, raws_end(s, pos, (n - 1) as nat)->Ok_0.1, 0);
    }
}

/// Entries name functions of the unit in ascending order, and their ranges stand in the section.
pub open spec fn entries_sound(es: Seq<EntryAt>, len: int, n: int) -> bool {
    &&& forall|k: int|
        0 <= k < es.len() ==> {
            &&& 0 <= (#[trigger] es[k]).0 < n
            &&& es[k].1 matches Some((a, b)) ==> 0 <= a <= b <= len
        }
    &&& forall|j: int, k: int| 0 <= j < k < es.len() ==> (#[trigger] es[j]).0 < (#[trigger] es[k]).0
}

proof fn lemma_entries_sound(s: Seq<u8>, pos: int, m: nat, n: int)
    requires
        0 <= pos <= s.len(),
        entries_at(s, pos, m, n) is Ok,
    ensures
        entries_sound(entries_at(s, pos, m, n)->Ok_0.0, s.len() as int, n),
        entries_at(s, pos, m, n)->Ok_0.0.len() == m,
        pos <= entries_at(s, pos, m, n)->Ok_0.1 <= s.len(),
    decreases m,
{
    if m > 0 {
        lemma_entries_sound(s, pos, (m - 1) as nat, n);
        let (es, p) = entries_at(s, pos, (m - 1) as nat, n)->Ok_0;
        lemma_uv_rest_bounds(s, p, 0);
        let q = uv_at(s, p)->Ok_0.1;
        lemma_uv_rest_bounds(s, q + 1, 0);
        let (got, end) = entries_at(s, pos, m, n)->Ok_0;
        assert forall|j: int, k: int| 0 <= j < k < got.len() implies (#[trigger] got[j]).0 < (
        #[trigger] got[k]).0 by {
            if k == es.len() {
                if j < es.len() - 1 {
                    assert(es[j].0 < es[es.len() - 1].0);
                }
            }
        }
    }
}

/// What parses as a section is sound.
pub proof fn lemma_section_sound(s: Seq<u8>, n: int)
    requires
        section_at(s, n) is Ok,
    ensures
        entries_sound(section_at(s, n)->Ok_0.entries, s.len() as int, n),
        0 <= section_at(s, n)->Ok_0.strings.0 <= section_at(s, n)->Ok_0.strings.1 <= s.len(),
{
    lemma_uv_rest_bounds(s, 0, 0);
    let start = uv_at(s, 0)->Ok_0.1;
    lemma_uv_rest_bounds(s, start, 0);
    let (c, p) = count_at(s, start)->Ok_0;
    lemma_raws_end_bounds(s, p, c as nat);
    let end = raws_end(s, p, c as nat)->Ok_0.1;
    lemma_uv_rest_bounds(s, end, 0);
    let (m, q) = count_at(s, end)->Ok_0;
    lemma_entries_sound(s, q, m as nat, n);
}

fn spread_entries(list: &Vec<(usize, Option<(usize, usize)>)>, n: usize) -> (r: Vec<EntryKind>)
    requires
        forall|k: int| 0 <= k < list@.len() ==> (#[trigger] list@[k]).0 < n,
    ensures
        r@ == spread(list@.map_values(|e| entry_view(e)), n as nat),
        r@.len() == n,
{
    let ghost es = list@.map_values(|e: (usize, Option<(usize, usize)>)| entry_view(e));
    let mut r: Vec<EntryKind> = Vec::new();
    let mut i: usize = 0;
    while i < n
        invariant
            i <= n,
            r@.len() == i,
            forall|j: int| 0 <= j < i ==> r@[j] == EntryKind::Absent,
        decreases n - i,
    {
        r.push(EntryKind::Absent);
        i = i + 1;
    }
    assert(es.take(0) =~= Seq::empty());
    assert(r@ =~= spread(es.take(0), n as nat));
    let mut k: usize = 0;
    while k < list.len()
        invariant
            k <= list@.len(),
            es == list@.map_values(|e: (usize, Option<(usize, usize)>)| entry_view(e)),
            forall|k: int| 0 <= k < list@.len() ==> (#[trigger] list@[k]).0 < n,
            r@ == spread(es.take(k as int), n as nat),
            r@.len() == n,
        decreases list@.len() - k,
    {
        proof {
            assert(es.take(k + 1).drop_last() =~= es.take(k as int));
            assert(es.take(k + 1).last() == entry_view(list@[k as int]));
        }
        let kind: EntryKind = match list[k].1 {
            None => EntryKind::Refused,
            Some((a, b)) => EntryKind::Chunk(a, b),
        };
        let at: usize = list[k].0;
        r.set(at, kind);
        k = k + 1;
    }
    assert(es.take(k as int) =~= es);
    r
}

proof fn lemma_spread_ranges(es: Seq<EntryAt>, n: nat, len: int)
    requires
        entries_sound(es, len, n as int),
        len <= usize::MAX,
    ensures
        forall|i: int|
            0 <= i < n ==> (#[trigger] spread(es, n)[i] matches EntryKind::Chunk(a, b) ==> a <= b
                <= len),
    decreases es.len(),
{
    lemma_spread_len(es, n);
    if es.len() > 0 {
        let init = es.drop_last();
        assert(entries_sound(init, len, n as int)) by {
            assert forall|k: int| 0 <= k < init.len() implies {
                &&& 0 <= (#[trigger] init[k]).0 < n
                &&& init[k].1 matches Some((a, b)) ==> 0 <= a <= b <= len
            } by {
                assert(init[k] == es[k]);
            }
            assert forall|j: int, k: int| 0 <= j < k < init.len() implies (#[trigger] init[j]).0 < (
            #[trigger] init[k]).0 by {
                assert(init[j] == es[j] && init[k] == es[k]);
            }
        }
        lemma_spread_ranges(init, n, len);
        lemma_spread_len(init, n);
        assert(es.last() == es[es.len() - 1]);
    }
}

/// The registrations that stay when `lazy` has grown large: those of live functions.
pub open spec fn swept(units: Seq<LazyUnit>, lazy: Map<u64, LazyEntry>) -> Map<u64, LazyEntry> {
    lazy.restrict(Set::new(|f: u64| entry_live(units, f, lazy[f])))
}

impl Registry {
    fn sweep(&mut self)
        requires
            old(self).wf(),
        ensures
            final(self).wf(),
            final(self).units@ == old(self).units@,
            final(self).counters == old(self).counters,
            final(self).lazy@ == swept(old(self).units@, old(self).lazy@),
    {
        let keys: Vec<u64> = keys_of(&self.lazy);
        let ghost lazy = self.lazy@;
        let ghost units = self.units@;
        let mut i: usize = 0;
        while i < keys.len()
            invariant
                i <= keys@.len(),
                self.wf(),
                self.units@ == units,
                self.counters == old(self).counters,
                keys@.no_duplicates(),
                forall|f: u64| #[trigger] lazy.contains_key(f) <==> keys@.contains(f),
                forall|f: u64|
                    #[trigger] self.lazy@.contains_key(f) <==> lazy.contains_key(f) && (entry_live(
                        units,
                        f,
                        lazy[f],
                    ) || !keys@.take(i as int).contains(f)),
                forall|f: u64| self.lazy@.contains_key(f) ==> #[trigger] self.lazy@[f] == lazy[f],
            decreases keys@.len() - i,
        {
            let k: u64 = keys[i];
            proof {
                let seen = keys@.take(i as int);
                assert(keys@.contains(k));
                assert(!seen.contains(k)) by {
                    if seen.contains(k) {
                        let j = choose|j: int| 0 <= j < seen.len() && seen[j] == k;
                        assert(keys@[j] == keys@[i as int]);
                    }
                }
                assert(keys@.take(i + 1) =~= seen.push(k));
                assert forall|x: u64| keys@.take(i + 1).contains(x) <==> seen.contains(x) || x
                    == k by {
                    if seen.contains(x) {
                        let j = choose|j: int| 0 <= j < seen.len() && seen[j] == x;
                        assert(keys@.take(i + 1)[j] == x);
                    }
                    assert(keys@.take(i + 1)[i as int] == k);
                }
                assert(self.lazy@.contains_key(k));
            }
            let live: bool = match self.lazy.get(&k) {
                None => true,
                Some(e) => match self.units[e.unit].funcs[e.idx] {
                    Some(f) => self.units[e.unit].live && f.0 == k,
                    None => false,
                },
            };
            if !live {
                let _ = self.lazy.remove(&k);
            }
            i = i + 1;
        }
        proof {
            assert(keys@.take(i as int) =~= keys@);
            assert(self.lazy@ =~= swept(units, lazy));
        }
    }

    /// Attaches a section to a unit of `fn_count` functions (none of them decoded yet): its
    /// entries wait for the functions, and nothing is decoded. The unit's number is returned.
    pub fn attach_unit(&mut self, section: Vec<u8>, fn_count: usize) -> (r: Result<
        usize,
        DecodeError,
    >)
        requires
            old(self).wf(),
        ensures
            final(self).wf(),
            final(self).counters == old(self).counters,
            match (r, section_at(section@, fn_count as int)) {
                (Ok(k), Ok(v)) => {
                    &&& k == old(self).units@.len()
                    &&& final(self).units@.len() == k + 1
                    &&& final(self).units@.take(k as int) == old(self).units@
                    &&& final(self).units@[k as int].section@ == section@
                    &&& final(self).units@[k as int].strings_at.0 == v.strings.0
                    &&& final(self).units@[k as int].strings_at.1 == v.strings.1
                    &&& final(self).units@[k as int].strings is None
                    &&& final(self).units@[k as int].entries@ == spread(
                        v.entries,
                        fn_count as nat,
                    )
                    &&& final(self).units@[k as int].funcs@ == Seq::new(
                        fn_count as nat,
                        |i: int| None::<FnId>,
                    )
                    &&& final(self).units@[k as int].live
                    &&& final(self).lazy@ == (if old(self).lazy@.len() > LAZY_SWEEP {
                        swept(old(self).units@, old(self).lazy@)
                    } else {
                        old(self).lazy@
                    })
                },
                (Err(e), Err(f)) => {
                    &&& e == f
                    &&& final(self).units@ == old(self).units@
                    &&& final(self).lazy@ == old(self).lazy@
                },
                _ => false,
            },
    {
        let parsed: Section = parse_section(section.as_slice(), fn_count)?;
        let len: usize = section.len();
        proof {
            lemma_section_sound(section@, fn_count as int);
            let v = section_at(section@, fn_count as int)->Ok_0;
            assert(v.entries == parsed.entries@.map_values(|e| entry_view(e)));
            assert forall|k: int| 0 <= k < parsed.entries@.len() implies (
            #[trigger] parsed.entries@[k]).0 < fn_count by {
                assert(v.entries[k] == entry_view(parsed.entries@[k]));
            }
            lemma_spread_ranges(v.entries, fn_count as nat, len as int);
        }
        let entries: Vec<EntryKind> = spread_entries(&parsed.entries, fn_count);
        let mut funcs: Vec<Option<FnId>> = Vec::new();
        let mut i: usize = 0;
        while i < fn_count
            invariant
                i <= fn_count,
                funcs@.len() == i,
                forall|j: int| 0 <= j < i ==> funcs@[j] == None::<FnId>,
            decreases fn_count - i,
        {
            funcs.push(None);
            i = i + 1;
        }
        if self.lazy.len() > LAZY_SWEEP {
            self.sweep();
        }
        let k: usize = self.units.len();
        let ghost lazy = self.lazy@;
        let ghost units = self.units@;
        self.units.push(
            LazyUnit {
                section,
                strings_at: parsed.strings,
                strings: None,
                entries,
                funcs,
                live: true,
            },
        );
        proof {
            assert(self.units@.take(k as int) =~= units);
            assert(self.units@[k as int].funcs@ =~= Seq::new(
                fn_count as nat,
                |i: int| None::<FnId>,
            ));
            assert forall|j: int| 0 <= j < self.units@.len() implies (
            #[trigger] self.units@[j]).wf() by {
                if j < k {
                    assert(self.units@[j] == units[j]);
                }
            }
            assert forall|f: u64| #[trigger] self.lazy@.contains_key(f) implies self.entry_wf(
                self.lazy@[f],
            ) by {
                assert(self.units@[self.lazy@[f].unit as int] == units[self.lazy@[f].unit as int]);
            }
        }
        Ok(k)
    }
}

// ---- registering and taking -----------------------------------------------------------------

/// The entry that unit `u` holds for function `idx`.
pub open spec fn entry_of(u: LazyUnit, idx: int) -> EntryKind {
    if 0 <= idx < u.entries@.len() {
        u.entries@[idx]
    } else {
        EntryKind::Absent
    }
}

/// The unit once `f` was decoded as its function `idx`.
pub open spec fn with_func(u: LazyUnit, idx: int, f: FnId, after: LazyUnit) -> bool {
    &&& after.section@ == u.section@
    &&& after.strings_at == u.strings_at
    &&& after.strings == u.strings
    &&& after.entries@ == u.entries@
    &&& after.live == u.live
    &&& after.funcs@ == (if 0 <= idx < u.funcs@.len() {
        u.funcs@.update(idx, Some(f))
    } else {
        u.funcs@
    })
}

/// All units but `k` are as before.
pub open spec fn others_same(a: Seq<LazyUnit>, b: Seq<LazyUnit>, k: int) -> bool {
    &&& a.len() == b.len()
    &&& forall|i: int| 0 <= i < a.len() && i != k ==> #[trigger] a[i] == b[i]
}

impl Registry {
    /// Function `idx` of unit `unit` was decoded, as `f`: a recorded refusal goes straight into
    /// its code cache, and a chunk is registered (and the function made to tier up on its first
    /// call). A function whose cache is filled is left alone.
    pub fn register(&mut self, unit: usize, idx: usize, f: FnId, st: &mut FnState)
        requires
            old(self).wf(),
            unit < old(self).units@.len(),
        ensures
            final(self).wf(),
            others_same(final(self).units@, old(self).units@, unit as int),
            with_func(
                old(self).units@[unit as int],
                idx as int,
                f,
                final(self).units@[unit as int],
            ),
            match entry_of(old(self).units@[unit as int], idx as int) {
                EntryKind::Absent => {
                    &&& *final(st) == *old(st)
                    &&& final(self).lazy@ == old(self).lazy@
                    &&& final(self).counters == old(self).counters
                },
                EntryKind::Refused => {
                    &&& final(self).lazy@ == old(self).lazy@
                    &&& if old(st).code is None {
                        &&& *final(st) == (FnState { code: Some(None), calls: old(st).calls })
                        &&& final(self).counters == (Counters {
                            refusals: old(self).counters.refusals.wrapping_add(1),
                            ..old(self).counters
                        })
                    } else {
                        &&& *final(st) == *old(st)
                        &&& final(self).counters == old(self).counters
                    }
                },
                EntryKind::Chunk(start, end) => if old(st).code is None {
                    &&& *final(st) == (FnState {
                        code: None,
                        calls: if old(st).calls > u32::MAX - 1 {
                            old(st).calls
                        } else {
                            (u32::MAX - 1) as u32
                        },
                    })
                    &&& final(self).lazy@ == old(self).lazy@.insert(
                        f.0,
                        (LazyEntry { unit, idx, start, end }),
                    )
                    &&& final(self).counters == (Counters {
                        registered: old(self).counters.registered.wrapping_add(1),
                        ..old(self).counters
                    })
                } else {
                    &&& *final(st) == *old(st)
                    &&& final(self).lazy@ == old(self).lazy@
                    &&& final(self).counters == old(self).counters
                },
            },
    {
        let kind: EntryKind = if idx < self.units[unit].entries.len() {
            self.units[unit].entries[idx]
        } else {
            EntryKind::Absent
        };
        proof {
            assert(self.units@[unit as int].wf());
        }
        self.decode_func(unit, idx, f);
        match kind {
            EntryKind::Absent => {},
            EntryKind::Refused => {
                if st.code.is_none() {
                    st.code = Some(None);
                    self.counters.refusals = self.counters.refusals.wrapping_add(1);
                }
            },
            EntryKind::Chunk(start, end) => {
                if st.code.is_none() {
                    if st.calls < u32::MAX - 1 {
                        st.calls = u32::MAX - 1;
                    }
                    let _ = self.lazy.insert(f.0, LazyEntry { unit, idx, start, end });
                    self.counters.registered = self.counters.registered.wrapping_add(1);
                }
            },
        }
    }

    /// Notes that `f` is function `idx` of unit `unit`.
    fn decode_func(&mut self, unit: usize, idx: usize, f: FnId)
        requires
            old(self).wf(),
            unit < old(self).units@.len(),
        ensures
            final(self).wf(),
            final(self).lazy@ == old(self).lazy@,
            final(self).counters == old(self).counters,
            others_same(final(self).units@, old(self).units@, unit as int),
            with_func(
                old(self).units@[unit as int],
                idx as int,
                f,
                final(self).units@[unit as int],
            ),
    {
        assert(self.units@[unit as int].wf());
        if idx < self.units[unit].funcs.len() {
            let ghost units = self.units@;
            self.units[unit].funcs[idx] = Some(f);
            proof {
                assert forall|i: int| 0 <= i < self.units@.len() implies (
                #[trigger] self.units@[i]).wf() by {
                    assert(units[i].wf());
                }
                assert forall|g: u64| #[trigger] self.lazy@.contains_key(g) implies self.entry_wf(
                    self.lazy@[g],
                ) by {
                    assert(old(self).entry_wf(self.lazy@[g]));
                }
            }
        }
    }
}

/// What taking the chunk registered for `f` gives.
pub open spec fn taken(units: Seq<LazyUnit>, lazy: Map<u64, LazyEntry>, f: FnId) -> Option<
    ChunkView,
> {
    if lazy.contains_key(f.0) && entry_live(units, f.0, lazy[f.0]) {
        let e = lazy[f.0];
        units[e.unit as int].decoded(e.start as int, e.end as int)
    } else {
        None
    }
}

/// The inner functions, by index in their unit, that the chunk registered for `f` waits for.
pub open spec fn wanted_for(units: Seq<LazyUnit>, lazy: Map<u64, LazyEntry>, f: FnId) -> Seq<
    usize,
> {
    if lazy.contains_key(f.0) && entry_live(units, f.0, lazy[f.0]) {
        let e = lazy[f.0];
        units[e.unit as int].wanted(e.start as int, e.end as int)
    } else {
        Seq::empty()
    }
}

/// What taking the chunk registered for `f` does to the registry.
pub open spec fn takes(before: Registry, after: Registry, f: FnId, got: Option<ChunkView>) -> bool {
    &&& units_parsed_from(before.units@, after.units@)
    &&& if wanted_for(before.units@, before.lazy@, f).len() > 0 {
        &&& got is None
        &&& after.lazy@ == before.lazy@
        &&& after.counters == before.counters
    } else {
        &&& got == taken(before.units@, before.lazy@, f)
        &&& after.lazy@ == before.lazy@.remove(f.0)
        &&& after.counters == (if got is Some {
            Counters {
                attached: before.counters.attached.wrapping_add(1),
                ..before.counters
            }
        } else {
            before.counters
        })
    }
}

/// The view of a chunk that may be there.
pub open spec fn chunk_view(c: Option<Chunk>) -> Option<ChunkView> {
    match c {
        Some(c) => Some(c.deep_view()),
        None => None,
    }
}

/// Unit `b` is unit `a`, perhaps with its string table parsed.
pub open spec fn parsed_from(a: LazyUnit, b: LazyUnit) -> bool {
    &&& b.section@ == a.section@
    &&& b.strings_at == a.strings_at
    &&& b.entries@ == a.entries@
    &&& b.funcs@ == a.funcs@
    &&& b.live == a.live
    &&& b.table() == a.table()
}

pub open spec fn units_parsed_from(a: Seq<LazyUnit>, b: Seq<LazyUnit>) -> bool {
    &&& a.len() == b.len()
    &&& forall|i: int| 0 <= i < a.len() ==> parsed_from(#[trigger] a[i], b[i])
}

impl LazyUnit {
    /// Parses the string table unless it is parsed; `false` when it cannot be.
    fn parse_table(&mut self) -> (r: bool)
        requires
            old(self).wf(),
        ensures
            final(self).wf(),
            parsed_from(*old(self), *final(self)),
            r == old(self).table() is Some,
            r ==> final(self).strings is Some,
    {
        if self.strings.is_some() {
            return true;
        }
        let table: &[u8] = vstd::slice::slice_subrange(
            self.section.as_slice(),
            self.strings_at.0,
            self.strings_at.1,
        );
        match parse_strings(table) {
            Ok(t) => {
                self.strings = Some(t);
                true
            },
            Err(_) => false,
        }
    }

    /// The inner functions of the chunk at bytes `a..b` that are not decoded.
    fn missing(&mut self, a: usize, b: usize) -> (r: Vec<usize>)
        requires
            old(self).wf(),
            a <= b <= old(self).section@.len(),
        ensures
            final(self).wf(),
            parsed_from(*old(self), *final(self)),
            r@ == old(self).wanted(a as int, b as int),
    {
        let mut r: Vec<usize> = Vec::new();
        if !self.parse_table() {
            return r;
        }
        let mut indices: Vec<Option<FnId>> = Vec::new();
        let mut i: usize = 0;
        while i < self.funcs.len()
            invariant
                i <= self.funcs@.len(),
                indices@ =~= index_table(i as nat),
            decreases self.funcs@.len() - i,
        {
            indices.push(Some(FnId(i as u64)));
            i = i + 1;
        }
        let strings: &Vec<String> = match &self.strings {
            None => {
                return r;
            },
            Some(strings) => strings,
        };
        let t: Tables = Tables { strings, funcs: &indices };
        let bytes: &[u8] = vstd::slice::slice_subrange(self.section.as_slice(), a, b);
        let c: Chunk = match dec_chunk_at(bytes, &t) {
            Ok(c) => c,
            Err(_) => {
                return r;
            },
        };
        let mut k: usize = 0;
        assert(c.funcs@.take(0) =~= Seq::empty());
        while k < c.funcs.len()
            invariant
                k <= c.funcs@.len(),
                r@ == undecoded(c.funcs@.take(k as int), self.funcs@),
            decreases c.funcs@.len() - k,
        {
            proof {
                assert(c.funcs@.take(k + 1).drop_last() =~= c.funcs@.take(k as int));
            }
            let x: u64 = c.funcs[k].0;
            if x < self.funcs.len() as u64 {
                if self.funcs[x as usize].is_none() {
                    r.push(x as usize);
                }
            }
            k = k + 1;
        }
        assert(c.funcs@.take(k as int) =~= c.funcs@);
        r
    }

    /// Decodes the chunk at bytes `a..b` of the section.
    fn decode(&mut self, a: usize, b: usize) -> (r: Option<Chunk>)
        requires
            old(self).wf(),
            a <= b <= old(self).section@.len(),
        ensures
            final(self).wf(),
            parsed_from(*old(self), *final(self)),
            match (r, old(self).decoded(a as int, b as int)) {
                (Some(c), Some(v)) => c.deep_view() == v,
                (None, None) => true,
                _ => false,
            },
    {
        if !self.parse_table() {
            return None;
        }
        match &self.strings {
            None => None,
            Some(strings) => {
                let t: Tables = Tables { strings, funcs: &self.funcs };
                let bytes: &[u8] = vstd::slice::slice_subrange(self.section.as_slice(), a, b);
                match dec_chunk_at(bytes, &t) {
                    Ok(c) => Some(c),
                    Err(_) => None,
                }
            },
        }
    }
}

impl Registry {
    /// The registration of `f`, if its function still is that function of a live unit.
    fn live_entry(&self, f: FnId) -> (r: Option<LazyEntry>)
        requires
            self.wf(),
        ensures
            match r {
                Some(e) => {
                    &&& self.lazy@.contains_key(f.0)
                    &&& e == self.lazy@[f.0]
                    &&& entry_live(self.units@, f.0, e)
                },
                None => !(self.lazy@.contains_key(f.0) && entry_live(
                    self.units@,
                    f.0,
                    self.lazy@[f.0],
                )),
            },
    {
        let e: LazyEntry = match self.lazy.get(&f.0) {
            None => {
                return None;
            },
            Some(e) => *e,
        };
        let u: &LazyUnit = &self.units[e.unit];
        match u.funcs[e.idx] {
            Some(g) => if u.live && g.0 == f.0 {
                Some(e)
            } else {
                None
            },
            None => None,
        }
    }

    /// The inner functions, by index in their unit, that the chunk registered for `f` waits for:
    /// the caller decodes and registers them, and takes the chunk then.
    pub fn wanted(&mut self, f: FnId) -> (r: Vec<usize>)
        requires
            old(self).wf(),
        ensures
            final(self).wf(),
            units_parsed_from(old(self).units@, final(self).units@),
            final(self).lazy@ == old(self).lazy@,
            final(self).counters == old(self).counters,
            r@ == wanted_for(old(self).units@, old(self).lazy@, f),
    {
        let e: LazyEntry = match self.live_entry(f) {
            None => {
                return Vec::new();
            },
            Some(e) => e,
        };
        let ghost units = self.units@;
        proof {
            assert(self.entry_wf(e));
            assert(units[e.unit as int].wf());
        }
        let r: Vec<usize> = self.units[e.unit].missing(e.start, e.end);
        proof {
            self.lemma_kept_wf(*old(self));
        }
        r
    }

    /// Parsing string tables keeps the registry well formed.
    proof fn lemma_kept_wf(&self, before: Registry)
        requires
            before.wf(),
            units_parsed_from(before.units@, self.units@),
            forall|i: int| 0 <= i < self.units@.len() ==> (#[trigger] self.units@[i]).wf() || self.units@[i] == before.units@[i],
            self.lazy@ == before.lazy@,
        ensures
            self.wf(),
    {
        assert forall|j: int| 0 <= j < self.units@.len() implies (#[trigger] self.units@[j]).wf() by {
            assert(before.units@[j].wf());
        }
        assert forall|g: u64| #[trigger] self.lazy@.contains_key(g) implies self.entry_wf(
            self.lazy@[g],
        ) by {
            let e = self.lazy@[g];
            assert(before.entry_wf(e));
            assert(parsed_from(before.units@[e.unit as int], self.units@[e.unit as int]));
        }
    }

    /// The precompiled chunk registered for `f`, decoded. Its registration is consumed, unless
    /// inner functions are wanted first. `None` where they are, where nothing was registered,
    /// and where the bytes do not decode (the caller compiles as usual).
    pub fn take_precompiled(&mut self, f: FnId) -> (r: Option<Chunk>)
        requires
            old(self).wf(),
        ensures
            final(self).wf(),
            takes(*old(self), *final(self), f, chunk_view(r)),
    {
        if self.wanted(f).len() > 0 {
            return None;
        }
        let ghost mid = *self;
        let entry: Option<LazyEntry> = self.live_entry(f);
        let _ = self.lazy.remove(&f.0);
        proof {
            assert forall|g: u64| #[trigger] self.lazy@.contains_key(g) implies self.entry_wf(
                self.lazy@[g],
            ) by {
                assert(mid.lazy@.contains_key(g));
            }
            lemma_taken_parsed(old(self).units@, mid.units@, mid.lazy@, f);
        }
        let e: LazyEntry = match entry {
            None => {
                return None;
            },
            Some(e) => e,
        };
        proof {
            assert(mid.entry_wf(e));
            assert(mid.units@[e.unit as int].wf());
        }
        let ghost units = self.units@;
        let ghost stripped = *self;
        let chunk: Option<Chunk> = self.units[e.unit].decode(e.start, e.end);
        proof {
            self.lemma_kept_wf(stripped);
            lemma_parsed_twice(old(self).units@, units, self.units@);
        }
        if chunk.is_some() {
            self.counters.attached = self.counters.attached.wrapping_add(1);
        }
        chunk
    }

    /// Decodes the chunk registered for `f` into its code cache now (unless inner functions are
    /// wanted first). A filled cache is left alone.
    pub fn attach_now(&mut self, f: FnId, st: &mut FnState)
        requires
            old(self).wf(),
        ensures
            final(self).wf(),
            final(st).calls == old(st).calls,
            old(st).code is Some ==> {
                &&& *final(st) == *old(st)
                &&& *final(self) == *old(self)
            },
            old(st).code is None ==> {
                &&& final(st).code is Some ==> final(st).code->0 is Some
                &&& takes(
                    *old(self),
                    *final(self),
                    f,
                    match final(st).code {
                        Some(c) => chunk_view(c),
                        None => None,
                    },
                )
            },
    {
        if st.code.is_none() {
            let chunk: Option<Chunk> = self.take_precompiled(f);
            if chunk.is_some() {
                st.code = Some(chunk);
            }
        }
    }
}

proof fn lemma_parsed_twice(a: Seq<LazyUnit>, b: Seq<LazyUnit>, c: Seq<LazyUnit>)
    requires
        units_parsed_from(a, b),
        units_parsed_from(b, c),
    ensures
        units_parsed_from(a, c),
{
    assert forall|i: int| 0 <= i < a.len() implies parsed_from(#[trigger] a[i], c[i]) by {
        assert(parsed_from(a[i], b[i]));
        assert(parsed_from(b[i], c[i]));
    }
}

proof fn lemma_taken_parsed(
    a: Seq<LazyUnit>,
    b: Seq<LazyUnit>,
    lazy: Map<u64, LazyEntry>,
    f: FnId,
)
    requires
        units_parsed_from(a, b),
        lazy.contains_key(f.0) ==> lazy[f.0].unit < a.len(),
    ensures
        taken(a, lazy, f) == taken(b, lazy, f),
{
    if lazy.contains_key(f.0) {
        assert(parsed_from(a[lazy[f.0].unit as int], b[lazy[f.0].unit as int]));
    }
}

/// A chunk that was taken is not taken again: its function compiles from then on.
pub proof fn lemma_taken_once(units: Seq<LazyUnit>, lazy: Map<u64, LazyEntry>, f: FnId)
    ensures
        taken(units, lazy.remove(f.0), f) is None,
        wanted_for(units, lazy.remove(f.0), f).len() == 0,
{
}

// ---- verification ---------------------------------------------------------------------------

/// A function as verification sees it: its name, what its code cache holds, and what a fresh
/// compile makes of it.
pub struct Verified {
    pub id: FnId,
    pub name: Option<String>,
    pub attached: Option<Option<Chunk>>,
    pub fresh: Option<Chunk>,
}

/// Why verification failed: at which function, and the ops where two chunks differ.
#[derive(Debug)]
pub enum Mismatch {
    /// A chunk that the encoding does not carry.
    NotCarried(EncodeError),
    /// The attached chunk differs from a fresh compile.
    Differs { index: usize, name: Option<String>, attached: Vec<Op>, fresh: Vec<Op> },
    /// A chunk is attached, but a fresh compile refuses.
    AttachedOnly { index: usize, name: Option<String> },
    /// A refusal is attached, but a fresh compile succeeds.
    FreshOnly { index: usize, name: Option<String> },
}

pub enum MismatchView {
    NotCarried(EncodeError),
    Differs { index: int, name: Option<Seq<char>>, attached: Seq<Op>, fresh: Seq<Op> },
    AttachedOnly { index: int, name: Option<Seq<char>> },
    FreshOnly { index: int, name: Option<Seq<char>> },
}

/// The view of a name.
pub open spec fn name_view(n: Option<String>) -> Option<Seq<char>> {
    match n {
        Some(s) => Some(s@),
        None => None,
    }
}

impl View for Mismatch {
    type V = MismatchView;

    open spec fn view(&self) -> MismatchView {
        match *self {
            Mismatch::NotCarried(e) => MismatchView::NotCarried(e),
            Mismatch::Differs { index, name, attached, fresh } => MismatchView::Differs {
                index: index as int,
                name: name_view(name),
                attached: attached@,
                fresh: fresh@,
            },
            Mismatch::AttachedOnly { index, name } => MismatchView::AttachedOnly {
                index: index as int,
                name: name_view(name),
            },
            Mismatch::FreshOnly { index, name } => MismatchView::FreshOnly {
                index: index as int,
                name: name_view(name),
            },
        }
    }
}

fn copy_name(n: &Option<String>) -> (r: Option<String>)
    ensures
        name_view(r) == name_view(*n),
{
    match n {
        Some(s) => Some(s.clone()),
        None => None,
    }
}

fn copy_ops(ops: &Vec<Op>) -> (r: Vec<Op>)
    ensures
        r@ == ops@,
{
    let mut r: Vec<Op> = Vec::new();
    let mut i: usize = 0;
    while i < ops.len()
        invariant
            i <= ops@.len(),
            r@ =~= ops@.take(i as int),
        decreases ops@.len() - i,
    {
        r.push(ops[i]);
        i = i + 1;
    }
    assert(r@ =~= ops@);
    r
}

/// Whether two chunks are encoded alike.
pub open spec fn same_encoding(
    a: ChunkView,
    b: ChunkView,
    unit: Seq<FnId>,
    table: Seq<Seq<char>>,
) -> bool {
    let t1 = add_strs(table, chunk_strs(a, unit));
    let t2 = add_strs(t1, chunk_strs(b, unit));
    chunk_bytes(a, unit, t1) == chunk_bytes(b, unit, t2)
}

/// The state of verifying: the string table so far, the chunks compared and the refusals
/// confirmed.
pub struct Tally {
    pub table: Seq<Seq<char>>,
    pub compared: int,
    pub refusals: int,
}

/// Verifying one function.
pub open spec fn verify_one(v: Verified, i: int, unit: Seq<FnId>, t: Tally) -> Result<Tally, MismatchView> {
    match (v.attached, v.fresh) {
        (None, _) => Ok(t),
        (Some(None), None) => Ok(Tally { refusals: t.refusals + 1, ..t }),
        (Some(Some(a)), Some(b)) => {
            let a = a.deep_view();
            let b = b.deep_view();
            if !chunk_carried(a, unit) {
                Err(MismatchView::NotCarried(super::chunk_codec::chunk_refusal(a, unit)))
            } else if !chunk_carried(b, unit) {
                Err(MismatchView::NotCarried(super::chunk_codec::chunk_refusal(b, unit)))
            } else if !same_encoding(a, b, unit, t.table) {
                Err(
                    MismatchView::Differs {
                        index: i,
                        name: name_view(v.name),
                        attached: a.ops,
                        fresh: b.ops,
                    },
                )
            } else {
                Ok(
                    Tally {
                        table: add_strs(
                            add_strs(t.table, chunk_strs(a, unit)),
                            chunk_strs(b, unit),
                        ),
                        compared: t.compared + 1,
                        refusals: t.refusals,
                    },
                )
            }
        },
        (Some(Some(_)), None) => Err(
            MismatchView::AttachedOnly { index: i, name: name_view(v.name) },
        ),
        (Some(None), Some(_)) => Err(
            MismatchView::FreshOnly { index: i, name: name_view(v.name) },
        ),
    }
}

/// Verifying functions in order: the first mismatch ends it.
pub open spec fn verify_all(vs: Seq<Verified>, unit: Seq<FnId>) -> Result<Tally, MismatchView>
    decreases vs.len(),
{
    if vs.len() == 0 {
        Ok(Tally { table: Seq::empty(), compared: 0, refusals: 0 })
    } else {
        match verify_all(vs.drop_last(), unit) {
            Err(e) => Err(e),
            Ok(t) => verify_one(vs.last(), vs.len() - 1, unit, t),
        }
    }
}

proof fn lemma_verify_fails(vs: Seq<Verified>, unit: Seq<FnId>, m: int, e: MismatchView)
    requires
        0 <= m <= vs.len(),
        verify_all(vs.take(m), unit) == Err::<Tally, MismatchView>(e),
    ensures
        verify_all(vs, unit) == Err::<Tally, MismatchView>(e),
    decreases vs.len(),
{
    if m < vs.len() {
        assert(vs.drop_last().take(m) =~= vs.take(m));
        lemma_verify_fails(vs.drop_last(), unit, m, e);
    } else {
        assert(vs.take(m) =~= vs);
    }
}

fn same_bytes(a: &Vec<u8>, b: &Vec<u8>) -> (r: bool)
    ensures
        r == (a@ == b@),
{
    if a.len() != b.len() {
        return false;
    }
    let mut i: usize = 0;
    while i < a.len()
        invariant
            a@.len() == b@.len(),
            i <= a@.len(),
            forall|j: int| 0 <= j < i ==> a@[j] == b@[j],
        decreases a@.len() - i,
    {
        if a[i] != b[i] {
            return false;
        }
        i = i + 1;
    }
    assert(a@ =~= b@);
    true
}

/// Compares every function's code cache with a fresh compile, byte for byte under the encoding:
/// the chunks compared and the refusals confirmed.
pub fn verify_unit(funcs: &Vec<Verified>) -> (r: Result<(usize, usize), Mismatch>)
    ensures
        match (r, verify_all(funcs@, funcs@.map_values(|v: Verified| v.id))) {
            (Ok((c, n)), Ok(t)) => c == t.compared && n == t.refusals,
            (Err(e), Err(f)) => e@ == f,
            _ => false,
        },
{
    let ghost ids = funcs@.map_values(|v: Verified| v.id);
    let mut unit: Vec<FnId> = Vec::new();
    let mut k: usize = 0;
    while k < funcs.len()
        invariant
            k <= funcs@.len(),
            ids == funcs@.map_values(|v: Verified| v.id),
            unit@ == ids.take(k as int),
        decreases funcs@.len() - k,
    {
        unit.push(funcs[k].id);
        k = k + 1;
        assert(unit@ =~= ids.take(k as int));
    }
    assert(unit@ =~= ids);
    let unit: UnitIndex = UnitIndex::new(&unit);
    let mut strings: Strings = Strings::new();
    let mut compared: usize = 0;
    let mut refusals: usize = 0;
    let mut i: usize = 0;
    assert(funcs@.take(0) =~= Seq::empty());
    while i < funcs.len()
        invariant
            i <= funcs@.len(),
            unit@ == ids,
            ids == funcs@.map_values(|v: Verified| v.id),
            strings.wf(),
            compared + refusals <= i,
            verify_all(funcs@.take(i as int), ids) == Ok::<Tally, MismatchView>(
                Tally {
                    table: strings@,
                    compared: compared as int,
                    refusals: refusals as int,
                },
            ),
        decreases funcs@.len() - i,
    {
        let v: &Verified = &funcs[i];
        proof {
            assert(funcs@.take(i + 1).drop_last() =~= funcs@.take(i as int));
            assert(funcs@.take(i + 1).last() == *v);
        }
        let mut failed: Option<Mismatch> = None;
        match (&v.attached, &v.fresh) {
            (None, _) => {},
            (Some(None), None) => {
                refusals = refusals + 1;
            },
            (Some(Some(a)), Some(b)) => {
                match enc_chunk(&mut strings, &unit, a) {
                    Err(e) => {
                        failed = Some(Mismatch::NotCarried(e));
                    },
                    Ok(ea) => match enc_chunk(&mut strings, &unit, b) {
                        Err(e) => {
                            failed = Some(Mismatch::NotCarried(e));
                        },
                        Ok(eb) => if same_bytes(&ea, &eb) {
                            compared = compared + 1;
                        } else {
                            failed = Some(
                                Mismatch::Differs {
                                    index: i,
                                    name: copy_name(&v.name),
                                    attached: copy_ops(&a.ops),
                                    fresh: copy_ops(&b.ops),
                                },
                            );
                        },
                    },
                }
            },
            (Some(Some(_)), None) => {
                failed = Some(
                    Mismatch::AttachedOnly { index: i, name: copy_name(&v.name) },
                );
            },
            (Some(None), Some(_)) => {
                failed = Some(
                    Mismatch::FreshOnly { index: i, name: copy_name(&v.name) },
                );
            },
        }
        if let Some(e) = failed {
            proof {
                lemma_verify_fails(funcs@, ids, i + 1, e@);
            }
            return Err(e);
        }
        i = i + 1;
    }
    assert(funcs@.take(i as int) =~= funcs@);
    Ok((compared, refusals))
}

// ---- tables and threads ---------------------------------------------------------------------

/// Which table of registrations a thread's code uses: its own, or on a coroutine worker that of
/// the thread driving it.
#[derive(Clone, Copy, Debug, PartialEq, Eq, Structural)]
pub struct ThreadTable {
    pub own: u64,
    pub driver: Option<u64>,
}

impl ThreadTable {
    pub open spec fn current(self) -> u64 {
        match self.driver {
            Some(t) => t,
            None => self.own,
        }
    }

    /// The table this thread's code uses, for a coroutine body it hands to a worker.
    pub fn lazy_handle(&self) -> (r: u64)
        ensures
            r == self.current(),
    {
        match self.driver {
            Some(t) => t,
            None => self.own,
        }
    }

    /// Makes this thread use `table`, or its own again; the previous setting is returned.
    pub fn lazy_enter(&mut self, table: Option<u64>) -> (r: Option<u64>)
        ensures
            r == old(self).driver,
            *final(self) == (ThreadTable { own: old(self).own, driver: table }),
    {
        let before: Option<u64> = self.driver;
        self.driver = table;
        before
    }
}

pub const HASH_MULTIPLIER: u64 = 0x9e37_79b9_7f4a_7c15;

/// Hashes an address with one multiplication.
#[derive(Clone, Copy, Debug, PartialEq, Eq, Structural)]
pub struct PtrHasher(pub u64);

/// The hash after byte `b`.
pub open spec fn hash_byte(h: u64, b: u8) -> u64 {
    (((h << 8) | (h >> 56)) ^ (b as u64)).wrapping_mul(HASH_MULTIPLIER)
}

pub open spec fn hash_bytes(h: u64, s: Seq<u8>) -> u64
    decreases s.len(),
{
    if s.len() == 0 {
        h
    } else {
        hash_byte(hash_bytes(h, s.drop_last()), s.last())
    }
}

impl PtrHasher {
    pub fn finish(&self) -> (r: u64)
        ensures
            r == self.0,
    {
        self.0
    }

    pub fn write(&mut self, bytes: &[u8])
        ensures
            final(self).0 == hash_bytes(old(self).0, bytes@),
    {
        let mut i: usize = 0;
        assert(bytes@.take(0) =~= Seq::empty());
        while i < bytes.len()
            invariant
                i <= bytes@.len(),
                self.0 == hash_bytes(old(self).0, bytes@.take(i as int)),
            decreases bytes@.len() - i,
        {
            proof {
                assert(bytes@.take(i + 1).drop_last() =~= bytes@.take(i as int));
                assert(bytes@.take(i + 1).last() == bytes@[i as int]);
            }
            self.0 = (((self.0 << 8) | (self.0 >> 56)) ^ (bytes[i] as u64)).wrapping_mul(
                HASH_MULTIPLIER,
            );
            i = i + 1;
        }
        assert(bytes@.take(i as int) =~= bytes@);
    }

    pub fn write_usize(&mut self, v: usize)
        ensures
            final(self).0 == ((v as u64) >> 3).wrapping_mul(HASH_MULTIPLIER),
    {
        self.0 = ((v as u64) >> 3).wrapping_mul(HASH_MULTIPLIER);
    }
}

} // verus!
