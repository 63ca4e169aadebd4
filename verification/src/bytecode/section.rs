//! Sections: the encoded chunks of one unit.
//!
//! A section holds the unit's function count, its string table, and an entry for every function
//! the compiler refused or whose chunk the encoding carries, in ascending function order and
//! with the indices as deltas.

use super::chunk::{Chunk, ChunkView, FnId};
use super::chunk_codec::{
    chunk_at, chunk_bytes, chunk_carried, chunk_strs, dec_chunk, enc_chunk, lemma_chunk_stable,
};
use super::list_codec::{EncodeError, Tables, TablesView};
use super::strings::{add_strs, all_in, continues, lemma_add_strs, lemma_all_in_continues, Strings};
use super::unit_index::UnitIndex;
use super::wire::{bytes_at, count_at, u8_at, uv, uv_at, uv_bytes, DecodeError, Rd, Read};
use crate::ast::{has_directive, opens_with, Stmt};
use vstd::prelude::*;
use vstd::utf8::{decode_utf8, encode_utf8, valid_utf8};

verus! {

/// The directive that marks a function as run once.
pub const RUN_ONCE: &'static str = "lumen:run-once";

/// What building a unit's bytecode section did.
#[derive(Clone, Copy, Debug, PartialEq, Eq, Structural)]
pub struct SectionStats {
    /// Functions in the unit.
    pub functions: usize,
    /// Functions whose chunk is in the section.
    pub chunks: usize,
    /// Functions the bytecode compiler refused (recorded, so run time does not retry).
    pub refused: usize,
    /// Functions that compiled but whose chunk is not carried (they compile at run time).
    pub unserializable: usize,
}

impl Default for SectionStats {
    fn default() -> (r: SectionStats)
        ensures
            r == (SectionStats { functions: 0, chunks: 0, refused: 0, unserializable: 0 }),
    {
        SectionStats { functions: 0, chunks: 0, refused: 0, unserializable: 0 }
    }
}

/// A function of a unit: its body (if it is parsed) and what the compiler made of it.
pub struct UnitFn {
    pub id: FnId,
    pub body: Option<Vec<Stmt>>,
    pub compiled: Option<Chunk>,
}

/// Whether the function's body opens with the [`RUN_ONCE`] directive.
pub open spec fn run_once(f: UnitFn) -> bool {
    f.body matches Some(b) && opens_with(b@, RUN_ONCE@)
}

/// What a section records of a function. A run-once function is left to the tree-walker: its
/// chunk would stay attached to it for good.
pub enum Outcome {
    Refused,
    Carried(ChunkView),
    NotCarried(ChunkView),
}

pub open spec fn outcome(f: UnitFn, unit: Seq<FnId>) -> Outcome {
    if run_once(f) {
        Outcome::Refused
    } else {
        match f.compiled {
            None => Outcome::Refused,
            Some(c) => if chunk_carried(c.deep_view(), unit) {
                Outcome::Carried(c.deep_view())
            } else {
                Outcome::NotCarried(c.deep_view())
            },
        }
    }
}

/// The unit's function identities, in index order.
pub open spec fn unit_ids(fs: Seq<UnitFn>) -> Seq<FnId> {
    fs.map_values(|f: UnitFn| f.id)
}

/// The strings that the chunks of `fs` ask for, function by function.
pub open spec fn unit_table(fs: Seq<UnitFn>, unit: Seq<FnId>) -> Seq<Seq<char>>
    decreases fs.len(),
{
    if fs.len() == 0 {
        Seq::empty()
    } else {
        let t = unit_table(fs.drop_last(), unit);
        match outcome(fs.last(), unit) {
            Outcome::Refused => t,
            Outcome::Carried(c) => add_strs(t, chunk_strs(c, unit)),
            Outcome::NotCarried(c) => add_strs(t, chunk_strs(c, unit)),
        }
    }
}

/// A section's entries: function indices, each with its chunk or (`None`) a refusal.
pub open spec fn unit_entries(fs: Seq<UnitFn>, unit: Seq<FnId>) -> Seq<(int, Option<ChunkView>)>
    decreases fs.len(),
{
    if fs.len() == 0 {
        Seq::empty()
    } else {
        let es = unit_entries(fs.drop_last(), unit);
        match outcome(fs.last(), unit) {
            Outcome::Refused => es.push((fs.len() - 1, None)),
            Outcome::Carried(c) => es.push((fs.len() - 1, Some(c))),
            Outcome::NotCarried(c) => es,
        }
    }
}

/// What building the section of `fs` does.
pub open spec fn unit_stats(fs: Seq<UnitFn>, unit: Seq<FnId>) -> (int, int, int)
    decreases fs.len(),
{
    if fs.len() == 0 {
        (0, 0, 0)
    } else {
        let (chunks, refused, not_carried) = unit_stats(fs.drop_last(), unit);
        match outcome(fs.last(), unit) {
            Outcome::Refused => (chunks, refused + 1, not_carried),
            Outcome::Carried(c) => (chunks + 1, refused, not_carried),
            Outcome::NotCarried(c) => (chunks, refused, not_carried + 1),
        }
    }
}

// ---- bytes ----------------------------------------------------------------------------------

/// The strings of a table, each as its UTF-8 length and bytes.
pub open spec fn table_body_bytes(table: Seq<Seq<char>>) -> Seq<u8>
    decreases table.len(),
{
    if table.len() == 0 {
        Seq::empty()
    } else {
        let b = encode_utf8(table.last());
        table_body_bytes(table.drop_last()) + (uv_bytes(b.len()) + b)
    }
}

pub open spec fn table_bytes(table: Seq<Seq<char>>) -> Seq<u8> {
    uv_bytes(table.len()) + table_body_bytes(table)
}

/// An entry for function `i` that follows one for function `prev` (0 for the first): a refusal,
/// or the bytes of a chunk.
pub open spec fn raw_entry_bytes(prev: int, i: int, b: Option<Seq<u8>>) -> Seq<u8> {
    uv_bytes((i - prev) as nat) + match b {
        None => seq![0u8],
        Some(b) => seq![1u8] + uv_bytes(b.len()) + b,
    }
}

pub open spec fn entry_bytes(
    prev: int,
    e: (int, Option<ChunkView>),
    unit: Seq<FnId>,
    table: Seq<Seq<char>>,
) -> Seq<u8> {
    raw_entry_bytes(
        prev,
        e.0,
        match e.1 {
            None => None,
            Some(c) => Some(chunk_bytes(c, unit, table)),
        },
    )
}

pub open spec fn last_index(es: Seq<(int, Option<ChunkView>)>) -> int {
    if es.len() == 0 {
        0
    } else {
        es.last().0
    }
}

pub open spec fn entries_bytes(
    es: Seq<(int, Option<ChunkView>)>,
    unit: Seq<FnId>,
    table: Seq<Seq<char>>,
) -> Seq<u8>
    decreases es.len(),
{
    if es.len() == 0 {
        Seq::empty()
    } else {
        entries_bytes(es.drop_last(), unit, table) + entry_bytes(
            last_index(es.drop_last()),
            es.last(),
            unit,
            table,
        )
    }
}

/// The section of a unit with `n` functions.
pub open spec fn section_bytes(
    n: nat,
    es: Seq<(int, Option<ChunkView>)>,
    unit: Seq<FnId>,
    table: Seq<Seq<char>>,
) -> Seq<u8> {
    uv_bytes(n) + table_bytes(table) + uv_bytes(es.len()) + entries_bytes(es, unit, table)
}

// ---- reading --------------------------------------------------------------------------------

/// Reading a counted byte string.
pub open spec fn raw_at(s: Seq<u8>, pos: int) -> Read<Seq<u8>> {
    match count_at(s, pos) {
        Err(e) => Err(e),
        Ok((n, p)) => bytes_at(s, p, n as int),
    }
}

/// Where `n` counted byte strings end.
pub open spec fn raws_end(s: Seq<u8>, pos: int, n: nat) -> Read<()>
    decreases n,
{
    if n == 0 {
        Ok(((), pos))
    } else {
        match raws_end(s, pos, (n - 1) as nat) {
            Err(e) => Err(e),
            Ok((_, p)) => match raw_at(s, p) {
                Err(e) => Err(e),
                Ok((_, end)) => Ok(((), end)),
            },
        }
    }
}

/// Reading `n` strings.
pub open spec fn texts_at(s: Seq<u8>, pos: int, n: nat) -> Read<Seq<Seq<char>>>
    decreases n,
{
    if n == 0 {
        Ok((Seq::empty(), pos))
    } else {
        match texts_at(s, pos, (n - 1) as nat) {
            Err(e) => Err(e),
            Ok((ts, p)) => match raw_at(s, p) {
                Err(e) => Err(e),
                Ok((b, end)) => if valid_utf8(b) {
                    Ok((ts.push(decode_utf8(b)), end))
                } else {
                    Err(DecodeError::BadUtf8)
                },
            },
        }
    }
}

/// Reading a string table.
pub open spec fn table_at(s: Seq<u8>, pos: int) -> Read<Seq<Seq<char>>> {
    match count_at(s, pos) {
        Err(e) => Err(e),
        Ok((n, p)) => texts_at(s, p, n as nat),
    }
}

/// An entry as it stands in a section: the function index, and the chunk's byte range.
pub type EntryAt = (int, Option<(int, int)>);

/// Reading an entry of a unit of `fn_count` functions that follows one for function `prev`.
pub open spec fn entry_at(s: Seq<u8>, pos: int, prev: Option<int>, fn_count: int) -> Read<EntryAt> {
    match uv_at(s, pos) {
        Err(e) => Err(e),
        Ok((delta, p)) => {
            let idx = match prev {
                None => delta as int,
                Some(i) => i + delta,
            };
            if prev is Some && (delta == 0 || idx > u64::MAX) {
                Err(DecodeError::BadEntryOrder)
            } else if idx >= fn_count {
                Err(DecodeError::BadFunction)
            } else {
                match u8_at(s, p) {
                    Err(e) => Err(e),
                    Ok((kind, p)) => match kind {
                        0 => Ok(((idx, None), p)),
                        1 => match count_at(s, p) {
                            Err(e) => Err(e),
                            Ok((len, p)) => Ok(((idx, Some((p, p + len))), p + len)),
                        },
                        _ => Err(DecodeError::BadEntryKind(kind)),
                    },
                }
            }
        },
    }
}

pub open spec fn entries_at(s: Seq<u8>, pos: int, n: nat, fn_count: int) -> Read<Seq<EntryAt>>
    decreases n,
{
    if n == 0 {
        Ok((Seq::empty(), pos))
    } else {
        match entries_at(s, pos, (n - 1) as nat, fn_count) {
            Err(e) => Err(e),
            Ok((es, p)) => match entry_at(
                s,
                p,
                if es.len() == 0 {
                    None
                } else {
                    Some(es.last().0)
                },
                fn_count,
            ) {
                Err(e) => Err(e),
                Ok((e, end)) => Ok((es.push(e), end)),
            },
        }
    }
}

/// A parsed section: where its string table stands, and its entries.
pub struct SectionView {
    pub strings: (int, int),
    pub entries: Seq<EntryAt>,
}

/// Scanning a section of a unit of `fn_count` functions, up to where its entries end.
pub open spec fn section_scan(s: Seq<u8>, fn_count: int) -> Read<SectionView> {
    match uv_at(s, 0) {
        Err(e) => Err(e),
        Ok((n, start)) => if n != fn_count {
            Err(DecodeError::FunctionCount)
        } else {
            match count_at(s, start) {
                Err(e) => Err(e),
                Ok((n, p)) => match raws_end(s, p, n as nat) {
                    Err(e) => Err(e),
                    Ok((_, end)) => match count_at(s, end) {
                        Err(e) => Err(e),
                        Ok((n, p)) => match entries_at(s, p, n as nat, fn_count) {
                            Err(e) => Err(e),
                            Ok((entries, last)) => Ok(
                                (SectionView { strings: (start, end), entries }, last),
                            ),
                        },
                    },
                },
            }
        },
    }
}

/// Reading a section: nothing may follow the entries.
pub open spec fn section_at(s: Seq<u8>, fn_count: int) -> Result<SectionView, DecodeError> {
    match section_scan(s, fn_count) {
        Err(e) => Err(e),
        Ok((v, end)) => if end == s.len() {
            Ok(v)
        } else {
            Err(DecodeError::TrailingSection)
        },
    }
}

// ---- building a section ---------------------------------------------------------------------

/// Whether the function's body opens with the [`RUN_ONCE`] directive.
pub fn is_run_once(f: &UnitFn) -> (r: bool)
    ensures
        r == run_once(*f),
{
    match &f.body {
        Some(b) => has_directive(b, RUN_ONCE),
        None => false,
    }
}

/// `built` holds the entries `es`, their chunks encoded against `table`.
spec fn entries_match(
    built: Seq<(usize, Option<Vec<u8>>)>,
    es: Seq<(int, Option<ChunkView>)>,
    unit: Seq<FnId>,
    table: Seq<Seq<char>>,
) -> bool {
    &&& built.len() == es.len()
    &&& forall|k: int|
        0 <= k < es.len() ==> {
            &&& (#[trigger] built[k]).0 == es[k].0
            &&& match (built[k].1, es[k].1) {
                (None, None) => true,
                (Some(b), Some(c)) => chunk_carried(c, unit) && all_in(chunk_strs(c, unit), table)
                    && b@ == chunk_bytes(c, unit, table),
                _ => false,
            }
        }
}

proof fn lemma_entries_match_continues(
    built: Seq<(usize, Option<Vec<u8>>)>,
    es: Seq<(int, Option<ChunkView>)>,
    unit: Seq<FnId>,
    a: Seq<Seq<char>>,
    b: Seq<Seq<char>>,
)
    requires
        entries_match(built, es, unit, a),
        continues(a, b),
        b.no_duplicates(),
    ensures
        entries_match(built, es, unit, b),
{
    assert forall|k: int| 0 <= k < es.len() implies {
        &&& (#[trigger] built[k]).0 == es[k].0
        &&& match (built[k].1, es[k].1) {
            (None, None) => true,
            (Some(x), Some(c)) => chunk_carried(c, unit) && all_in(chunk_strs(c, unit), b) && x@
                == chunk_bytes(c, unit, b),
            _ => false,
        }
    } by {
        if let Some(c) = es[k].1 {
            lemma_all_in_continues(chunk_strs(c, unit), a, b);
            lemma_chunk_stable(c, unit, a, b);
        }
    }
}

/// Entries ascend and stay below the number of functions.
pub open spec fn ascending(es: Seq<(int, Option<ChunkView>)>, n: int) -> bool {
    &&& forall|k: int| 0 <= k < es.len() ==> 0 <= (#[trigger] es[k]).0 < n
    &&& forall|j: int, k: int| 0 <= j < k < es.len() ==> (#[trigger] es[j]).0 < (#[trigger] es[k]).0
}

proof fn lemma_unit_entries_ascend(fs: Seq<UnitFn>, unit: Seq<FnId>)
    ensures
        ascending(unit_entries(fs, unit), fs.len() as int),
        unit_entries(fs, unit).len() <= fs.len(),
    decreases fs.len(),
{
    if fs.len() > 0 {
        lemma_unit_entries_ascend(fs.drop_last(), unit);
    }
}

proof fn lemma_unit_table(fs: Seq<UnitFn>, unit: Seq<FnId>)
    ensures
        unit_table(fs, unit).no_duplicates(),
    decreases fs.len(),
{
    if fs.len() > 0 {
        lemma_unit_table(fs.drop_last(), unit);
        let t = unit_table(fs.drop_last(), unit);
        match outcome(fs.last(), unit) {
            Outcome::Refused => {},
            Outcome::Carried(c) => {
                lemma_add_strs(t, chunk_strs(c, unit));
            },
            Outcome::NotCarried(c) => {
                lemma_add_strs(t, chunk_strs(c, unit));
            },
        }
    }
}

/// Appends bytes.
fn push_bytes(out: &mut Vec<u8>, b: &[u8])
    ensures
        final(out)@ == old(out)@ + b@,
{
    let ghost o0 = out@;
    let mut i: usize = 0;
    assert(o0 =~= o0 + b@.take(0));
    while i < b.len()
        invariant
            i <= b@.len(),
            out@ == o0 + b@.take(i as int),
        decreases b@.len() - i,
    {
        out.push(b[i]);
        i = i + 1;
        assert(out@ =~= o0 + b@.take(i as int));
    }
    assert(b@.take(i as int) =~= b@);
}

fn write_table(out: &mut Vec<u8>, strings: &Strings)
    ensures
        final(out)@ == old(out)@ + table_bytes(strings@),
{
    let ghost o0 = out@;
    let ghost t = strings@;
    uv(out, strings.list.len() as u64);
    let ghost o1 = out@;
    let mut i: usize = 0;
    assert(t.take(0) =~= Seq::empty());
    assert(o1 + Seq::<u8>::empty() =~= o1);
    while i < strings.list.len()
        invariant
            i <= strings.list.len(),
            t == strings@,
            t.len() == strings.list.len(),
            out@ == o1 + table_body_bytes(t.take(i as int)),
        decreases strings.list.len() - i,
    {
        let b: &[u8] = strings.list[i].as_str().as_bytes();
        proof {
            assert(t.take(i + 1).drop_last() =~= t.take(i as int));
            assert(t.take(i + 1).last() == t[i as int]);
            assert(b@ == encode_utf8(t[i as int]));
        }
        let ghost o2 = out@;
        uv(out, b.len() as u64);
        push_bytes(out, b);
        assert(out@ =~= o2 + (uv_bytes(b@.len()) + b@));
        i = i + 1;
        assert(out@ =~= o1 + table_body_bytes(t.take(i as int)));
    }
    assert(t.take(i as int) =~= t);
    assert(out@ =~= o0 + table_bytes(t));
}

fn write_entry(out: &mut Vec<u8>, prev: usize, i: usize, chunk: &Option<Vec<u8>>)
    requires
        prev <= i,
    ensures
        final(out)@ == old(out)@ + raw_entry_bytes(
            prev as int,
            i as int,
            match *chunk {
                None => None,
                Some(b) => Some(b@),
            },
        ),
{
    let ghost o0 = out@;
    let ghost d = uv_bytes((i - prev) as nat);
    uv(out, (i - prev) as u64);
    match chunk {
        None => {
            out.push(0);
            assert(out@ =~= o0 + (d + seq![0u8]));
        },
        Some(b) => {
            out.push(1);
            uv(out, b.len() as u64);
            assert(out@ =~= o0 + (d + (seq![1u8] + uv_bytes(b@.len()))));
            push_bytes(out, b.as_slice());
            assert(out@ =~= o0 + (d + (seq![1u8] + uv_bytes(b@.len()) + b@)));
        },
    }
}

fn write_entries(
    out: &mut Vec<u8>,
    built: &Vec<(usize, Option<Vec<u8>>)>,
    Ghost(es): Ghost<Seq<(int, Option<ChunkView>)>>,
    Ghost(unit): Ghost<Seq<FnId>>,
    Ghost(table): Ghost<Seq<Seq<char>>>,
)
    requires
        entries_match(built@, es, unit, table),
        forall|j: int, k: int| 0 <= j < k < es.len() ==> (#[trigger] es[j]).0 < (#[trigger] es[k]).0,
    ensures
        final(out)@ == old(out)@ + entries_bytes(es, unit, table),
{
    let ghost o0 = out@;
    let mut prev: usize = 0;
    let mut i: usize = 0;
    assert(es.take(0) =~= Seq::empty());
    assert(o0 + Seq::<u8>::empty() =~= o0);
    while i < built.len()
        invariant
            i <= built.len(),
            entries_match(built@, es, unit, table),
            forall|j: int, k: int|
                0 <= j < k < es.len() ==> (#[trigger] es[j]).0 < (#[trigger] es[k]).0,
            prev == last_index(es.take(i as int)),
            out@ == o0 + entries_bytes(es.take(i as int), unit, table),
        decreases built.len() - i,
    {
        let ghost ys = es.take(i as int);
        let ghost zs = es.take(i + 1);
        proof {
            assert(zs.drop_last() =~= ys);
            assert(zs.last() == es[i as int]);
            assert(built[i as int].0 == es[i as int].0);
            if i > 0 {
                assert(ys.last() == es[i - 1]);
                assert(es[i - 1].0 < es[i as int].0);
            }
        }
        write_entry(out, prev, built[i].0, &built[i].1);
        prev = built[i].0;
        i = i + 1;
        assert(out@ =~= o0 + entries_bytes(zs, unit, table));
    }
    assert(es.take(i as int) =~= es);
}

/// The identities of the unit's functions.
fn ids(funcs: &Vec<UnitFn>) -> (r: Vec<FnId>)
    ensures
        r@ == unit_ids(funcs@),
{
    let mut r: Vec<FnId> = Vec::new();
    let mut i: usize = 0;
    while i < funcs.len()
        invariant
            i <= funcs.len(),
            r@ =~= unit_ids(funcs@.take(i as int)),
        decreases funcs.len() - i,
    {
        r.push(funcs[i].id);
        i = i + 1;
    }
    assert(funcs@.take(i as int) =~= funcs@);
    r
}

/// Encodes the chunks of a unit's functions (in function-index order).
pub fn encode_unit(funcs: &Vec<UnitFn>) -> (r: (Vec<u8>, SectionStats))
    ensures
        r.0@ == section_bytes(
            funcs.len() as nat,
            unit_entries(funcs@, unit_ids(funcs@)),
            unit_ids(funcs@),
            unit_table(funcs@, unit_ids(funcs@)),
        ),
        r.1.functions == funcs.len(),
        (r.1.chunks as int, r.1.refused as int, r.1.unserializable as int) == unit_stats(
            funcs@,
            unit_ids(funcs@),
        ),
{
    let unit: UnitIndex = UnitIndex::new(&ids(funcs));
    let ghost fs = funcs@;
    let ghost u = unit@;
    let mut strings: Strings = Strings::new();
    let mut chunks: usize = 0;
    let mut refused: usize = 0;
    let mut unserializable: usize = 0;
    let mut entries: Vec<(usize, Option<Vec<u8>>)> = Vec::new();
    let mut i: usize = 0;
    assert(fs.take(0) =~= Seq::empty());
    while i < funcs.len()
        invariant
            i <= funcs.len(),
            fs == funcs@,
            u == unit@,
            strings.wf(),
            strings@ == unit_table(fs.take(i as int), u),
            (chunks as int, refused as int, unserializable as int) == unit_stats(
                fs.take(i as int),
                u,
            ),
            chunks + refused + unserializable == i,
            entries_match(entries@, unit_entries(fs.take(i as int), u), u, strings@),
        decreases funcs.len() - i,
    {
        let ghost es = unit_entries(fs.take(i as int), u);
        let ghost before = strings@;
        let ghost built = entries@;
        proof {
            assert(fs.take(i + 1).drop_last() =~= fs.take(i as int));
            assert(fs.take(i + 1).last() == fs[i as int]);
        }
        let f: &UnitFn = &funcs[i];
        let compiled: Option<&Chunk> = if is_run_once(f) {
            None
        } else {
            f.compiled.as_ref()
        };
        match compiled {
            None => {
                refused = refused + 1;
                entries.push((i, None));
            },
            Some(chunk) => {
                let ghost c = chunk.deep_view();
                proof {
                    lemma_add_strs(before, chunk_strs(c, u));
                }
                let res: Result<Vec<u8>, EncodeError> = enc_chunk(&mut strings, &unit, chunk);
                proof {
                    lemma_entries_match_continues(built, es, u, before, strings@);
                }
                match res {
                    Ok(b) => {
                        chunks = chunks + 1;
                        entries.push((i, Some(b)));
                    },
                    Err(_) => {
                        unserializable = unserializable + 1;
                    },
                }
            },
        }
        i = i + 1;
    }
    proof {
        assert(fs.take(i as int) =~= fs);
        lemma_unit_entries_ascend(fs, u);
    }
    let mut out: Vec<u8> = Vec::new();
    uv(&mut out, funcs.len() as u64);
    write_table(&mut out, &strings);
    uv(&mut out, entries.len() as u64);
    write_entries(&mut out, &entries, Ghost(unit_entries(fs, u)), Ghost(u), Ghost(strings@));
    proof {
        let es = unit_entries(fs, u);
        assert(out@ =~= section_bytes(fs.len(), es, u, strings@));
    }
    (out, SectionStats { functions: funcs.len(), chunks, refused, unserializable })
}

// ---- reading a section ----------------------------------------------------------------------

/// A parsed section: where its string table stands, and its entries.
pub struct Section {
    pub strings: (usize, usize),
    pub entries: Vec<(usize, Option<(usize, usize)>)>,
}

pub open spec fn entry_view(e: (usize, Option<(usize, usize)>)) -> EntryAt {
    (
        e.0 as int,
        match e.1 {
            None => None,
            Some((a, b)) => Some((a as int, b as int)),
        },
    )
}

impl View for Section {
    type V = SectionView;

    open spec fn view(&self) -> SectionView {
        SectionView {
            strings: (self.strings.0 as int, self.strings.1 as int),
            entries: self.entries@.map_values(|e| entry_view(e)),
        }
    }
}

fn read_raw<'a>(r: &mut Rd<'a>) -> (res: Result<&'a [u8], DecodeError>)
    requires
        old(r).wf(),
    ensures
        final(r).b@ == old(r).b@,
        final(r).wf(),
        match (res, raw_at(old(r).b@, old(r).pos as int)) {
            (Ok(v), Ok((w, end))) => v@ == w && final(r).pos == end,
            (Err(e), Err(f)) => e == f,
            _ => false,
        },
{
    let n: usize = r.len()?;
    r.bytes(n)
}

proof fn lemma_raws_end_fails(s: Seq<u8>, pos: int, m: nat, n: nat, e: DecodeError)
    requires
        m <= n,
        raws_end(s, pos, m) == Err::<((), int), DecodeError>(e),
    ensures
        raws_end(s, pos, n) == Err::<((), int), DecodeError>(e),
    decreases n,
{
    if m < n {
        lemma_raws_end_fails(s, pos, m, (n - 1) as nat, e);
    }
}

proof fn lemma_texts_at_fails(s: Seq<u8>, pos: int, m: nat, n: nat, e: DecodeError)
    requires
        m <= n,
        texts_at(s, pos, m) == Err::<(Seq<Seq<char>>, int), DecodeError>(e),
    ensures
        texts_at(s, pos, n) == Err::<(Seq<Seq<char>>, int), DecodeError>(e),
    decreases n,
{
    if m < n {
        lemma_texts_at_fails(s, pos, m, (n - 1) as nat, e);
    }
}

proof fn lemma_entries_at_fails(
    s: Seq<u8>,
    pos: int,
    m: nat,
    n: nat,
    fn_count: int,
    e: DecodeError,
)
    requires
        m <= n,
        entries_at(s, pos, m, fn_count) == Err::<(Seq<EntryAt>, int), DecodeError>(e),
    ensures
        entries_at(s, pos, n, fn_count) == Err::<(Seq<EntryAt>, int), DecodeError>(e),
    decreases n,
{
    if m < n {
        lemma_entries_at_fails(s, pos, m, (n - 1) as nat, fn_count, e);
    }
}

/// Parses a string table.
pub fn parse_strings(table: &[u8]) -> (res: Result<Vec<String>, DecodeError>)
    ensures
        match (res, table_at(table@, 0)) {
            (Ok(v), Ok((w, _))) => v.deep_view() == w,
            (Err(e), Err(f)) => e == f,
            _ => false,
        },
{
    let mut r: Rd = Rd::new(table);
    let ghost s = table@;
    let n: usize = r.len()?;
    let ghost start = r.pos as int;
    let mut out: Vec<String> = Vec::new();
    let mut i: usize = 0;
    assert(out.deep_view() =~= Seq::empty());
    while i < n
        invariant
            i <= n,
            s == table@,
            r.b@ == s,
            r.wf(),
            count_at(s, 0) == Ok::<(u64, int), DecodeError>((n as u64, start)),
            texts_at(s, start, i as nat) == Ok::<(Seq<Seq<char>>, int), DecodeError>(
                (out.deep_view(), r.pos as int),
            ),
        decreases n - i,
    {
        let raw: Result<&[u8], DecodeError> = read_raw(&mut r);
        match raw {
            Err(e) => {
                proof {
                    lemma_texts_at_fails(s, start, i as nat + 1, n as nat, e);
                }
                return Err(e);
            },
            Ok(b) => match crate::text::from_utf8(vstd::slice::slice_to_vec(b)) {
                None => {
                    proof {
                        lemma_texts_at_fails(
                            s,
                            start,
                            i as nat + 1,
                            n as nat,
                            DecodeError::BadUtf8,
                        );
                    }
                    return Err(DecodeError::BadUtf8);
                },
                Some(t) => {
                    let ghost before = out.deep_view();
                    out.push(t);
                    assert(out.deep_view() =~= before.push(t@));
                },
            },
        }
        i = i + 1;
    }
    Ok(out)
}

fn skip_raws(r: &mut Rd, n: usize) -> (res: Result<(), DecodeError>)
    requires
        old(r).wf(),
    ensures
        final(r).moved(old(r), res, raws_end(old(r).b@, old(r).pos as int, n as nat)),
{
    let ghost s = r.b@;
    let ghost start = r.pos as int;
    let mut i: usize = 0;
    while i < n
        invariant
            i <= n,
            r.b@ == s,
            r.wf(),
            raws_end(s, start, i as nat) == Ok::<((), int), DecodeError>(((), r.pos as int)),
            s == old(r).b@,
            start == old(r).pos,
        decreases n - i,
    {
        let raw: Result<&[u8], DecodeError> = read_raw(r);
        if let Err(e) = raw {
            proof {
                lemma_raws_end_fails(s, start, i as nat + 1, n as nat, e);
            }
            return Err(e);
        }
        i = i + 1;
    }
    Ok(())
}

fn read_entry(r: &mut Rd, prev: Option<usize>, fn_count: usize) -> (res: Result<
    (usize, Option<(usize, usize)>),
    DecodeError,
>)
    requires
        old(r).wf(),
    ensures
        final(r).b@ == old(r).b@,
        final(r).wf(),
        match (
            res,
            entry_at(
                old(r).b@,
                old(r).pos as int,
                match prev {
                    None => None,
                    Some(p) => Some(p as int),
                },
                fn_count as int,
            ),
        ) {
            (Ok(v), Ok((w, end))) => entry_view(v) == w && final(r).pos == end,
            (Err(e), Err(f)) => e == f,
            _ => false,
        },
{
    let delta: u64 = r.uv()?;
    let idx: u64 = match prev {
        None => delta,
        Some(p) => match (p as u64).checked_add(delta) {
            Some(i) => if delta > 0 {
                i
            } else {
                return Err(DecodeError::BadEntryOrder);
            },
            None => {
                return Err(DecodeError::BadEntryOrder);
            },
        },
    };
    if idx >= fn_count as u64 {
        return Err(DecodeError::BadFunction);
    }
    let kind: u8 = r.u8()?;
    match kind {
        0 => Ok((idx as usize, None)),
        1 => {
            let len: usize = r.len()?;
            let start: usize = r.pos;
            let _b: &[u8] = r.bytes(len)?;
            Ok((idx as usize, Some((start, start + len))))
        },
        _ => Err(DecodeError::BadEntryKind(kind)),
    }
}

/// Parses the section of a unit of `fn_count` functions.
pub fn parse_section(section: &[u8], fn_count: usize) -> (res: Result<Section, DecodeError>)
    ensures
        match (res, section_at(section@, fn_count as int)) {
            (Ok(v), Ok(w)) => v@ == w,
            (Err(e), Err(f)) => e == f,
            _ => false,
        },
{
    let mut r: Rd = Rd::new(section);
    let ghost s = section@;
    let count: u64 = r.uv()?;
    if count != fn_count as u64 {
        return Err(DecodeError::FunctionCount);
    }
    let strings_start: usize = r.pos;
    let n: usize = r.len()?;
    skip_raws(&mut r, n)?;
    let strings_end: usize = r.pos;
    let n: usize = r.len()?;
    let ghost start = r.pos as int;
    let mut entries: Vec<(usize, Option<(usize, usize)>)> = Vec::new();
    let mut i: usize = 0;
    let ghost f = |e: (usize, Option<(usize, usize)>)| entry_view(e);
    assert(entries@.map_values(f) =~= Seq::<EntryAt>::empty());
    while i < n
        invariant
            i <= n,
            s == section@,
            r.b@ == s,
            r.wf(),
            f == (|e: (usize, Option<(usize, usize)>)| entry_view(e)),
            entries.len() == i,
            entries_at(s, start, i as nat, fn_count as int) == Ok::<
                (Seq<EntryAt>, int),
                DecodeError,
            >((entries@.map_values(f), r.pos as int)),
            section_scan(s, fn_count as int) == (match entries_at(
                s,
                start,
                n as nat,
                fn_count as int,
            ) {
                Err(e) => Err(e),
                Ok((es, last)) => Ok::<(SectionView, int), DecodeError>(
                    (
                        SectionView {
                            strings: (strings_start as int, strings_end as int),
                            entries: es,
                        },
                        last,
                    ),
                ),
            }),
        decreases n - i,
    {
        let ghost before = entries@.map_values(f);
        let prev: Option<usize> = if i == 0 {
            None
        } else {
            Some(entries[i - 1].0)
        };
        proof {
            if i > 0 {
                assert(before.last() == entry_view(entries@[i - 1]));
            }
        }
        match read_entry(&mut r, prev, fn_count) {
            Err(e) => {
                proof {
                    lemma_entries_at_fails(
                        s,
                        start,
                        i as nat + 1,
                        n as nat,
                        fn_count as int,
                        e,
                    );
                }
                return Err(e);
            },
            Ok(e) => {
                entries.push(e);
                assert(entries@.map_values(f) =~= before.push(entry_view(e)));
            },
        }
        i = i + 1;
    }
    if r.pos != section.len() {
        return Err(DecodeError::TrailingSection);
    }
    Ok(Section { strings: (strings_start, strings_end), entries })
}

/// Decoding the chunk that `s` holds: nothing may follow it.
pub open spec fn whole_chunk_at(s: Seq<u8>, t: TablesView) -> Result<ChunkView, DecodeError> {
    match chunk_at(s, 0, t) {
        Err(e) => Err(e),
        Ok((c, end)) => if end == s.len() {
            Ok(c)
        } else {
            Err(DecodeError::TrailingChunk)
        },
    }
}

/// Decodes a chunk from exactly its bytes.
pub fn dec_chunk_at(bytes: &[u8], t: &Tables) -> (res: Result<Chunk, DecodeError>)
    ensures
        match (res, whole_chunk_at(bytes@, t@)) {
            (Ok(v), Ok(w)) => v.deep_view() == w,
            (Err(e), Err(f)) => e == f,
            _ => false,
        },
{
    let mut r: Rd = Rd::new(bytes);
    let chunk: Chunk = dec_chunk(&mut r, t)?;
    if r.pos != bytes.len() {
        return Err(DecodeError::TrailingChunk);
    }
    Ok(chunk)
}

} // verus!
