//! What holds of sections as a whole: what is written reads back, and no proper prefix of a
//! section is one.

use super::chunk::{Chunk, ChunkView, FnId};
use super::chunk_codec::{
    chunk_bytes, chunk_canonical, chunk_carried, chunk_sized, chunk_strs, decodable, lemma_chunk_reads_back,
};
use super::list_codec::{tables_match, TablesView};
use super::section::{
    ascending, entries_at, entries_bytes, entry_at, entry_bytes, last_index, outcome,
    raw_entry_bytes, raws_end, section_at, section_bytes, section_scan, table_at, table_body_bytes,
    table_bytes, texts_at, unit_entries, unit_ids, unit_table, whole_chunk_at, EntryAt, Outcome,
    SectionView, UnitFn,
};
use super::strings::{all_in, lemma_add_strs, lemma_all_in_continues, lemma_continues_refl};
use super::wire::{
    count_at, has_at, lemma_count_extends, lemma_count_reads_back, lemma_has_at_split,
    lemma_u8_reads_back, lemma_uv_bytes_len, lemma_uv_extends, lemma_uv_reads_back,
    lemma_uv_rest_bounds, uv_at, uv_bytes, DecodeError,
};
use vstd::prelude::*;
use vstd::utf8::{encode_utf8, encode_utf8_decode_utf8, encode_utf8_valid_utf8};

verus! {

// ---- reading back ---------------------------------------------------------------------------

proof fn lemma_table_body_len(table: Seq<Seq<char>>)
    ensures
        table_body_bytes(table).len() >= table.len(),
    decreases table.len(),
{
    if table.len() > 0 {
        lemma_table_body_len(table.drop_last());
        lemma_uv_bytes_len(encode_utf8(table.last()).len());
    }
}

proof fn lemma_texts_read_back(s: Seq<u8>, pos: int, table: Seq<Seq<char>>)
    requires
        has_at(s, pos, table_body_bytes(table)),
        s.len() <= u64::MAX,
    ensures
        texts_at(s, pos, table.len()) == Ok::<(Seq<Seq<char>>, int), DecodeError>(
            (table, pos + table_body_bytes(table).len()),
        ),
        raws_end(s, pos, table.len()) == Ok::<((), int), DecodeError>(
            ((), pos + table_body_bytes(table).len()),
        ),
    decreases table.len(),
{
    if table.len() > 0 {
        let init = table.drop_last();
        let b = encode_utf8(table.last());
        let head = table_body_bytes(init);
        lemma_has_at_split(s, pos, head, uv_bytes(b.len()) + b);
        lemma_has_at_split(s, pos + head.len(), uv_bytes(b.len()), b);
        lemma_texts_read_back(s, pos, init);
        lemma_count_reads_back(s, pos + head.len(), b.len() as u64);
        encode_utf8_valid_utf8(table.last());
        encode_utf8_decode_utf8(table.last());
        assert(init.push(table.last()) =~= table);
    } else {
        assert(table =~= Seq::empty());
    }
}

proof fn lemma_table_reads_back(s: Seq<u8>, pos: int, table: Seq<Seq<char>>)
    requires
        has_at(s, pos, table_bytes(table)),
        s.len() <= u64::MAX,
    ensures
        table_at(s, pos) == Ok::<(Seq<Seq<char>>, int), DecodeError>(
            (table, pos + table_bytes(table).len()),
        ),
        count_at(s, pos) == Ok::<(u64, int), DecodeError>(
            (table.len() as u64, pos + uv_bytes(table.len()).len()),
        ),
        raws_end(s, pos + uv_bytes(table.len()).len(), table.len()) == Ok::<
            ((), int),
            DecodeError,
        >(((), pos + table_bytes(table).len())),
{
    lemma_has_at_split(s, pos, uv_bytes(table.len()), table_body_bytes(table));
    lemma_table_body_len(table);
    lemma_count_reads_back(s, pos, table.len() as u64);
    lemma_texts_read_back(s, pos + uv_bytes(table.len()).len(), table);
}

/// `got` is what reading the entries `es` gives: the same functions, and at each chunk's range
/// the chunk's bytes.
pub open spec fn entries_stand(
    s: Seq<u8>,
    got: Seq<EntryAt>,
    es: Seq<(int, Option<ChunkView>)>,
    unit: Seq<FnId>,
    table: Seq<Seq<char>>,
) -> bool {
    &&& got.len() == es.len()
    &&& forall|k: int|
        0 <= k < es.len() ==> {
            &&& (#[trigger] got[k]).0 == es[k].0
            &&& match (got[k].1, es[k].1) {
                (None, None) => true,
                (Some((a, b)), Some(c)) => 0 <= a <= b <= s.len() && s.subrange(a, b)
                    == chunk_bytes(c, unit, table),
                _ => false,
            }
        }
}

proof fn lemma_entries_len(
    es: Seq<(int, Option<ChunkView>)>,
    unit: Seq<FnId>,
    table: Seq<Seq<char>>,
)
    ensures
        entries_bytes(es, unit, table).len() >= es.len(),
    decreases es.len(),
{
    if es.len() > 0 {
        lemma_entries_len(es.drop_last(), unit, table);
        lemma_uv_bytes_len((es.last().0 - last_index(es.drop_last())) as nat);
    }
}

proof fn lemma_entry_reads_back(
    s: Seq<u8>,
    pos: int,
    prev: Option<int>,
    i: int,
    chunk: Option<Seq<u8>>,
    n: int,
)
    requires
        s.len() <= u64::MAX,
        0 <= i < n <= u64::MAX,
        prev matches Some(p) ==> 0 <= p < i,
        has_at(
            s,
            pos,
            raw_entry_bytes(
                match prev {
                    Some(p) => p,
                    None => 0,
                },
                i,
                chunk,
            ),
        ),
    ensures
        entry_at(s, pos, prev, n) matches Ok((e, end)) && {
            &&& end == pos + raw_entry_bytes(
                match prev {
                    Some(p) => p,
                    None => 0,
                },
                i,
                chunk,
            ).len()
            &&& e.0 == i
            &&& match (e.1, chunk) {
                (None, None) => true,
                (Some((a, b)), Some(c)) => 0 <= a <= b <= s.len() && s.subrange(a, b) == c,
                _ => false,
            }
        },
{
    let p = match prev {
        Some(p) => p,
        None => 0,
    };
    let d = uv_bytes((i - p) as nat);
    match chunk {
        None => {
            lemma_has_at_split(s, pos, d, seq![0u8]);
            lemma_uv_reads_back(s, pos, (i - p) as u64);
            lemma_u8_reads_back(s, pos + d.len(), 0);
        },
        Some(c) => {
            let l = uv_bytes(c.len());
            lemma_has_at_split(s, pos, d, seq![1u8] + l + c);
            lemma_has_at_split(s, pos + d.len(), seq![1u8] + l, c);
            lemma_has_at_split(s, pos + d.len(), seq![1u8], l);
            lemma_uv_reads_back(s, pos, (i - p) as u64);
            lemma_u8_reads_back(s, pos + d.len(), 1);
            lemma_count_reads_back(s, pos + d.len() + 1, c.len() as u64);
        },
    }
}

proof fn lemma_entries_read_back(
    s: Seq<u8>,
    pos: int,
    es: Seq<(int, Option<ChunkView>)>,
    unit: Seq<FnId>,
    table: Seq<Seq<char>>,
    n: int,
)
    requires
        s.len() <= u64::MAX,
        n <= u64::MAX,
        ascending(es, n),
        has_at(s, pos, entries_bytes(es, unit, table)),
    ensures
        entries_at(s, pos, es.len(), n) matches Ok((got, end)) && end == pos + entries_bytes(
            es,
            unit,
            table,
        ).len() && entries_stand(s, got, es, unit, table),
    decreases es.len(),
{
    if es.len() > 0 {
        let init = es.drop_last();
        let prev = if init.len() == 0 {
            None
        } else {
            Some(init.last().0)
        };
        let head = entries_bytes(init, unit, table);
        lemma_has_at_split(s, pos, head, entry_bytes(last_index(init), es.last(), unit, table));
        assert(ascending(init, n)) by {
            assert forall|k: int| 0 <= k < init.len() implies 0 <= (#[trigger] init[k]).0 < n by {
                assert(init[k] == es[k]);
            }
            assert forall|j: int, k: int| 0 <= j < k < init.len() implies (#[trigger] init[j]).0 < (
            #[trigger] init[k]).0 by {
                assert(init[j] == es[j] && init[k] == es[k]);
            }
        }
        lemma_entries_read_back(s, pos, init, unit, table, n);
        if init.len() > 0 {
            assert(es[init.len() - 1].0 < es[init.len() as int].0);
            assert(init.last() == es[init.len() - 1]);
        }
        let chunk = match es.last().1 {
            None => None,
            Some(c) => Some(chunk_bytes(c, unit, table)),
        };
        lemma_entry_reads_back(s, pos + head.len(), prev, es.last().0, chunk, n);
        let (before, p) = entries_at(s, pos, init.len(), n)->Ok_0;
        let (got, end) = entries_at(s, pos, es.len(), n)->Ok_0;
        if init.len() > 0 {
            assert(before[init.len() - 1].0 == init[init.len() - 1].0);
        }
        assert(got.drop_last() =~= before);
        assert forall|k: int| 0 <= k < es.len() implies {
            &&& (#[trigger] got[k]).0 == es[k].0
            &&& match (got[k].1, es[k].1) {
                (None, None) => true,
                (Some((a, b)), Some(c)) => 0 <= a <= b <= s.len() && s.subrange(a, b)
                    == chunk_bytes(c, unit, table),
                _ => false,
            }
        } by {
            if k < init.len() {
                assert(got[k] == before[k]);
                assert(es[k] == init[k]);
            }
        }
    }
}

/// Every chunk of an entry is carried, and its strings are in the unit's table.
proof fn lemma_unit_entries(fs: Seq<UnitFn>, unit: Seq<FnId>)
    ensures
        unit_table(fs, unit).no_duplicates(),
        ascending(unit_entries(fs, unit), fs.len() as int),
        forall|k: int|
            0 <= k < unit_entries(fs, unit).len() ==> ((
            #[trigger] unit_entries(fs, unit)[k]).1 matches Some(c) ==> {
                &&& chunk_carried(c, unit)
                &&& all_in(chunk_strs(c, unit), unit_table(fs, unit))
                &&& exists|i: int| 0 <= i < fs.len() && outcome(#[trigger] fs[i], unit)
                    == Outcome::Carried(c)
            }),
    decreases fs.len(),
{
    if fs.len() > 0 {
        let init = fs.drop_last();
        lemma_unit_entries(init, unit);
        let t0 = unit_table(init, unit);
        let t1 = unit_table(fs, unit);
        let es0 = unit_entries(init, unit);
        let es = unit_entries(fs, unit);
        match outcome(fs.last(), unit) {
            Outcome::Refused => {
                lemma_continues_refl(t0);
            },
            Outcome::Carried(c) => {
                lemma_add_strs(t0, chunk_strs(c, unit));
                assert(outcome(fs[fs.len() - 1], unit) == Outcome::Carried(c));
            },
            Outcome::NotCarried(c) => {
                lemma_add_strs(t0, chunk_strs(c, unit));
            },
        }
        assert forall|k: int| 0 <= k < es.len() implies ((#[trigger] es[k]).1 matches Some(c) ==> {
            &&& chunk_carried(c, unit)
            &&& all_in(chunk_strs(c, unit), t1)
            &&& exists|i: int| 0 <= i < fs.len() && outcome(#[trigger] fs[i], unit)
                == Outcome::Carried(c)
        }) by {
            if k < es0.len() {
                assert(es[k] == es0[k]);
                if let Some(c) = es0[k].1 {
                    lemma_all_in_continues(chunk_strs(c, unit), t0, t1);
                    let i = choose|i: int|
                        0 <= i < init.len() && outcome(#[trigger] init[i], unit)
                            == Outcome::Carried(c);
                    assert(fs[i] == init[i]);
                    assert(outcome(fs[i], unit) == Outcome::Carried(c));
                }
            }
        }
    }
}

/// The section that [`super::section::encode_unit`] builds.
pub open spec fn unit_section(fs: Seq<UnitFn>) -> Seq<u8> {
    section_bytes(
        fs.len(),
        unit_entries(fs, unit_ids(fs)),
        unit_ids(fs),
        unit_table(fs, unit_ids(fs)),
    )
}

proof fn lemma_parts_stand(a: Seq<u8>, b: Seq<u8>, c: Seq<u8>, d: Seq<u8>)
    ensures
        has_at(a + b + c + d, 0, a),
        has_at(a + b + c + d, a.len() as int, b),
        has_at(a + b + c + d, (a.len() + b.len()) as int, c),
        has_at(a + b + c + d, (a.len() + b.len() + c.len()) as int, d),
{
    let s = a + b + c + d;
    assert(s.subrange(0, a.len() as int) =~= a);
    assert(s.subrange(a.len() as int, (a.len() + b.len()) as int) =~= b);
    assert(s.subrange((a.len() + b.len()) as int, (a.len() + b.len() + c.len()) as int) =~= c);
    assert(s.subrange((a.len() + b.len() + c.len()) as int, s.len() as int) =~= d);
}

proof fn lemma_scan_reads_back(
    s: Seq<u8>,
    n: nat,
    es: Seq<(int, Option<ChunkView>)>,
    unit: Seq<FnId>,
    table: Seq<Seq<char>>,
    p1: int,
    p2: int,
    p3: int,
)
    requires
        s.len() <= u64::MAX,
        n <= u64::MAX,
        ascending(es, n as int),
        p1 == uv_bytes(n).len(),
        p2 == p1 + table_bytes(table).len(),
        p3 == p2 + uv_bytes(es.len()).len(),
        s.len() == p3 + entries_bytes(es, unit, table).len(),
        has_at(s, 0, uv_bytes(n)),
        has_at(s, p1, table_bytes(table)),
        has_at(s, p2, uv_bytes(es.len())),
        has_at(s, p3, entries_bytes(es, unit, table)),
    ensures
        section_at(s, n as int) matches Ok(v) && {
            &&& entries_stand(s, v.entries, es, unit, table)
            &&& v.strings == (p1, p2)
        },
{
    lemma_uv_reads_back(s, 0, n as u64);
    lemma_table_reads_back(s, p1, table);
    lemma_entries_len(es, unit, table);
    lemma_count_reads_back(s, p2, es.len() as u64);
    lemma_entries_read_back(s, p3, es, unit, table, n as int);
    lemma_table_body_len(table);
    assert((table.len() as u64) as nat == table.len());
    assert((es.len() as u64) as nat == es.len());
}

proof fn lemma_section_bytes_read_back(
    n: nat,
    es: Seq<(int, Option<ChunkView>)>,
    unit: Seq<FnId>,
    table: Seq<Seq<char>>,
)
    requires
        section_bytes(n, es, unit, table).len() <= u64::MAX,
        n <= u64::MAX,
        ascending(es, n as int),
    ensures
        section_at(section_bytes(n, es, unit, table), n as int) matches Ok(v) && {
            &&& entries_stand(section_bytes(n, es, unit, table), v.entries, es, unit, table)
            &&& v.strings.0 == uv_bytes(n).len()
            &&& v.strings.1 == uv_bytes(n).len() + table_bytes(table).len()
        },
{
    let a = uv_bytes(n);
    let b = table_bytes(table);
    let c = uv_bytes(es.len());
    let d = entries_bytes(es, unit, table);
    lemma_parts_stand(a, b, c, d);
    lemma_scan_reads_back(
        a + b + c + d,
        n,
        es,
        unit,
        table,
        a.len() as int,
        (a.len() + b.len()) as int,
        (a.len() + b.len() + c.len()) as int,
    );
}

proof fn lemma_table_stands(
    n: nat,
    es: Seq<(int, Option<ChunkView>)>,
    unit: Seq<FnId>,
    table: Seq<Seq<char>>,
)
    requires
        section_bytes(n, es, unit, table).len() <= u64::MAX,
    ensures
        table_at(
            section_bytes(n, es, unit, table).subrange(
                uv_bytes(n).len() as int,
                (uv_bytes(n).len() + table_bytes(table).len()) as int,
            ),
            0,
        ) == Ok::<(Seq<Seq<char>>, int), DecodeError>((table, table_bytes(table).len() as int)),
{
    let s = section_bytes(n, es, unit, table);
    let a = uv_bytes(n);
    let b = table_bytes(table);
    let sub = s.subrange(a.len() as int, (a.len() + b.len()) as int);
    assert(sub =~= b);
    assert(b.subrange(0, b.len() as int) =~= b);
    lemma_table_reads_back(sub, 0, table);
}

/// A built section parses: its entries are those that were built, with the chunks' bytes in
/// place, and its string table is the one the chunks were encoded against.
pub proof fn lemma_section_reads_back(fs: Seq<UnitFn>)
    requires
        unit_section(fs).len() <= u64::MAX,
        fs.len() <= u64::MAX,
    ensures
        section_at(unit_section(fs), fs.len() as int) matches Ok(v) && {
            &&& entries_stand(
                unit_section(fs),
                v.entries,
                unit_entries(fs, unit_ids(fs)),
                unit_ids(fs),
                unit_table(fs, unit_ids(fs)),
            )
            &&& 0 <= v.strings.0 <= v.strings.1 <= unit_section(fs).len()
            &&& table_at(unit_section(fs).subrange(v.strings.0, v.strings.1), 0) matches Ok(
                (table, _),
            ) && table == unit_table(fs, unit_ids(fs))
        },
{
    let unit = unit_ids(fs);
    let table = unit_table(fs, unit);
    let es = unit_entries(fs, unit);
    lemma_unit_entries(fs, unit);
    lemma_section_bytes_read_back(fs.len(), es, unit, table);
    lemma_table_stands(fs.len(), es, unit, table);
}

/// Loading gives back what was saved: each chunk of a built section, decoded against the
/// section's own string table and the unit's functions, is the chunk that was encoded.
pub proof fn lemma_unit_round_trip(fs: Seq<UnitFn>, t: TablesView, k: int)
    requires
        unit_section(fs).len() <= u64::MAX,
        fs.len() <= u64::MAX,
        forall|i: int|
            0 <= i < fs.len() ==> ((#[trigger] fs[i]).compiled matches Some(c) ==> chunk_canonical(
                c.deep_view(),
            )),
        tables_match(t, unit_ids(fs), unit_table(fs, unit_ids(fs))),
        0 <= k < unit_entries(fs, unit_ids(fs)).len(),
    ensures
        section_at(unit_section(fs), fs.len() as int) matches Ok(v) && match (
            v.entries[k].1,
            unit_entries(fs, unit_ids(fs))[k].1,
        ) {
            (None, None) => true,
            (Some((a, b)), Some(c)) => whole_chunk_at(unit_section(fs).subrange(a, b), t) == Ok::<
                ChunkView,
                DecodeError,
            >(c),
            _ => false,
        },
{
    lemma_section_reads_back(fs);
    let unit = unit_ids(fs);
    let table = unit_table(fs, unit);
    let v = section_at(unit_section(fs), fs.len() as int)->Ok_0;
    let es = unit_entries(fs, unit);
    lemma_unit_entries(fs, unit);
    assert(v.entries[k].0 == es[k].0);
    if let Some(c) = es[k].1 {
        let i = choose|i: int| 0 <= i < fs.len() && outcome(#[trigger] fs[i], unit)
            == Outcome::Carried(c);
        lemma_compiled_is_sized(fs[i].compiled->0);
        lemma_table_fits(fs.len(), es, unit, table);
        let (a, b) = v.entries[k].1->0;
        lemma_whole_chunk_reads_back(unit_section(fs).subrange(a, b), t, c, unit, table);
    }
}

proof fn lemma_compiled_is_sized(x: Chunk)
    ensures
        chunk_sized(x.deep_view()),
{
    assert(x.ops@.len() == x.ops.len());
    assert(x.consts.deep_view().len() == x.consts.len());
    assert(x.names.deep_view().len() == x.names.len());
    assert(x.slot_names.deep_view().len() == x.slot_names.len());
    assert(x.var_force_resets@.len() == x.var_force_resets.len());
    assert(x.funcs@.len() == x.funcs.len());
    assert(x.cap_inits.deep_view().len() == x.cap_inits.len());
    assert(x.positions@.len() == x.positions.len());
}

proof fn lemma_table_fits(
    n: nat,
    es: Seq<(int, Option<ChunkView>)>,
    unit: Seq<FnId>,
    table: Seq<Seq<char>>,
)
    ensures
        table.len() <= section_bytes(n, es, unit, table).len(),
{
    lemma_table_body_len(table);
}

proof fn lemma_whole_chunk_reads_back(
    s: Seq<u8>,
    t: TablesView,
    c: ChunkView,
    unit: Seq<FnId>,
    table: Seq<Seq<char>>,
)
    requires
        decodable(t, c, unit, table),
        s == chunk_bytes(c, unit, table),
    ensures
        whole_chunk_at(s, t) == Ok::<ChunkView, DecodeError>(c),
{
    assert(s.subrange(0, s.len() as int) =~= s);
    lemma_chunk_reads_back(s, 0, t, c, unit, table);
}

// ---- truncation -----------------------------------------------------------------------------

proof fn lemma_raws_end_extends(s: Seq<u8>, cut: int, pos: int, n: nat)
    requires
        0 <= pos,
        0 <= cut <= s.len(),
        raws_end(s.take(cut), pos, n) is Ok,
    ensures
        raws_end(s, pos, n) == raws_end(s.take(cut), pos, n),
        raws_end(s, pos, n)->Ok_0.1 >= pos,
    decreases n,
{
    if n > 0 {
        lemma_raws_end_extends(s, cut, pos, (n - 1) as nat);
        let p = raws_end(s, pos, (n - 1) as nat)->Ok_0.1;
        lemma_count_extends(s, cut, p);
        lemma_uv_rest_bounds(s, p, 0);
        let (len, q) = count_at(s, p)->Ok_0;
        assert(s.take(cut).subrange(q, q + len) =~= s.subrange(q, q + len));
    }
}

proof fn lemma_entry_extends(s: Seq<u8>, cut: int, pos: int, prev: Option<int>, n: int)
    requires
        0 <= pos,
        0 <= cut <= s.len(),
        entry_at(s.take(cut), pos, prev, n) is Ok,
    ensures
        entry_at(s, pos, prev, n) == entry_at(s.take(cut), pos, prev, n),
        entry_at(s, pos, prev, n)->Ok_0.1 >= pos,
{
    lemma_uv_extends(s, cut, pos);
    lemma_uv_rest_bounds(s, pos, 0);
    let p = uv_at(s, pos)->Ok_0.1;
    assert(s.take(cut)[p] == s[p]);
    if s[p] == 1 {
        lemma_count_extends(s, cut, p + 1);
        lemma_uv_rest_bounds(s, p + 1, 0);
    }
}

proof fn lemma_entries_extend(s: Seq<u8>, cut: int, pos: int, n: nat, fn_count: int)
    requires
        0 <= pos,
        0 <= cut <= s.len(),
        entries_at(s.take(cut), pos, n, fn_count) is Ok,
    ensures
        entries_at(s, pos, n, fn_count) == entries_at(s.take(cut), pos, n, fn_count),
        entries_at(s, pos, n, fn_count)->Ok_0.1 >= pos,
    decreases n,
{
    if n > 0 {
        lemma_entries_extend(s, cut, pos, (n - 1) as nat, fn_count);
        let (es, p) = entries_at(s, pos, (n - 1) as nat, fn_count)->Ok_0;
        let prev = if es.len() == 0 {
            None
        } else {
            Some(es.last().0)
        };
        lemma_entry_extends(s, cut, p, prev, fn_count);
    }
}

/// A section cut short anywhere is an error.
pub proof fn lemma_truncated_section_is_an_error(s: Seq<u8>, fn_count: int, cut: int)
    requires
        section_at(s, fn_count) is Ok,
        0 <= cut < s.len(),
    ensures
        section_at(s.take(cut), fn_count) is Err,
{
    let t = s.take(cut);
    if section_at(t, fn_count) is Ok {
        lemma_uv_extends(s, cut, 0);
        lemma_uv_rest_bounds(s, 0, 0);
        let start = uv_at(s, 0)->Ok_0.1;
        lemma_count_extends(s, cut, start);
        lemma_uv_rest_bounds(s, start, 0);
        let (n, p) = count_at(s, start)->Ok_0;
        lemma_raws_end_extends(s, cut, p, n as nat);
        let end = raws_end(s, p, n as nat)->Ok_0.1;
        lemma_count_extends(s, cut, end);
        lemma_uv_rest_bounds(s, end, 0);
        let (m, q) = count_at(s, end)->Ok_0;
        lemma_entries_extend(s, cut, q, m as nat, fn_count);
        assert(section_scan(s, fn_count) == section_scan(t, fn_count));
    }
}

/// A section is only read for a unit with as many functions as it was built for.
pub proof fn lemma_function_count_is_checked(s: Seq<u8>, fn_count: int, other: int)
    requires
        section_at(s, fn_count) is Ok,
        other != fn_count,
    ensures
        section_at(s, other) == Err::<SectionView, DecodeError>(DecodeError::FunctionCount),
{
}

} // verus!
