//! Laws of precompiled units: what is registered, what is decoded, and what a verification says.

use super::chunk::{ChunkView, FnId};
use super::chunk_codec::{
    chunk_bytes, chunk_carried, chunk_refusal, chunk_strs, decodable, lemma_chunk_reads_back,
    lemma_chunk_stable,
};
use super::fingerprint::{decode_text, encode_text, fnv_of, tables_hash, ARITH_SIG, CHUNK_SIG, COND_SIG, OP_SIG, TYPEOF_SIG, UPD_SIG};
use super::list_codec::{EncodeError, TablesView};
use super::registry::{
    entries_sound, entry_live, entry_of, hash_byte, hash_bytes, name_view, same_encoding, spread,
    swept, taken, takes, undecoded, verify_all, verify_one, wanted_for, EntryKind, LazyEntry,
    units_parsed_from, with_func, LazyUnit, MismatchView, Registry, Tally, Verified,
};
use super::section::{entry_at, outcome, run_once, unit_entries, unit_stats, EntryAt, Outcome, UnitFn};
use super::strings::{add_str, add_strs, all_in, lemma_add_strs};
use super::unit_index::unit_index;
use super::wire::{bytes_at, count_at, has_at, u8_at, uv_at, uv_bytes, uv_rest_at, DecodeError};
use super::items::{cap_body_at, const_body_at};
use super::op_codec::{op_parts_at, u16_at, u32_at};
use crate::value::ValueView;
use super::chunk::CapInitView;
use vstd::prelude::*;
use crate::text::dec_digits;
use vstd::utf8::encode_utf8;

verus! {

/// A chunk waits for exactly the functions it names that the unit does not have yet.
pub proof fn lemma_missing_functions_are_wanted(
    inner: Seq<FnId>,
    funcs: Seq<Option<FnId>>,
    i: usize,
)
    requires
        funcs.len() <= usize::MAX,
    ensures
        undecoded(inner, funcs).contains(i) <==> i < funcs.len() && funcs[i as int] is None
            && inner.contains(FnId(i as u64)),
        undecoded(inner, funcs).len() <= inner.len(),
    decreases inner.len(),
{
    if inner.len() > 0 {
        let rest = undecoded(inner.drop_last(), funcs);
        let k = inner.last().0 as int;
        lemma_missing_functions_are_wanted(inner.drop_last(), funcs, i);
        assert(inner.drop_last().push(inner.last()) =~= inner);
        if inner.contains(FnId(i as u64)) {
            let j = inner.index_of(FnId(i as u64));
            if j < inner.len() - 1 {
                assert(inner.drop_last()[j] == FnId(i as u64));
            }
        }
        if inner.drop_last().contains(FnId(i as u64)) {
            let j = inner.drop_last().index_of(FnId(i as u64));
            assert(inner[j] == FnId(i as u64));
        }
        if k < funcs.len() && funcs[k] is None {
            if rest.contains(i) {
                let j = rest.index_of(i);
                assert(rest.push(k as usize)[j] == i);
            }
            if undecoded(inner, funcs).contains(i) && !rest.contains(i) {
                let j = undecoded(inner, funcs).index_of(i);
                assert(j == rest.len()) by {
                    if j < rest.len() {
                        assert(rest[j] == i);
                    }
                }
            }
            if i == k {
                assert(rest.push(k as usize)[rest.len() as int] == i);
                assert(inner[inner.len() - 1] == FnId(i as u64));
            }
        }
    }
}

/// A section's entries land at the functions they name: a refusal as a refusal, a chunk as its
/// byte range.
pub proof fn lemma_entries_land_at_their_functions(
    entries: Seq<EntryAt>,
    len: int,
    n: nat,
    k: int,
)
    requires
        entries_sound(entries, len, n as int),
        0 <= k < entries.len(),
        len <= usize::MAX,
    ensures
        spread(entries, n).len() == n,
        match entries[k].1 {
            None => spread(entries, n)[entries[k].0] == EntryKind::Refused,
            Some((a, b)) => spread(entries, n)[entries[k].0] matches EntryKind::Chunk(x, y) && x
                == a && y == b,
        },
    decreases entries.len(),
{
    let rest = entries.drop_last();
    assert(entries_sound(rest, len, n as int)) by {
        assert forall|j: int| 0 <= j < rest.len() implies {
            &&& 0 <= (#[trigger] rest[j]).0 < n
            &&& rest[j].1 matches Some((a, b)) ==> 0 <= a <= b <= len
        } by {
            assert(entries[j] == rest[j]);
        }
        assert forall|i: int, j: int| 0 <= i < j < rest.len() implies (#[trigger] rest[i]).0 < (
        #[trigger] rest[j]).0 by {
            assert(entries[i].0 < entries[j].0);
        }
    }
    lemma_spread_len(rest, n);
    assert(0 <= entries[entries.len() - 1].0 < n);
    if k < entries.len() - 1 {
        lemma_entries_land_at_their_functions(rest, len, n, k);
        assert(rest[k] == entries[k]);
        assert(entries[k].0 < entries[entries.len() - 1].0);
    }
}

proof fn lemma_spread_len(entries: Seq<EntryAt>, n: nat)
    requires
        forall|k: int| 0 <= k < entries.len() ==> 0 <= (#[trigger] entries[k]).0 < n,
    ensures
        spread(entries, n).len() == n,
    decreases entries.len(),
{
    if entries.len() > 0 {
        assert(0 <= entries[entries.len() - 1].0 < n);
        assert forall|k: int| 0 <= k < entries.drop_last().len() implies 0 <= (
        #[trigger] entries.drop_last()[k]).0 < n by {
            assert(0 <= entries[k].0 < n);
        }
        lemma_spread_len(entries.drop_last(), n);
    }
}

/// A function that no entry names has none.
pub proof fn lemma_other_functions_have_no_entry(entries: Seq<EntryAt>, n: nat, i: int)
    requires
        0 <= i < n,
        forall|k: int| 0 <= k < entries.len() ==> 0 <= (#[trigger] entries[k]).0 < n,
        forall|k: int| 0 <= k < entries.len() ==> (#[trigger] entries[k]).0 != i,
    ensures
        spread(entries, n).len() == n,
        spread(entries, n)[i] == EntryKind::Absent,
    decreases entries.len(),
{
    lemma_spread_len(entries, n);
    if entries.len() > 0 {
        let rest = entries.drop_last();
        assert forall|k: int| 0 <= k < rest.len() implies (#[trigger] rest[k]).0 != i && 0
            <= rest[k].0 < n by {
            assert(entries[k].0 != i);
        }
        lemma_spread_len(rest, n);
        lemma_other_functions_have_no_entry(rest, n, i);
        assert(entries[entries.len() - 1].0 != i);
    }
}

/// What a unit has for a function: what its section said, and nothing beyond its functions.
pub proof fn lemma_units_have_their_entries(u: LazyUnit, idx: int)
    ensures
        0 <= idx < u.entries@.len() ==> entry_of(u, idx) == u.entries@[idx],
        !(0 <= idx < u.entries@.len()) ==> entry_of(u, idx) is Absent,
{
}

/// Sweeping drops exactly the registrations whose unit is dead or whose function the unit no
/// longer has there.
pub proof fn lemma_sweeping_keeps_the_live(
    units: Seq<LazyUnit>,
    lazy: Map<u64, LazyEntry>,
    f: u64,
)
    ensures
        swept(units, lazy).contains_key(f) <==> {
            &&& lazy.contains_key(f)
            &&& units[lazy[f].unit as int].live
            &&& units[lazy[f].unit as int].funcs@[lazy[f].idx as int] == Some(FnId(f))
        },
        swept(units, lazy).contains_key(f) ==> swept(units, lazy)[f] == lazy[f],
{
}

/// A registration is taken once: taking it with nothing missing leaves every other registration
/// and forgets this one, whether or not it decoded. A chunk comes only from a live registration,
/// and is counted. While a function is missing nothing is taken.
pub proof fn lemma_registrations_are_taken_once(
    before: Registry,
    after: Registry,
    f: FnId,
    got: Option<ChunkView>,
    other: u64,
)
    requires
        takes(before, after, f, got),
    ensures
        got is Some ==> {
            &&& before.lazy@.contains_key(f.0)
            &&& entry_live(before.units@, f.0, before.lazy@[f.0])
            &&& !after.lazy@.contains_key(f.0)
            &&& after.counters.attached == before.counters.attached.wrapping_add(1)
            &&& wanted_for(before.units@, before.lazy@, f).len() == 0
        },
        got is None ==> after.counters == before.counters,
        after.counters.compiles == before.counters.compiles,
        after.counters.registered == before.counters.registered,
        after.counters.refusals == before.counters.refusals,
        other != f.0 ==> (after.lazy@.contains_key(other) <==> before.lazy@.contains_key(other)),
        other != f.0 && before.lazy@.contains_key(other) ==> after.lazy@[other]
            == before.lazy@[other],
        wanted_for(before.units@, before.lazy@, f).len() > 0 ==> after.lazy@ == before.lazy@,
        before.lazy@.contains_key(f.0) && wanted_for(before.units@, before.lazy@, f).len() == 0
            ==> !after.lazy@.contains_key(f.0),
{
}

/// What is taken is the chunk that the section's bytes hold, and only for a function that is
/// registered with a live unit.
pub proof fn lemma_only_live_functions_are_decoded(
    units: Seq<LazyUnit>,
    lazy: Map<u64, LazyEntry>,
    f: FnId,
)
    ensures
        !lazy.contains_key(f.0) ==> taken(units, lazy, f) is None && wanted_for(
            units,
            lazy,
            f,
        ).len() == 0,
        lazy.contains_key(f.0) && !units[lazy[f.0].unit as int].live ==> taken(units, lazy, f)
            is None && wanted_for(units, lazy, f).len() == 0,
        lazy.contains_key(f.0) && units[lazy[f.0].unit as int].funcs@[lazy[f.0].idx as int] != Some(
            f,
        ) ==> taken(units, lazy, f) is None,
        taken(units, lazy, f) is Some ==> taken(units, lazy, f)
            == units[lazy[f.0].unit as int].decoded(
            lazy[f.0].start as int,
            lazy[f.0].end as int,
        ),
{
}

/// Two carried chunks that encode alike are the same chunk: verification misses no difference.
pub proof fn lemma_equal_encodings_are_equal_chunks(
    a: ChunkView,
    b: ChunkView,
    unit: Seq<FnId>,
    table: Seq<Seq<char>>,
    t: TablesView,
)
    requires
        table.no_duplicates(),
        same_encoding(a, b, unit, table),
        ({
            let both = add_strs(add_strs(table, chunk_strs(a, unit)), chunk_strs(b, unit));
            decodable(t, a, unit, both) && decodable(t, b, unit, both)
        }),
    ensures
        a == b,
{
    let t1 = add_strs(table, chunk_strs(a, unit));
    let t2 = add_strs(t1, chunk_strs(b, unit));
    lemma_add_strs(table, chunk_strs(a, unit));
    lemma_add_strs(t1, chunk_strs(b, unit));
    lemma_chunk_stable(a, unit, t1, t2);
    let s = chunk_bytes(a, unit, t2);
    assert(s.subrange(0, s.len() as int) =~= s);
    assert(has_at(s, 0, chunk_bytes(a, unit, t2)));
    assert(has_at(s, 0, chunk_bytes(b, unit, t2)));
    lemma_chunk_reads_back(s, 0, t, a, unit, t2);
    lemma_chunk_reads_back(s, 0, t, b, unit, t2);
}

proof fn lemma_known_strs_add_nothing(t: Seq<Seq<char>>, ss: Seq<Seq<char>>)
    requires
        all_in(ss, t),
    ensures
        add_strs(t, ss) == t,
    decreases ss.len(),
{
    if ss.len() > 0 {
        assert forall|i: int| 0 <= i < ss.drop_last().len() implies t.contains(
            #[trigger] ss.drop_last()[i],
        ) by {
            assert(t.contains(ss[i]));
        }
        lemma_known_strs_add_nothing(t, ss.drop_last());
        assert(t.contains(ss[ss.len() - 1]));
    }
}

/// A chunk encodes like itself: verification finds no difference where there is none.
pub proof fn lemma_equal_chunks_encode_alike(
    a: ChunkView,
    unit: Seq<FnId>,
    table: Seq<Seq<char>>,
)
    requires
        table.no_duplicates(),
    ensures
        same_encoding(a, a, unit, table),
{
    lemma_add_strs(table, chunk_strs(a, unit));
    lemma_known_strs_add_nothing(add_strs(table, chunk_strs(a, unit)), chunk_strs(a, unit));
}

/// What verifying a function comes to. One that nothing is attached to is passed over. A refusal
/// must be refused again, and a chunk must be compiled again, to the same encoding.
pub proof fn lemma_verification_of_a_function(v: Verified, i: int, unit: Seq<FnId>, t: Tally)
    ensures
        v.attached is None ==> verify_one(v, i, unit, t) == Ok::<Tally, MismatchView>(t),
        v.attached == Some(None::<super::chunk::Chunk>) ==> match v.fresh {
            None => verify_one(v, i, unit, t) matches Ok(u) && u.refusals == t.refusals + 1
                && u.compared == t.compared && u.table == t.table,
            Some(_) => verify_one(v, i, unit, t) == Err::<Tally, MismatchView>(
                MismatchView::FreshOnly { index: i, name: name_view(v.name) },
            ),
        },
        v.attached is Some && v.attached->0 is Some && v.fresh is None ==> verify_one(v, i, unit, t)
            == Err::<Tally, MismatchView>(
            MismatchView::AttachedOnly { index: i, name: name_view(v.name) },
        ),
        v.attached is Some && v.attached->0 is Some && v.fresh is Some ==> {
            let a = v.attached->0->0.deep_view();
            let b = v.fresh->0.deep_view();
            match verify_one(v, i, unit, t) {
                Ok(u) => {
                    &&& chunk_carried(a, unit)
                    &&& chunk_carried(b, unit)
                    &&& same_encoding(a, b, unit, t.table)
                    &&& u.compared == t.compared + 1
                    &&& u.refusals == t.refusals
                },
                Err(MismatchView::Differs { index, name, attached, fresh }) => {
                    &&& chunk_carried(a, unit)
                    &&& chunk_carried(b, unit)
                    &&& !same_encoding(a, b, unit, t.table)
                    &&& index == i
                    &&& name == name_view(v.name)
                    &&& attached == a.ops
                    &&& fresh == b.ops
                },
                Err(MismatchView::NotCarried(e)) => if chunk_carried(a, unit) {
                    !chunk_carried(b, unit) && e == chunk_refusal(b, unit)
                } else {
                    e == chunk_refusal(a, unit)
                },
                Err(_) => false,
            }
        },
{
}

/// A unit is verified in order up to the first function that fails, and only when none does.
pub proof fn lemma_verification_stops_at_the_first_failure(
    vs: Seq<Verified>,
    v: Verified,
    unit: Seq<FnId>,
)
    ensures
        verify_all(Seq::empty(), unit) matches Ok(t) && t.compared == 0 && t.refusals == 0
            && t.table.len() == 0,
        verify_all(vs, unit) is Err ==> verify_all(vs.push(v), unit) == verify_all(vs, unit),
        verify_all(vs, unit) matches Ok(t) ==> verify_all(vs.push(v), unit) == verify_one(
            v,
            vs.len() as int,
            unit,
            t,
        ),
{
    assert(vs.push(v).drop_last() =~= vs);
}

/// Every verified function counts at most once.
pub proof fn lemma_verification_counts(vs: Seq<Verified>, unit: Seq<FnId>)
    requires
        verify_all(vs, unit) is Ok,
    ensures
        0 <= verify_all(vs, unit)->Ok_0.compared,
        0 <= verify_all(vs, unit)->Ok_0.refusals,
        verify_all(vs, unit)->Ok_0.compared + verify_all(vs, unit)->Ok_0.refusals
            + vs.filter(|v: Verified| v.attached is None).len() == vs.len(),
    decreases vs.len(),
{
    reveal(Seq::filter);
    if vs.len() > 0 {
        lemma_verification_counts(vs.drop_last(), unit);
    }
}

/// What a unit holds of each function: a run-once body or one that does not compile is a
/// refusal; a chunk is carried when the encoding can carry it.
pub proof fn lemma_outcomes_of_functions(f: UnitFn, unit: Seq<FnId>)
    ensures
        outcome(f, unit) is Refused <==> (run_once(f) || f.compiled is None),
        outcome(f, unit) matches Outcome::Carried(c) ==> f.compiled is Some && c
            == f.compiled->0.deep_view() && chunk_carried(c, unit),
        outcome(f, unit) matches Outcome::NotCarried(c) ==> f.compiled is Some && c
            == f.compiled->0.deep_view() && !chunk_carried(c, unit),
{
}

/// A unit's entries are its functions in order, each under its index, without those that the
/// encoding does not carry.
pub proof fn lemma_units_list_their_functions(fs: Seq<UnitFn>, unit: Seq<FnId>, k: int)
    requires
        0 <= k < unit_entries(fs, unit).len(),
    ensures
        ({
            let (i, e) = unit_entries(fs, unit)[k];
            &&& 0 <= i < fs.len()
            &&& k <= i
            &&& match outcome(fs[i], unit) {
                Outcome::Refused => e is None,
                Outcome::Carried(c) => e == Some(c),
                Outcome::NotCarried(_) => false,
            }
            &&& k > 0 ==> unit_entries(fs, unit)[k - 1].0 < i
        }),
        unit_entries(fs, unit).len() <= fs.len(),
    decreases fs.len(),
{
    let d = fs.drop_last();
    let es = unit_entries(d, unit);
    if es.len() > 0 {
        lemma_units_list_their_functions(d, unit, es.len() - 1);
    }
    if k < es.len() {
        lemma_units_list_their_functions(d, unit, k);
        assert(unit_entries(fs, unit)[k] == es[k]);
        if k > 0 {
            assert(unit_entries(fs, unit)[k - 1] == es[k - 1]);
        }
    } else if k > 0 {
        assert(unit_entries(fs, unit)[k - 1] == es[k - 1]);
    }
}

/// A unit's statistics count each function once, and its entries are the chunks and refusals.
pub proof fn lemma_unit_statistics(fs: Seq<UnitFn>, unit: Seq<FnId>)
    ensures
        ({
            let (chunks, refused, left_out) = unit_stats(fs, unit);
            &&& chunks + refused + left_out == fs.len()
            &&& chunks + refused == unit_entries(fs, unit).len()
            &&& refused == fs.filter(|f: UnitFn| outcome(f, unit) is Refused).len()
            &&& left_out == fs.filter(|f: UnitFn| outcome(f, unit) is NotCarried).len()
        }),
    decreases fs.len(),
{
    reveal(Seq::filter);
    if fs.len() > 0 {
        lemma_unit_statistics(fs.drop_last(), unit);
    }
}

/// A function's index in a unit is where it last stands.
pub proof fn lemma_unit_index_is_the_last(unit: Seq<FnId>, f: FnId, j: int)
    ensures
        unit_index(unit, f) matches Some(i) ==> {
            &&& 0 <= i < unit.len()
            &&& unit[i] == f
            &&& i < j < unit.len() ==> unit[j] != f
        },
        unit_index(unit, f) is None && 0 <= j < unit.len() ==> unit[j] != f,
    decreases unit.len(),
{
    if unit.len() > 0 && unit.last() != f {
        lemma_unit_index_is_the_last(unit.drop_last(), f, j);
        if 0 <= j < unit.len() - 1 {
            assert(unit.drop_last()[j] == unit[j]);
        }
    }
}

/// A table gains a text that it lacks, at its end, and is left alone by one that it has.
pub proof fn lemma_tables_gain_new_texts(t: Seq<Seq<char>>, s: Seq<char>)
    ensures
        t.contains(s) ==> add_str(t, s) == t,
        !t.contains(s) ==> add_str(t, s).len() == t.len() + 1 && add_str(t, s).last() == s
            && add_str(t, s).drop_last() == t,
        add_strs(t, Seq::empty()) == t,
        add_strs(t, seq![s]) == add_str(t, s),
{
    reveal_with_fuel(add_strs, 2);
    assert(seq![s].drop_last() =~= Seq::empty());
    assert(t.push(s).drop_last() =~= t);
}

/// The number that the low seven bits of bytes make, least significant first.
pub open spec fn sevens(s: Seq<u8>) -> nat
    decreases s.len(),
{
    if s.len() == 0 {
        0
    } else {
        (s[0] % 128) as nat + 128 * sevens(s.drop_first())
    }
}

/// A number is written seven bits to a byte, least significant first, and all bytes but the
/// last have the top bit set; the last one of several is not zero.
pub proof fn lemma_numbers_are_written_in_sevens(v: nat, i: int)
    ensures
        uv_bytes(v).len() >= 1,
        sevens(uv_bytes(v)) == v,
        uv_bytes(v).last() < 128,
        0 <= i < uv_bytes(v).len() - 1 ==> uv_bytes(v)[i] >= 128,
        uv_bytes(v).len() > 1 ==> uv_bytes(v).last() > 0,
    decreases v,
{
    reveal_with_fuel(sevens, 2);
    if v >= 128 {
        lemma_numbers_are_written_in_sevens(v / 128, i - 1);
        let rest = uv_bytes(v / 128);
        let head: u8 = (v % 128 + 128) as u8;
        assert(uv_bytes(v) == seq![head] + rest);
        assert(uv_bytes(v).drop_first() =~= rest);
        assert(uv_bytes(v)[0] == head);
        assert(head % 128 == v % 128);
        assert(uv_bytes(v).last() == rest.last());
        if rest.len() == 1 {
            assert(sevens(rest) == (rest[0] % 128) as nat + 128 * sevens(rest.drop_first()));
            assert(rest.drop_first() =~= Seq::empty());
            assert(rest.last() == v / 128);
        }
    } else {
        assert(uv_bytes(v).drop_first() =~= Seq::empty());
    }
}

/// Reading runs out exactly past the end, and a count may not promise more than what follows.
pub proof fn lemma_reads_stay_inside(s: Seq<u8>, pos: int, n: int)
    requires
        0 <= pos,
        0 <= n,
    ensures
        u8_at(s, pos) is Ok <==> pos < s.len(),
        bytes_at(s, pos, n) is Ok <==> pos + n <= s.len(),
        bytes_at(s, pos, n) matches Ok((b, end)) ==> b.len() == n && end == pos + n,
        bytes_at(s, pos, n) is Err ==> bytes_at(s, pos, n)->Err_0 is Truncated,
        uv_at(s, pos) is Err ==> count_at(s, pos) is Err,
        uv_at(s, pos) matches Ok((m, next)) ==> if next + m > s.len() {
            count_at(s, pos) == Err::<(u64, int), DecodeError>(DecodeError::BadCount)
        } else {
            count_at(s, pos) == Ok::<(u64, int), DecodeError>((m, next))
        },
{
}

/// A section's entry is written as the distance from the entry before it, which is not zero,
/// then its kind; it names a function of the unit. A chunk's range follows its length.
pub proof fn lemma_entries_ascend(s: Seq<u8>, pos: int, prev: Option<int>, count: int)
    ensures
        entry_at(s, pos, prev, count) matches Ok((e, end)) ==> {
            &&& e.0 < count
            &&& prev matches Some(i) ==> i < e.0
            &&& uv_at(s, pos) matches Ok((d, p)) && {
                &&& e.0 == d + (match prev {
                    Some(i) => i,
                    None => 0,
                })
                &&& u8_at(s, p) matches Ok((kind, q)) && {
                    &&& kind == 0 ==> e.1 is None && end == q
                    &&& kind != 0 ==> kind == 1 && e.1 is Some && {
                        let (a, b) = e.1->0;
                        &&& b == end
                        &&& count_at(s, q) == Ok::<(u64, int), DecodeError>(((b - a) as u64, a))
                    }
                }
            }
        },
        entry_at(s, pos, prev, count) == Err::<(EntryAt, int), DecodeError>(
            DecodeError::BadFunction,
        ) <== (uv_at(s, pos) matches Ok((d, _)) && prev is None && d >= count),
        entry_at(s, pos, prev, count) == Err::<(EntryAt, int), DecodeError>(
            DecodeError::BadEntryOrder,
        ) <== (uv_at(s, pos) matches Ok((d, _)) && prev is Some && d == 0),
{
}

/// Hashing takes a byte at a time: the byte is mixed in, then the product is kept to a word.
pub proof fn lemma_hashing_takes_bytes_in_turn(h: u64, s: Seq<u8>, b: u8)
    ensures
        fnv_of(h, Seq::empty()) == h,
        fnv_of(h, s.push(b)) as int == ((fnv_of(h, s) ^ (b as u64)) * 0x0100_0000_01b3)
            % 0x1_0000_0000_0000_0000,
        hash_bytes(h, Seq::empty()) == h,
        hash_bytes(h, s.push(b)) == hash_byte(hash_bytes(h, s), b),
        hash_byte(h, b) as int == ((((h << 8u64) | (h >> 56u64)) ^ (b as u64))
            * 0x9e37_79b9_7f4a_7c15) % 0x1_0000_0000_0000_0000,
{
    assert(s.push(b).drop_last() =~= s);
}

proof fn lemma_fnv_concat(h: u64, a: Seq<u8>, b: Seq<u8>)
    ensures
        fnv_of(h, a + b) == fnv_of(fnv_of(h, a), b),
    decreases b.len(),
{
    if b.len() == 0 {
        assert(a + b =~= a);
    } else {
        lemma_fnv_concat(h, a, b.drop_last());
        assert((a + b).drop_last() =~= a + b.drop_last());
        assert((a + b).last() == b.last());
    }
}

/// The tables' hash is that of the codec's version and all the tables' signatures, in order.
pub proof fn lemma_the_fingerprint_covers_every_table()
    ensures
        tables_hash() == fnv_of(
            0xcbf2_9ce4_8422_2325,
            vstd::bytes::spec_u32_to_le_bytes(1) + encode_utf8(OP_SIG@) + encode_utf8(UPD_SIG@)
                + encode_utf8(TYPEOF_SIG@) + encode_utf8(ARITH_SIG@) + encode_utf8(COND_SIG@)
                + encode_utf8(CHUNK_SIG@),
        ),
{
    let basis: u64 = 0xcbf2_9ce4_8422_2325;
    let v = vstd::bytes::spec_u32_to_le_bytes(1);
    let a = encode_utf8(OP_SIG@);
    let b = encode_utf8(UPD_SIG@);
    let c = encode_utf8(TYPEOF_SIG@);
    let d = encode_utf8(ARITH_SIG@);
    let e = encode_utf8(COND_SIG@);
    let f = encode_utf8(CHUNK_SIG@);
    lemma_fnv_concat(basis, v, a);
    lemma_fnv_concat(basis, v + a, b);
    lemma_fnv_concat(basis, v + a + b, c);
    lemma_fnv_concat(basis, v + a + b + c, d);
    lemma_fnv_concat(basis, v + a + b + c + d, e);
    lemma_fnv_concat(basis, v + a + b + c + d + e, f);
}

/// What is said of bytes that do not decode. A number that is no kind's is named with the kind.
pub proof fn lemma_decoding_errors_are_reported(t: u8)
    ensures
        decode_text(DecodeError::Truncated) == "bytecode: truncated"@,
        decode_text(DecodeError::VarintOverflow) == "bytecode: varint overflow"@,
        decode_text(DecodeError::BadCount) == "bytecode: bad count"@,
        decode_text(DecodeError::U32Range) == "bytecode: u32 operand out of range"@,
        decode_text(DecodeError::U16Range) == "bytecode: u16 operand out of range"@,
        decode_text(DecodeError::BadBool(t)) == "bytecode: bad bool "@ + dec_digits(t as nat),
        decode_text(DecodeError::BadUpdKind(t)) == "bytecode: bad UpdKind "@ + dec_digits(t as nat),
        decode_text(DecodeError::BadTypeofKind(t)) == "bytecode: bad TypeofKind "@ + dec_digits(
            t as nat,
        ),
        decode_text(DecodeError::BadArithKind(t)) == "bytecode: bad ArithKind "@ + dec_digits(
            t as nat,
        ),
        decode_text(DecodeError::BadOpTag(t)) == "bytecode: bad op tag "@ + dec_digits(t as nat),
        decode_text(DecodeError::BadConstTag(t)) == "bytecode: bad const tag "@ + dec_digits(
            t as nat,
        ),
        decode_text(DecodeError::BadBigInt) == "bytecode: bad bigint"@,
        decode_text(DecodeError::BadString) == "bytecode: bad string index"@,
        decode_text(DecodeError::BadUtf8) == "bytecode: bad utf8"@,
        decode_text(DecodeError::BadFunction) == "bytecode: bad function index"@,
        decode_text(DecodeError::BadCapInitTag(t)) == "bytecode: bad cap init tag "@ + dec_digits(
            t as nat,
        ),
        decode_text(DecodeError::BadCacheCount) == "bytecode: bad cache count"@,
        decode_text(DecodeError::FunctionCount)
            == "bytecode: function count does not match the unit's AST"@,
        decode_text(DecodeError::BadEntryOrder) == "bytecode: bad entry order"@,
        decode_text(DecodeError::BadEntryKind(t)) == "bytecode: bad entry kind "@ + dec_digits(
            t as nat,
        ),
        decode_text(DecodeError::TrailingSection) == "bytecode: trailing bytes in section"@,
        decode_text(DecodeError::TrailingChunk) == "bytecode: trailing bytes in chunk"@,
{
}

/// What is said of chunks that the encoding does not carry.
pub proof fn lemma_encoding_errors_are_reported()
    ensures
        encode_text(EncodeError::Classes) == "class definitions are not carried by the codec"@,
        encode_text(EncodeError::TablesDisagree)
            == "chunk tables disagree with the compiler's invariants"@,
        encode_text(EncodeError::Constant) == "constant is not a primitive literal"@,
        encode_text(EncodeError::Function) == "inner function is not a node of the unit's AST"@,
{
}

/// Registering a function puts it at its index among the unit's functions, and changes nothing
/// else of the unit.
pub proof fn lemma_functions_are_registered_at_their_index(
    u: LazyUnit,
    idx: int,
    f: FnId,
    after: LazyUnit,
    j: int,
)
    requires
        with_func(u, idx, f, after),
    ensures
        0 <= idx < u.funcs@.len() ==> after.funcs@[idx] == Some(f),
        0 <= j < u.funcs@.len() && j != idx ==> after.funcs@[j] == u.funcs@[j],
        after.funcs@.len() == u.funcs@.len(),
        after.section@ == u.section@,
        after.entries@ == u.entries@,
        after.live == u.live,
        after.table() == u.table(),
{
}

/// Parsing a unit's strings changes no answer: what is taken and what is wanted stay the same.
pub proof fn lemma_parsing_changes_no_answer(
    a: Seq<LazyUnit>,
    b: Seq<LazyUnit>,
    lazy: Map<u64, LazyEntry>,
    f: FnId,
)
    requires
        units_parsed_from(a, b),
        lazy.contains_key(f.0) ==> lazy[f.0].unit < a.len(),
    ensures
        taken(a, lazy, f) == taken(b, lazy, f),
        wanted_for(a, lazy, f) == wanted_for(b, lazy, f),
{
    if lazy.contains_key(f.0) {
        let i = lazy[f.0].unit as int;
        assert(super::registry::parsed_from(a[i], b[i]));
    }
}

/// A number that goes on past ten bytes is refused; of ten bytes, and of fewer, the last alone
/// ends it.
pub proof fn lemma_numbers_end_within_ten_bytes(s: Seq<u8>, pos: int, k: nat)
    requires
        0 <= pos < s.len(),
        k <= 9,
    ensures
        s[pos] < 128 ==> uv_rest_at(s, pos, k) == Ok::<(nat, int), DecodeError>(
            (s[pos] as nat, pos + 1),
        ),
        s[pos] >= 128 && k == 9 ==> uv_rest_at(s, pos, k) == Err::<(nat, int), DecodeError>(
            DecodeError::VarintOverflow,
        ),
        s[pos] >= 128 && k < 9 ==> (uv_rest_at(s, pos, k) is Ok <==> uv_rest_at(s, pos + 1, k + 1)
            is Ok),
        s[pos] >= 128 && k < 9 && uv_rest_at(s, pos + 1, k + 1) is Err ==> uv_rest_at(s, pos, k)
            == uv_rest_at(s, pos + 1, k + 1),
        s[pos] >= 128 && k < 9 && uv_rest_at(s, pos + 1, k + 1) is Ok ==> {
            let (v, end) = uv_rest_at(s, pos + 1, k + 1)->Ok_0;
            let (w, last) = uv_rest_at(s, pos, k)->Ok_0;
            w == s[pos] - 128 + 128 * v && last == end
        },
{
}

/// Operands of a width are refused beyond it, and op numbers beyond the last op's.
pub proof fn lemma_operands_are_checked(s: Seq<u8>, pos: int, v: u64, end: int)
    ensures
        uv_at(s, pos) == Ok::<(u64, int), DecodeError>((v, end)) ==> {
            &&& v <= 0xffff_ffff ==> u32_at(s, pos) == Ok::<(u32, int), DecodeError>((v as u32, end))
            &&& v > 0xffff_ffff ==> u32_at(s, pos) == Err::<(u32, int), DecodeError>(
                DecodeError::U32Range,
            )
            &&& v <= 0xffff ==> u16_at(s, pos) == Ok::<(u16, int), DecodeError>((v as u16, end))
            &&& v > 0xffff ==> u16_at(s, pos) == Err::<(u16, int), DecodeError>(
                DecodeError::U16Range,
            )
        },
        uv_at(s, pos) is Err ==> u32_at(s, pos) is Err && u16_at(s, pos) is Err,
        0 <= pos < s.len() && s[pos] > 168 ==> op_parts_at(s, pos) == Err::<
            ((u8, super::op::Operands), int),
            DecodeError,
        >(DecodeError::BadOpTag(s[pos])),
{
}

/// Kinds of constants and captures beyond the last are refused; a constant without more to it
/// takes no byte.
pub proof fn lemma_kinds_are_checked(tag: u8, s: Seq<u8>, pos: int, t: TablesView)
    ensures
        tag > 6 ==> const_body_at(tag, s, pos, t) == Err::<(ValueView, int), DecodeError>(
            DecodeError::BadConstTag(tag),
        ),
        tag > 3 ==> cap_body_at(tag, s, pos, t) == Err::<(CapInitView, int), DecodeError>(
            DecodeError::BadCapInitTag(tag),
        ),
        const_body_at(0, s, pos, t) == Ok::<(ValueView, int), DecodeError>(
            (ValueView::Undefined, pos),
        ),
        const_body_at(1, s, pos, t) == Ok::<(ValueView, int), DecodeError>((ValueView::Null, pos)),
        const_body_at(2, s, pos, t) == Ok::<(ValueView, int), DecodeError>(
            (ValueView::Bool(false), pos),
        ),
        const_body_at(3, s, pos, t) == Ok::<(ValueView, int), DecodeError>(
            (ValueView::Bool(true), pos),
        ),
        const_body_at(4, s, pos, t) is Ok ==> const_body_at(4, s, pos, t)->Ok_0.0 is Num,
        const_body_at(5, s, pos, t) is Ok ==> const_body_at(5, s, pos, t)->Ok_0.0 is Str,
        const_body_at(6, s, pos, t) is Ok ==> const_body_at(6, s, pos, t)->Ok_0.0 is BigInt,
        cap_body_at(0, s, pos, t) is Ok ==> cap_body_at(0, s, pos, t)->Ok_0.0 is Param,
        cap_body_at(1, s, pos, t) is Ok ==> cap_body_at(1, s, pos, t)->Ok_0.0 is Var,
        cap_body_at(2, s, pos, t) is Ok ==> cap_body_at(2, s, pos, t)->Ok_0.0 is Fn,
        cap_body_at(3, s, pos, t) is Ok ==> cap_body_at(3, s, pos, t)->Ok_0.0 is Lexical,
{
}

} // verus!
