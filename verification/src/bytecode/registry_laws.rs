//! What a registered chunk waits for, and that nothing else keeps it from decoding.

use super::chunk::{CapInit, ChunkView, FnId};
use super::chunk_codec::chunk_at;
use super::list_codec::{counted_at, list_at, TablesView, Wire};
use super::op::Op;
use super::registry::{index_table, undecoded, LazyUnit};
use super::section::whole_chunk_at;
use super::wire::count_at;
use crate::value::Value;
use vstd::prelude::*;

verus! {

/// Items that are read alike under two tables make lists that are read alike.
proof fn lemma_list_alike<T: Wire>(s: Seq<u8>, pos: int, a: TablesView, b: TablesView, n: nat)
    requires
        forall|p: int| #[trigger] T::at(s, p, a) == T::at(s, p, b),
    ensures
        list_at::<T>(s, pos, a, n) == list_at::<T>(s, pos, b, n),
    decreases n,
{
    if n > 0 {
        lemma_list_alike::<T>(s, pos, a, b, (n - 1) as nat);
        if let Ok((xs, p)) = list_at::<T>(s, pos, a, (n - 1) as nat) {
            assert(T::at(s, p, a) == T::at(s, p, b));
        }
    }
}

proof fn lemma_counted_alike<T: Wire>(s: Seq<u8>, pos: int, a: TablesView, b: TablesView)
    requires
        forall|p: int| #[trigger] T::at(s, p, a) == T::at(s, p, b),
    ensures
        counted_at::<T>(s, pos, a) == counted_at::<T>(s, pos, b),
{
    if let Ok((n, p)) = count_at(s, pos) {
        lemma_list_alike::<T>(s, p, a, b, n as nat);
    }
}

/// The functions of a unit at the given indices.
pub open spec fn named_funcs(inner: Seq<FnId>, funcs: Seq<Option<FnId>>) -> Seq<FnId> {
    inner.map_values(|i: FnId| funcs[i.0 as int]->0)
}

/// Where no function of a list is undecoded, the list is read as those functions.
proof fn lemma_funcs_named(
    s: Seq<u8>,
    pos: int,
    strings: Seq<Seq<char>>,
    funcs: Seq<Option<FnId>>,
    n: nat,
)
    requires
        funcs.len() <= u64::MAX,
        list_at::<FnId>(s, pos, (TablesView { strings, funcs: index_table(funcs.len()) }), n) is Ok,
        undecoded(
            list_at::<FnId>(
                s,
                pos,
                (TablesView { strings, funcs: index_table(funcs.len()) }),
                n,
            )->Ok_0.0,
            funcs,
        ).len() == 0,
    ensures
        ({
            let a = list_at::<FnId>(
                s,
                pos,
                TablesView { strings, funcs: index_table(funcs.len()) },
                n,
            )->Ok_0;
            list_at::<FnId>(s, pos, TablesView { strings, funcs }, n) == Ok::<_, super::wire::DecodeError>(
                (named_funcs(a.0, funcs), a.1),
            )
        }),
    decreases n,
{
    let t = TablesView { strings, funcs: index_table(funcs.len()) };
    if n > 0 {
        let (xs, p) = list_at::<FnId>(s, pos, t, (n - 1) as nat)->Ok_0;
        let (x, end) = FnId::at(s, p, t)->Ok_0;
        let all = xs.push(x);
        assert(all.drop_last() =~= xs);
        assert(all.last() == x);
        lemma_funcs_named(s, pos, strings, funcs, (n - 1) as nat);
        assert(named_funcs(all, funcs) =~= named_funcs(xs, funcs).push(funcs[x.0 as int]->0));
    } else {
        assert(named_funcs(Seq::empty(), funcs) =~= Seq::empty());
    }
}

/// A registered chunk waits for its inner functions alone: where its bytes are a chunk and none
/// of its inner functions is wanted, it decodes, with the unit's functions at the indices that
/// the bytes give.
pub proof fn lemma_decodes_once_nothing_is_wanted(u: LazyUnit, a: int, b: int)
    requires
        u.by_index(a, b) is Some,
        u.wanted(a, b).len() == 0,
    ensures
        u.decoded(a, b) == Some(
            ChunkView {
                funcs: named_funcs(u.by_index(a, b)->0.funcs, u.funcs@),
                ..u.by_index(a, b)->0
            },
        ),
{
    let s = u.section@.subrange(a, b);
    let strings = u.table()->0;
    let funcs = u.funcs@;
    assert(funcs.len() <= usize::MAX) by {
        assert(u.funcs.len() == funcs.len());
    }
    let x = TablesView { strings, funcs: index_table(funcs.len()) };
    let y = TablesView { strings, funcs };
    assert(whole_chunk_at(s, x) is Ok);
    let (code, p) = super::chunk_codec::code_at(s, 0, x)->Ok_0;
    lemma_counted_alike::<Op>(s, 0, x, y);
    lemma_counted_alike::<Value>(s, counted_at::<Op>(s, 0, x)->Ok_0.1, x, y);
    let (names, q) = super::chunk_codec::names_at(s, p, x)->Ok_0;
    lemma_counted_alike::<String>(s, p, x, y);
    lemma_counted_alike::<String>(s, counted_at::<String>(s, p, x)->Ok_0.1, x, y);
    let (frame, r) = super::chunk_codec::frame_at(s, q)->Ok_0;
    lemma_counted_alike::<u16>(s, r, x, y);
    let (resets, f) = counted_at::<u16>(s, r, x)->Ok_0;
    let (n, g) = count_at(s, f)->Ok_0;
    lemma_funcs_named(s, g, strings, funcs, n as nat);
    let (fs, h) = counted_at::<FnId>(s, f, x)->Ok_0;
    lemma_counted_alike::<CapInit>(s, h, x, y);
    assert(chunk_at(s, 0, y) is Ok);
}

} // verus!
