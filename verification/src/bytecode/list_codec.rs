//! Lists of encoded items. An item may name strings (by index into the unit's string table) and
//! functions (by index into the unit's function list).

use super::chunk::FnId;
use super::strings::{add_strs, all_in, continues, lemma_add_strs, lemma_add_strs_concat, Strings};
use super::unit_index::UnitIndex;
use super::wire::{
    count_at, has_at, lemma_count_reads_back, lemma_has_at_split, uv, uv_bytes, DecodeError, Rd,
    Read,
};
use vstd::prelude::*;

verus! {

/// Why a chunk is not carried by the encoding.
#[derive(Clone, Copy, Debug, PartialEq, Eq, Structural)]
pub enum EncodeError {
    /// It defines classes.
    Classes,
    /// Its tables disagree with the compiler's invariants.
    TablesDisagree,
    /// A constant is not a primitive literal.
    Constant,
    /// An inner function is not one of the unit's.
    Function,
}

/// What the indices in an encoded chunk refer to.
pub struct Tables<'a> {
    pub strings: &'a Vec<String>,
    /// The unit's functions (`None`: one that could not be had).
    pub funcs: &'a Vec<Option<FnId>>,
}

pub struct TablesView {
    pub strings: Seq<Seq<char>>,
    pub funcs: Seq<Option<FnId>>,
}

impl<'a> View for Tables<'a> {
    type V = TablesView;

    open spec fn view(&self) -> TablesView {
        TablesView { strings: self.strings.deep_view(), funcs: self.funcs@ }
    }
}

/// The decoder's tables are those the encoder worked with.
pub open spec fn tables_match(t: TablesView, unit: Seq<FnId>, table: Seq<Seq<char>>) -> bool {
    &&& t.strings == table
    &&& t.funcs.len() == unit.len()
    &&& forall|i: int| 0 <= i < unit.len() ==> #[trigger] t.funcs[i] == Some(unit[i])
}

/// An item of the encoding.
pub trait Wire: DeepView + Sized {
    /// Whether the encoding carries the item.
    spec fn carried(v: <Self as DeepView>::V, unit: Seq<FnId>) -> bool;

    /// The error for an item that it does not carry.
    spec fn refusal() -> EncodeError;

    /// The item's values that decoding gives back unchanged.
    spec fn canonical(v: <Self as DeepView>::V) -> bool;

    /// The strings the item names.
    spec fn strs(v: <Self as DeepView>::V) -> Seq<Seq<char>>;

    /// The item's bytes, against a string table that holds its strings.
    spec fn bytes(v: <Self as DeepView>::V, unit: Seq<FnId>, table: Seq<Seq<char>>) -> Seq<u8>;

    /// Reading an item.
    spec fn at(s: Seq<u8>, pos: int, t: TablesView) -> Read<<Self as DeepView>::V>;

    proof fn lemma_nonempty(v: <Self as DeepView>::V, unit: Seq<FnId>, table: Seq<Seq<char>>)
        ensures
            Self::bytes(v, unit, table).len() >= 1,
    ;

    proof fn lemma_stable(
        v: <Self as DeepView>::V,
        unit: Seq<FnId>,
        a: Seq<Seq<char>>,
        b: Seq<Seq<char>>,
    )
        requires
            all_in(Self::strs(v), a),
            continues(a, b),
            b.no_duplicates(),
        ensures
            Self::bytes(v, unit, a) == Self::bytes(v, unit, b),
    ;

    proof fn lemma_reads_back(
        s: Seq<u8>,
        pos: int,
        t: TablesView,
        v: <Self as DeepView>::V,
        unit: Seq<FnId>,
        table: Seq<Seq<char>>,
    )
        requires
            Self::carried(v, unit),
            Self::canonical(v),
            all_in(Self::strs(v), table),
            table.no_duplicates(),
            table.len() <= u64::MAX,
            unit.len() <= u64::MAX,
            tables_match(t, unit, table),
            has_at(s, pos, Self::bytes(v, unit, table)),
        ensures
            Self::at(s, pos, t) == Ok::<(<Self as DeepView>::V, int), DecodeError>(
                (v, pos + Self::bytes(v, unit, table).len()),
            ),
    ;

    /// Appends the item.
    fn write(&self, out: &mut Vec<u8>, strings: &mut Strings, unit: &UnitIndex) -> (r: Result<
        (),
        EncodeError,
    >)
        requires
            old(strings).wf(),
        ensures
            final(strings).wf(),
            Self::carried(self.deep_view(), unit@) ==> {
                &&& r is Ok
                &&& final(strings)@ == add_strs(old(strings)@, Self::strs(self.deep_view()))
                &&& final(out)@ == old(out)@ + Self::bytes(
                    self.deep_view(),
                    unit@,
                    final(strings)@,
                )
            },
            !Self::carried(self.deep_view(), unit@) ==> {
                &&& r == Err::<(), EncodeError>(Self::refusal())
                &&& final(strings)@ == old(strings)@
            },
    ;

    /// Reads an item.
    fn read(r: &mut Rd, t: &Tables) -> (res: Result<Self, DecodeError>)
        requires
            old(r).wf(),
        ensures
            final(r).b@ == old(r).b@,
            final(r).wf(),
            match (res, Self::at(old(r).b@, old(r).pos as int, t@)) {
                (Ok(v), Ok((w, end))) => v.deep_view() == w && final(r).pos == end,
                (Err(e), Err(f)) => e == f,
                _ => false,
            },
    ;
}

/// The length of the longest prefix of `xs` whose items are all carried.
pub open spec fn carried_len<T: Wire>(xs: Seq<<T as DeepView>::V>, unit: Seq<FnId>) -> nat
    decreases xs.len(),
{
    if xs.len() == 0 {
        0
    } else {
        let n = carried_len::<T>(xs.drop_last(), unit);
        if n == xs.len() - 1 && T::carried(xs.last(), unit) {
            xs.len()
        } else {
            n
        }
    }
}

/// Every item is carried.
pub open spec fn all_carried<T: Wire>(xs: Seq<<T as DeepView>::V>, unit: Seq<FnId>) -> bool {
    forall|i: int| 0 <= i < xs.len() ==> T::carried(#[trigger] xs[i], unit)
}

pub open spec fn all_canonical<T: Wire>(xs: Seq<<T as DeepView>::V>) -> bool {
    forall|i: int| 0 <= i < xs.len() ==> T::canonical(#[trigger] xs[i])
}

pub open spec fn list_strs<T: Wire>(xs: Seq<<T as DeepView>::V>) -> Seq<Seq<char>>
    decreases xs.len(),
{
    if xs.len() == 0 {
        Seq::empty()
    } else {
        list_strs::<T>(xs.drop_last()) + T::strs(xs.last())
    }
}

pub open spec fn list_bytes<T: Wire>(
    xs: Seq<<T as DeepView>::V>,
    unit: Seq<FnId>,
    table: Seq<Seq<char>>,
) -> Seq<u8>
    decreases xs.len(),
{
    if xs.len() == 0 {
        Seq::empty()
    } else {
        list_bytes::<T>(xs.drop_last(), unit, table) + T::bytes(xs.last(), unit, table)
    }
}

/// A list's bytes: its length, then the items.
pub open spec fn counted_bytes<T: Wire>(
    xs: Seq<<T as DeepView>::V>,
    unit: Seq<FnId>,
    table: Seq<Seq<char>>,
) -> Seq<u8> {
    uv_bytes(xs.len()) + list_bytes::<T>(xs, unit, table)
}

/// Reading `n` items.
pub open spec fn list_at<T: Wire>(s: Seq<u8>, pos: int, t: TablesView, n: nat) -> Read<
    Seq<<T as DeepView>::V>,
>
    decreases n,
{
    if n == 0 {
        Ok((Seq::empty(), pos))
    } else {
        match list_at::<T>(s, pos, t, (n - 1) as nat) {
            Err(e) => Err(e),
            Ok((xs, p)) => match T::at(s, p, t) {
                Err(e) => Err(e),
                Ok((x, end)) => Ok((xs.push(x), end)),
            },
        }
    }
}

/// Reading a list.
pub open spec fn counted_at<T: Wire>(s: Seq<u8>, pos: int, t: TablesView) -> Read<
    Seq<<T as DeepView>::V>,
> {
    match count_at(s, pos) {
        Err(e) => Err(e),
        Ok((n, p)) => list_at::<T>(s, p, t, n as nat),
    }
}

pub proof fn lemma_carried_len<T: Wire>(xs: Seq<<T as DeepView>::V>, unit: Seq<FnId>)
    ensures
        carried_len::<T>(xs, unit) <= xs.len(),
        all_carried::<T>(xs.take(carried_len::<T>(xs, unit) as int), unit),
        carried_len::<T>(xs, unit) < xs.len() ==> !T::carried(
            xs[carried_len::<T>(xs, unit) as int],
            unit,
        ),
        carried_len::<T>(xs, unit) == xs.len() <==> all_carried::<T>(xs, unit),
    decreases xs.len(),
{
    if xs.len() > 0 {
        let ys = xs.drop_last();
        lemma_carried_len::<T>(ys, unit);
        let n = carried_len::<T>(ys, unit);
        if n == ys.len() {
            assert forall|i: int| 0 <= i < ys.len() implies T::carried(#[trigger] xs[i], unit) by {
                assert(ys[i] == xs[i]);
            }
            assert(xs.take(xs.len() as int) =~= xs);
            assert(xs.take(n as int) =~= ys);
        } else {
            assert(xs.take(n as int) =~= ys.take(n as int));
            assert(ys[n as int] == xs[n as int]);
        }
    } else {
        assert(xs.take(0) =~= xs);
    }
}

/// The first item that is not carried ends the longest carried prefix.
pub proof fn lemma_carried_len_is<T: Wire>(xs: Seq<<T as DeepView>::V>, unit: Seq<FnId>, i: int)
    requires
        0 <= i < xs.len(),
        all_carried::<T>(xs.take(i), unit),
        !T::carried(xs[i], unit),
    ensures
        carried_len::<T>(xs, unit) == i,
{
    lemma_carried_len::<T>(xs, unit);
    let n = carried_len::<T>(xs, unit);
    if n < i {
        assert(xs.take(i)[n as int] == xs[n as int]);
    }
    if i < n {
        assert(xs.take(n as int)[i] == xs[i]);
    }
}

pub proof fn lemma_list_len<T: Wire>(
    xs: Seq<<T as DeepView>::V>,
    unit: Seq<FnId>,
    table: Seq<Seq<char>>,
)
    ensures
        list_bytes::<T>(xs, unit, table).len() >= xs.len(),
    decreases xs.len(),
{
    if xs.len() > 0 {
        lemma_list_len::<T>(xs.drop_last(), unit, table);
        T::lemma_nonempty(xs.last(), unit, table);
    }
}

pub proof fn lemma_list_stable<T: Wire>(
    xs: Seq<<T as DeepView>::V>,
    unit: Seq<FnId>,
    a: Seq<Seq<char>>,
    b: Seq<Seq<char>>,
)
    requires
        all_in(list_strs::<T>(xs), a),
        continues(a, b),
        b.no_duplicates(),
    ensures
        list_bytes::<T>(xs, unit, a) == list_bytes::<T>(xs, unit, b),
    decreases xs.len(),
{
    if xs.len() > 0 {
        let head = list_strs::<T>(xs.drop_last());
        let tail = T::strs(xs.last());
        assert forall|i: int| 0 <= i < head.len() implies a.contains(#[trigger] head[i]) by {
            assert((head + tail)[i] == head[i]);
        }
        assert forall|i: int| 0 <= i < tail.len() implies a.contains(#[trigger] tail[i]) by {
            assert((head + tail)[head.len() + i] == tail[i]);
        }
        lemma_list_stable::<T>(xs.drop_last(), unit, a, b);
        T::lemma_stable(xs.last(), unit, a, b);
    }
}

pub proof fn lemma_counted_stable<T: Wire>(
    xs: Seq<<T as DeepView>::V>,
    unit: Seq<FnId>,
    a: Seq<Seq<char>>,
    b: Seq<Seq<char>>,
)
    requires
        all_in(list_strs::<T>(xs), a),
        continues(a, b),
        b.no_duplicates(),
    ensures
        counted_bytes::<T>(xs, unit, a) == counted_bytes::<T>(xs, unit, b),
{
    lemma_list_stable::<T>(xs, unit, a, b);
}

proof fn lemma_list_reads_back<T: Wire>(
    s: Seq<u8>,
    pos: int,
    t: TablesView,
    xs: Seq<<T as DeepView>::V>,
    unit: Seq<FnId>,
    table: Seq<Seq<char>>,
)
    requires
        all_carried::<T>(xs, unit),
        all_canonical::<T>(xs),
        all_in(list_strs::<T>(xs), table),
        table.no_duplicates(),
        table.len() <= u64::MAX,
        unit.len() <= u64::MAX,
        tables_match(t, unit, table),
        has_at(s, pos, list_bytes::<T>(xs, unit, table)),
    ensures
        list_at::<T>(s, pos, t, xs.len()) == Ok::<(Seq<<T as DeepView>::V>, int), DecodeError>(
            (xs, pos + list_bytes::<T>(xs, unit, table).len()),
        ),
    decreases xs.len(),
{
    if xs.len() > 0 {
        let ys = xs.drop_last();
        let head = list_strs::<T>(ys);
        let tail = T::strs(xs.last());
        assert forall|i: int| 0 <= i < head.len() implies table.contains(#[trigger] head[i]) by {
            assert((head + tail)[i] == head[i]);
        }
        assert forall|i: int| 0 <= i < tail.len() implies table.contains(#[trigger] tail[i]) by {
            assert((head + tail)[head.len() + i] == tail[i]);
        }
        lemma_has_at_split(
            s,
            pos,
            list_bytes::<T>(ys, unit, table),
            T::bytes(xs.last(), unit, table),
        );
        lemma_list_reads_back::<T>(s, pos, t, ys, unit, table);
        T::lemma_reads_back(
            s,
            pos + list_bytes::<T>(ys, unit, table).len(),
            t,
            xs.last(),
            unit,
            table,
        );
        assert(ys.push(xs.last()) =~= xs);
    } else {
        assert(xs =~= Seq::empty());
    }
}

/// Reading a list's bytes gives the list back.
pub proof fn lemma_counted_reads_back<T: Wire>(
    s: Seq<u8>,
    pos: int,
    t: TablesView,
    xs: Seq<<T as DeepView>::V>,
    unit: Seq<FnId>,
    table: Seq<Seq<char>>,
)
    requires
        xs.len() <= u64::MAX,
        all_carried::<T>(xs, unit),
        all_canonical::<T>(xs),
        all_in(list_strs::<T>(xs), table),
        table.no_duplicates(),
        table.len() <= u64::MAX,
        unit.len() <= u64::MAX,
        tables_match(t, unit, table),
        has_at(s, pos, counted_bytes::<T>(xs, unit, table)),
    ensures
        counted_at::<T>(s, pos, t) == Ok::<(Seq<<T as DeepView>::V>, int), DecodeError>(
            (xs, pos + counted_bytes::<T>(xs, unit, table).len()),
        ),
{
    lemma_has_at_split(s, pos, uv_bytes(xs.len()), list_bytes::<T>(xs, unit, table));
    lemma_list_len::<T>(xs, unit, table);
    lemma_count_reads_back(s, pos, xs.len() as u64);
    lemma_list_reads_back::<T>(s, pos + uv_bytes(xs.len()).len(), t, xs, unit, table);
}

/// Appends a list.
pub fn write_list<T: Wire>(
    xs: &Vec<T>,
    out: &mut Vec<u8>,
    strings: &mut Strings,
    unit: &UnitIndex,
) -> (r: Result<(), EncodeError>)
    requires
        old(strings).wf(),
    ensures
        final(strings).wf(),
        all_carried::<T>(xs.deep_view(), unit@) ==> {
            &&& r is Ok
            &&& final(strings)@ == add_strs(old(strings)@, list_strs::<T>(xs.deep_view()))
            &&& final(out)@ == old(out)@ + counted_bytes::<T>(
                xs.deep_view(),
                unit@,
                final(strings)@,
            )
        },
        !all_carried::<T>(xs.deep_view(), unit@) ==> {
            &&& r == Err::<(), EncodeError>(T::refusal())
            &&& final(strings)@ == add_strs(
                old(strings)@,
                list_strs::<T>(
                    xs.deep_view().take(carried_len::<T>(xs.deep_view(), unit@) as int),
                ),
            )
        },
{
    let ghost vs = xs.deep_view();
    let ghost t0 = strings@;
    uv(out, xs.len() as u64);
    let ghost o0 = out@;
    let mut i: usize = 0;
    proof {
        assert(vs.take(0) =~= Seq::empty());
        assert(o0 + Seq::<u8>::empty() =~= o0);
    }
    while i < xs.len()
        invariant
            i <= xs.len(),
            vs == xs.deep_view(),
            vs.len() == xs.len(),
            t0.no_duplicates(),
            t0 == old(strings)@,
            o0 == old(out)@ + uv_bytes(vs.len()),
            strings.wf(),
            all_carried::<T>(vs.take(i as int), unit@),
            strings@ == add_strs(t0, list_strs::<T>(vs.take(i as int))),
            out@ == o0 + list_bytes::<T>(vs.take(i as int), unit@, strings@),
        decreases xs.len() - i,
    {
        let ghost before = strings@;
        let ghost ys = vs.take(i as int);
        let ghost zs = vs.take(i + 1);
        proof {
            lemma_add_strs(t0, list_strs::<T>(ys));
            assert(zs.drop_last() =~= ys);
            assert(zs.last() == xs[i as int].deep_view());
        }
        let res: Result<(), EncodeError> = xs[i].write(out, strings, unit);
        if let Err(e) = res {
            proof {
                assert(vs[i as int] == xs[i as int].deep_view());
                lemma_carried_len_is::<T>(vs, unit@, i as int);
            }
            return Err(e);
        }
        proof {
            let one = T::strs(zs.last());
            lemma_add_strs_concat(t0, list_strs::<T>(ys), one);
            lemma_add_strs(before, one);
            lemma_list_stable::<T>(ys, unit@, before, strings@);
            assert(out@ =~= o0 + (list_bytes::<T>(ys, unit@, strings@) + T::bytes(
                zs.last(),
                unit@,
                strings@,
            )));
            assert forall|j: int| 0 <= j < zs.len() implies T::carried(#[trigger] zs[j], unit@) by {
                if j < i {
                    assert(ys[j] == zs[j]);
                }
            }
        }
        i = i + 1;
    }
    proof {
        assert(vs.take(i as int) =~= vs);
        assert(out@ =~= old(out)@ + counted_bytes::<T>(vs, unit@, strings@));
    }
    Ok(())
}

/// Reads a list.
pub fn read_list<T: Wire>(r: &mut Rd, t: &Tables) -> (res: Result<Vec<T>, DecodeError>)
    requires
        old(r).wf(),
    ensures
        final(r).b@ == old(r).b@,
        final(r).wf(),
        match (res, counted_at::<T>(old(r).b@, old(r).pos as int, t@)) {
            (Ok(v), Ok((w, end))) => v.deep_view() == w && final(r).pos == end,
            (Err(e), Err(f)) => e == f,
            _ => false,
        },
{
    let ghost s = r.b@;
    let n: usize = r.len()?;
    let ghost start = r.pos as int;
    let mut out: Vec<T> = Vec::new();
    let mut i: usize = 0;
    assert(out.deep_view() =~= Seq::empty());
    while i < n
        invariant
            i <= n,
            r.b@ == s,
            s == old(r).b@,
            r.wf(),
            count_at(s, old(r).pos as int) == Ok::<(u64, int), DecodeError>((n as u64, start)),
            list_at::<T>(s, start, t@, i as nat) == Ok::<
                (Seq<<T as DeepView>::V>, int),
                DecodeError,
            >((out.deep_view(), r.pos as int)),
        decreases n - i,
    {
        let ghost here = r.pos as int;
        let res: Result<T, DecodeError> = T::read(r, t);
        match res {
            Err(e) => {
                proof {
                    lemma_list_at_fails::<T>(s, start, t@, i as nat + 1, n as nat, e);
                }
                return Err(e);
            },
            Ok(x) => {
                let ghost before = out.deep_view();
                out.push(x);
                assert(out.deep_view() =~= before.push(x.deep_view()));
            },
        }
        i = i + 1;
    }
    Ok(out)
}

proof fn lemma_list_at_fails<T: Wire>(
    s: Seq<u8>,
    pos: int,
    t: TablesView,
    m: nat,
    n: nat,
    e: DecodeError,
)
    requires
        m <= n,
        list_at::<T>(s, pos, t, m) == Err::<(Seq<<T as DeepView>::V>, int), DecodeError>(e),
    ensures
        list_at::<T>(s, pos, t, n) == Err::<(Seq<<T as DeepView>::V>, int), DecodeError>(e),
    decreases n,
{
    if m < n {
        lemma_list_at_fails::<T>(s, pos, t, m, (n - 1) as nat, e);
    }
}

} // verus!
