//! Shape-guarded property access: a shape pins the ordered list of an object's named keys, so a
//! slot found for a key on one object is the key's slot on every object of that shape.

use crate::bytecode::jit::layout::{
    object_of, overwritable, with_word, Entry, Exotic, Mem, ObjMem, PROP_IC_WAYS,
};
use crate::bytecode::jit::words::{
    counted_word, num_bits, num_word, top_of, unpacked, word_of_num, word_value, RawValue,
    TAG_BOOL, TAG_OBJ, TAG_UNIT, TOP_BIGINT, TOP_EMPTY, TOP_OBJ, TOP_SYM,
};
use vstd::prelude::*;

verus! {

/// One cell of a property site's cache: found `depth` prototypes up, on a receiver of a shape,
/// in a slot.
#[derive(Clone, Copy, Debug, PartialEq, Eq, Structural)]
pub struct IcState {
    pub depth: u32,
    pub recv_shape: u32,
    pub slot: u32,
}

/// A snapshot of a property site's cache: the receiver shapes with the slot of each.
pub struct PropIc {
    pub ways: Vec<(u32, u32)>,
}

/// The own-property states among the first `n` cells of a site, one per shape.
pub open spec fn ways_of(cells: Seq<IcState>, n: nat) -> Seq<(u32, u32)>
    decreases n,
{
    if n == 0 {
        Seq::empty()
    } else {
        let w = ways_of(cells, (n - 1) as nat);
        let st = cells[n - 1];
        if st.depth == 0 && !has_shape(w, st.recv_shape) {
            w.push((st.recv_shape, st.slot))
        } else {
            w
        }
    }
}

pub open spec fn has_shape(ways: Seq<(u32, u32)>, shape: u32) -> bool {
    exists|i: int| 0 <= i < ways.len() && (#[trigger] ways[i]).0 == shape
}

/// The slot that the first way for a shape gives.
pub open spec fn way_slot(ways: Seq<(u32, u32)>, shape: u32) -> Option<u32>
    decreases ways.len(),
{
    if ways.len() == 0 {
        None
    } else if ways[0].0 == shape {
        Some(ways[0].1)
    } else {
        way_slot(ways.drop_first(), shape)
    }
}

fn shape_listed(ways: &Vec<(u32, u32)>, shape: u32) -> (r: bool)
    ensures
        r == has_shape(ways@, shape),
{
    let mut i: usize = 0;
    while i < ways.len()
        invariant
            i <= ways@.len(),
            forall|j: int| 0 <= j < i ==> (#[trigger] ways@[j]).0 != shape,
        decreases ways@.len() - i,
    {
        if ways[i].0 == shape {
            assert(ways@[i as int].0 == shape);
            return true;
        }
        i = i + 1;
    }
    false
}

/// Reads a property site's cache: its cells are `caches[cache..]`. None when the cells are not
/// there or hold no own-property state.
pub fn prop_ic(caches: &Vec<IcState>, cache: usize) -> (r: Option<PropIc>)
    ensures
        match r {
            Some(ic) => {
                &&& cache + PROP_IC_WAYS <= caches@.len()
                &&& ic.ways@ == ways_of(
                    caches@.subrange(cache as int, cache + PROP_IC_WAYS),
                    PROP_IC_WAYS as nat,
                )
                &&& ic.ways@.len() > 0
            },
            None => cache + PROP_IC_WAYS > caches@.len() || ways_of(
                caches@.subrange(cache as int, cache + PROP_IC_WAYS),
                PROP_IC_WAYS as nat,
            ).len() == 0,
        },
{
    let mut ways: Vec<(u32, u32)> = Vec::new();
    let n: usize = caches.len();
    if n < PROP_IC_WAYS || cache > n - PROP_IC_WAYS {
        return None;
    }
    let ghost cells = caches@.subrange(cache as int, cache + PROP_IC_WAYS);
    let mut k: usize = 0;
    while k < PROP_IC_WAYS
        invariant
            k <= PROP_IC_WAYS,
            n == caches@.len(),
            cache + PROP_IC_WAYS <= n,
            cells == caches@.subrange(cache as int, cache + PROP_IC_WAYS),
            ways@ == ways_of(cells, k as nat),
        decreases PROP_IC_WAYS - k,
    {
        let st: IcState = caches[cache + k];
        assert(cells[k as int] == st);
        if st.depth == 0 && !shape_listed(&ways, st.recv_shape) {
            ways.push((st.recv_shape, st.slot));
        }
        k = k + 1;
    }
    if ways.len() == 0 {
        None
    } else {
        Some(PropIc { ways })
    }
}

fn find_way(ways: &Vec<(u32, u32)>, shape: u32) -> (r: Option<u32>)
    ensures
        r == way_slot(ways@, shape),
{
    let mut i: usize = 0;
    assert(ways@.subrange(0, ways@.len() as int) =~= ways@);
    while i < ways.len()
        invariant
            i <= ways@.len(),
            way_slot(ways@, shape) == way_slot(
                ways@.subrange(i as int, ways@.len() as int),
                shape,
            ),
        decreases ways@.len() - i,
    {
        let ghost rest = ways@.subrange(i as int, ways@.len() as int);
        assert(rest[0] == ways@[i as int]);
        assert(rest.drop_first() =~= ways@.subrange(i + 1, ways@.len() as int));
        if ways[i].0 == shape {
            return Some(ways[i].1);
        }
        i = i + 1;
    }
    None
}

/// The ordinary object behind a value.
pub open spec fn ordinary_of(mem: Mem, v: RawValue, write: bool) -> Option<ObjMem> {
    match object_of(mem, v, write) {
        Some(o) => if o.ic_plain && o.exotic == Exotic::Ordinary {
            Some(o)
        } else {
            None
        },
        None => None,
    }
}

/// The entry that the cache gives for an object.
pub open spec fn cached_slot(o: ObjMem, ways: Seq<(u32, u32)>) -> Option<int> {
    match way_slot(ways, o.shape) {
        Some(s) => if s < o.entries@.len() {
            Some(s as int)
        } else {
            None
        },
        None => None,
    }
}

/// The word of the data property that the cache gives for `v`.
pub open spec fn cached_word(mem: Mem, v: RawValue, ways: Seq<(u32, u32)>) -> Option<u64> {
    match ordinary_of(mem, v, false) {
        Some(o) => match cached_slot(o, ways) {
            Some(s) => if !o.entries@[s].accessor {
                Some(o.entries@[s].word)
            } else {
                None
            },
            None => None,
        },
        None => None,
    }
}

impl Mem {
    fn ordinary(&self, v: &RawValue, write: bool) -> (r: Option<usize>)
        ensures
            match r {
                Some(k) => k == v.payload && k < self.objects@.len() && ordinary_of(
                    *self,
                    *v,
                    write,
                ) == Some(self.objects@[k as int]),
                None => ordinary_of(*self, *v, write) is None,
            },
    {
        if v.tag != TAG_OBJ || v.payload >= self.objects.len() as u64 {
            return None;
        }
        let k: usize = v.payload as usize;
        let o = &self.objects[k];
        let free = (write && o.borrow == 0) || (!write && o.borrow >= 0);
        if free && o.ic_plain && o.exotic == Exotic::Ordinary {
            Some(k)
        } else {
            None
        }
    }
}

/// The word of `v.<prop>` through the cache: `v` is an ordinary object of one of its shapes, and
/// the entry is a data property.
pub fn prop_word(mem: &Mem, v: &RawValue, ic: &PropIc) -> (r: Option<u64>)
    ensures
        r == cached_word(*mem, *v, ic.ways@),
{
    let k: usize = match mem.ordinary(v, false) {
        Some(k) => k,
        None => {
            return None;
        },
    };
    let o = &mem.objects[k];
    match find_way(&ic.ways, o.shape) {
        Some(s) => {
            if (s as usize) < o.entries.len() && !o.entries[s as usize].accessor {
                Some(o.entries[s as usize].word)
            } else {
                None
            }
        },
        None => None,
    }
}

/// What a cached property read gives.
#[derive(Clone, Copy, Debug, PartialEq, Eq, Structural)]
pub enum PropRead {
    Miss,
    /// A value that is copied freely: its tag and payload.
    Copied(u8, u64),
    /// The word of a counted value, for the caller to take a reference.
    Counted(u64),
}

/// What reading a word as a property value gives: a hole misses, and so does a counted value
/// that the caller does not take.
pub open spec fn read_word(w: u64, takes_counted: bool) -> PropRead {
    if counted_word(w) {
        if takes_counted {
            PropRead::Counted(w)
        } else {
            PropRead::Miss
        }
    } else if num_bits(w) || (top_of(w) != TOP_EMPTY && top_of(w) <= 0x7ffc) {
        PropRead::Copied(
            unpacked(w).tag,
            if unpacked(w).tag == TAG_BOOL {
                if unpacked(w).flag {
                    1u64
                } else {
                    0u64
                }
            } else {
                unpacked(w).payload
            },
        )
    } else {
        PropRead::Miss
    }
}

/// `v.<prop>` through the cache.
pub fn prop_get(mem: &Mem, v: &RawValue, ic: &PropIc, takes_counted: bool) -> (r: PropRead)
    ensures
        r == match cached_word(*mem, *v, ic.ways@) {
            Some(w) => read_word(w, takes_counted),
            None => PropRead::Miss,
        },
{
    match prop_word(mem, v, ic) {
        Some(w) => {
            assert(w / TAG_UNIT <= 0xffff);
            match word_value(w) {
                Some((tag, payload, refc)) => {
                    if refc {
                        if takes_counted {
                            PropRead::Counted(w)
                        } else {
                            PropRead::Miss
                        }
                    } else {
                        PropRead::Copied(tag, payload)
                    }
                },
                None => PropRead::Miss,
            }
        },
        None => PropRead::Miss,
    }
}

/// `v.<prop>` through the cache, where it is a Number.
pub fn prop_get_num(mem: &Mem, v: &RawValue, ic: &PropIc) -> (r: Option<u64>)
    ensures
        r == match cached_word(*mem, *v, ic.ways@) {
            Some(w) => if num_bits(w) {
                Some(w)
            } else {
                None
            },
            None => None,
        },
{
    match prop_word(mem, v, ic) {
        Some(w) => crate::bytecode::jit::words::word_num(w),
        None => None,
    }
}

/// Guards that an entry may be overwritten: a writable data property whose value is neither
/// counted nor a hole.
pub fn entry_writable(e: &Entry) -> (r: bool)
    ensures
        r == overwritable(*e),
{
    let top: u64 = e.word / TAG_UNIT;
    let counted = (TOP_BIGINT <= top && top <= TOP_SYM) || top == TOP_OBJ;
    !e.accessor && e.writable && top != TOP_EMPTY && !counted
}

/// Overwrites the value word of entry `slot`.
pub fn entry_store(o: &mut ObjMem, slot: usize, word: u64)
    requires
        slot < old(o).entries@.len(),
    ensures
        final(o).entries@ == old(o).entries@.update(
            slot as int,
            with_word(old(o).entries@[slot as int], word),
        ),
        *final(o) == (ObjMem { entries: final(o).entries, ..*old(o) }),
{
    o.entries[slot].word = word;
    assert(o.entries@ =~= old(o).entries@.update(
        slot as int,
        with_word(old(o).entries@[slot as int], word),
    ));
}

/// The word of entry `slot`, where it is a data property.
pub fn entry_word(o: &ObjMem, slot: usize) -> (r: Option<u64>)
    requires
        slot < o.entries@.len(),
    ensures
        r == if o.entries@[slot as int].accessor {
            None
        } else {
            Some(o.entries@[slot as int].word)
        },
{
    if o.entries[slot].accessor {
        None
    } else {
        Some(o.entries[slot].word)
    }
}

/// `v.<prop> = n` through the cache: overwrites an own writable data property of an ordinary,
/// unborrowed object with entries of its own. Misses, and leaves everything as it was, otherwise.
pub fn prop_set_num(mem: &mut Mem, v: &RawValue, ic: &PropIc, n: u64) -> (r: bool)
    ensures
        r == (ordinary_of(*old(mem), *v, true) matches Some(o) && o.owned && (cached_slot(
            o,
            ic.ways@,
        ) matches Some(s) && overwritable(o.entries@[s]))),
        final(mem).strs == old(mem).strs,
        final(mem).objects@.len() == old(mem).objects@.len(),
        forall|k: int|
            0 <= k < old(mem).objects@.len() && !(r && k == v.payload)
                ==> (#[trigger] final(mem).objects@[k]) == old(mem).objects@[k],
        r ==> ({
            let o = old(mem).objects@[v.payload as int];
            let p = final(mem).objects@[v.payload as int];
            let s = cached_slot(o, ic.ways@)->0;
            &&& p.entries@ == o.entries@.update(s, with_word(o.entries@[s], word_of_num(n)))
            &&& p == ObjMem { entries: p.entries, ..o }
        }),
{
    let k: usize = match mem.ordinary(v, true) {
        Some(k) => k,
        None => {
            return false;
        },
    };
    let o = &mem.objects[k];
    if !o.owned {
        return false;
    }
    let s: usize = match find_way(&ic.ways, o.shape) {
        Some(s) => s as usize,
        None => {
            return false;
        },
    };
    if s >= o.entries.len() || !entry_writable(&o.entries[s]) {
        return false;
    }
    let w: u64 = num_word(n);
    entry_store(&mut mem.objects[k], s, w);
    true
}

/// The holder that the shapes lead to: the object at `at` has the first shape, its prototype the
/// second, and so on, all ordinary objects that are not mutably borrowed.
pub open spec fn chain_holder(mem: Mem, at: u64, shapes: Seq<u32>) -> Option<u64>
    decreases shapes.len(),
{
    if shapes.len() == 0 || at >= mem.objects@.len() {
        None
    } else {
        let o = mem.objects@[at as int];
        if o.borrow < 0 || !o.ic_plain || o.exotic != Exotic::Ordinary || o.shape != shapes[0] {
            None
        } else if shapes.len() == 1 {
            Some(at)
        } else {
            match o.proto {
                Some(p) => chain_holder(mem, p, shapes.drop_first()),
                None => None,
            }
        }
    }
}

/// Follows a chain of shapes to the holder.
pub fn probe_chain(mem: &Mem, at: u64, shapes: &Vec<u32>) -> (r: Option<u64>)
    requires
        shapes@.len() > 0,
    ensures
        r == chain_holder(*mem, at, shapes@),
{
    let mut cur: u64 = at;
    let mut k: usize = 0;
    assert(shapes@.subrange(0, shapes@.len() as int) =~= shapes@);
    let n: usize = shapes.len();
    loop
        invariant
            n == shapes@.len(),
            k < n,
            chain_holder(*mem, at, shapes@) == chain_holder(
                *mem,
                cur,
                shapes@.subrange(k as int, shapes@.len() as int),
            ),
        decreases shapes@.len() - k,
    {
        let ghost rest = shapes@.subrange(k as int, shapes@.len() as int);
        assert(rest[0] == shapes@[k as int]);
        assert(rest.drop_first() =~= shapes@.subrange(k + 1, shapes@.len() as int));
        if cur >= mem.objects.len() as u64 {
            return None;
        }
        let o = &mem.objects[cur as usize];
        if o.borrow < 0 || !o.ic_plain || o.exotic != Exotic::Ordinary || o.shape != shapes[k] {
            return None;
        }
        if k + 1 == n {
            return Some(cur);
        }
        match o.proto {
            Some(p) => {
                cur = p;
            },
            None => {
                return None;
            },
        }
        k = k + 1;
    }
}

/// Whether the holder's entry is a data property with the given word.
pub open spec fn holds_word(mem: Mem, holder: u64, slot: u32, want: u64) -> bool {
    let o = mem.objects@[holder as int];
    slot < o.entries@.len() && !o.entries@[slot as int].accessor && o.entries@[slot as int].word
        == want
}

/// A method lookup: the shapes lead from the receiver to the holder, whose entry `slot` is a data
/// property with the word of the expected function.
pub fn method_probe(mem: &Mem, v: &RawValue, shapes: &Vec<u32>, slot: u32, want: u64) -> (r: bool)
    requires
        shapes@.len() > 0,
    ensures
        r == (v.tag == TAG_OBJ && (chain_holder(*mem, v.payload, shapes@) matches Some(h)
            && holds_word(*mem, h, slot, want))),
{
    if v.tag != TAG_OBJ {
        return false;
    }
    gc_probe(mem, v.payload, shapes, slot, want)
}

/// [`method_probe`] on the object with the given handle.
pub fn gc_probe(mem: &Mem, at: u64, shapes: &Vec<u32>, slot: u32, want: u64) -> (r: bool)
    requires
        shapes@.len() > 0,
    ensures
        r == (chain_holder(*mem, at, shapes@) matches Some(h) && holds_word(*mem, h, slot, want)),
{
    match probe_chain(mem, at, shapes) {
        Some(h) => {
            proof {
                lemma_holder_in_range(*mem, at, shapes@);
                assert(mem.objects.len() == mem.objects@.len());
            }
            let o = &mem.objects[h as usize];
            (slot as usize) < o.entries.len() && !o.entries[slot as usize].accessor
                && o.entries[slot as usize].word == want
        },
        None => false,
    }
}

proof fn lemma_holder_in_range(mem: Mem, at: u64, shapes: Seq<u32>)
    ensures
        chain_holder(mem, at, shapes) matches Some(h) ==> h < mem.objects@.len(),
    decreases shapes.len(),
{
    if shapes.len() > 1 && at < mem.objects@.len() {
        if let Some(p) = mem.objects@[at as int].proto {
            lemma_holder_in_range(mem, p, shapes.drop_first());
        }
    }
}

/// Whether the holder's entry is an accessor whose setter (`set`) or getter is the function.
pub open spec fn holds_accessor(mem: Mem, holder: u64, slot: u32, func: u64, set: bool) -> bool {
    let o = mem.objects@[holder as int];
    let e = o.entries@[slot as int];
    &&& slot < o.entries@.len()
    &&& e.accessor
    &&& if set {
        e.set matches Some(f) && f.tag == TAG_OBJ && f.payload == func
    } else {
        e.get matches Some(f) && f.tag == TAG_OBJ && f.payload == func
    }
}

/// An accessor lookup: the shapes lead from the receiver to the holder, whose entry `slot` is an
/// accessor with the expected setter (`set`) or getter.
pub fn accessor_probe(
    mem: &Mem,
    v: &RawValue,
    shapes: &Vec<u32>,
    slot: u32,
    func: u64,
    set: bool,
) -> (r: bool)
    requires
        shapes@.len() > 0,
    ensures
        r == (v.tag == TAG_OBJ && (chain_holder(*mem, v.payload, shapes@) matches Some(h)
            && holds_accessor(*mem, h, slot, func, set))),
{
    if v.tag != TAG_OBJ {
        return false;
    }
    match probe_chain(mem, v.payload, shapes) {
        Some(h) => {
            proof {
                lemma_holder_in_range(*mem, v.payload, shapes@);
                assert(mem.objects.len() == mem.objects@.len());
            }
            let o = &mem.objects[h as usize];
            if slot as usize >= o.entries.len() {
                return false;
            }
            let e = &o.entries[slot as usize];
            if !e.accessor {
                return false;
            }
            let f: Option<RawValue> = if set {
                e.set
            } else {
                e.get
            };
            match f {
                Some(f) => f.tag == TAG_OBJ && f.payload == func,
                None => false,
            }
        },
        None => false,
    }
}

/// [`accessor_probe`] for the getter.
pub fn getter_probe(mem: &Mem, v: &RawValue, shapes: &Vec<u32>, slot: u32, getter: u64) -> (r: bool)
    requires
        shapes@.len() > 0,
    ensures
        r == (v.tag == TAG_OBJ && (chain_holder(*mem, v.payload, shapes@) matches Some(h)
            && holds_accessor(*mem, h, slot, getter, false))),
{
    accessor_probe(mem, v, shapes, slot, getter, false)
}

/// The ordinary object of the shape with more than `min_len` entries; for a write it is unborrowed
/// and its entries are its own.
pub open spec fn shaped(mem: Mem, v: RawValue, shape: u32, min_len: u32, write: bool) -> bool {
    ordinary_of(mem, v, write) matches Some(o) && o.shape == shape && (write ==> o.owned)
        && o.entries@.len() > min_len
}

/// Guards that `v` is such an object (see [`shaped`]); gives its handle.
pub fn shaped_entries(mem: &Mem, v: &RawValue, shape: u32, min_len: u32, write: bool) -> (r: Option<
    usize,
>)
    ensures
        match r {
            Some(k) => k == v.payload && k < mem.objects@.len() && shaped(
                *mem,
                *v,
                shape,
                min_len,
                write,
            ),
            None => !shaped(*mem, *v, shape, min_len, write),
        },
{
    match mem.ordinary(v, write) {
        Some(k) => {
            let o = &mem.objects[k];
            if o.shape == shape && (!write || o.owned) && o.entries.len() > min_len as usize {
                Some(k)
            } else {
                None
            }
        },
        None => None,
    }
}

/// [`shaped_entries`] for a receiver whose kind and shape were just validated: only what that
/// left out is looked at.
pub fn probed_entries(mem: &Mem, k: usize, min_len: u32, write: bool) -> (r: bool)
    requires
        k < mem.objects@.len(),
    ensures
        r == ((write ==> mem.objects@[k as int].borrow == 0 && mem.objects@[k as int].owned)
            && mem.objects@[k as int].entries@.len() > min_len),
{
    let o = &mem.objects[k];
    (!write || (o.borrow == 0 && o.owned)) && o.entries.len() > min_len as usize
}

/// Guards that `v` is an object whose behaviour lives in a side table; gives its handle.
pub fn side_table_object(mem: &Mem, v: &RawValue) -> (r: Option<u64>)
    ensures
        r == if v.tag == TAG_OBJ && v.payload < mem.objects@.len()
            && !mem.objects@[v.payload as int].ic_plain {
            Some(v.payload)
        } else {
            None
        },
{
    if v.tag == TAG_OBJ && v.payload < mem.objects.len() as u64
        && !mem.objects[v.payload as usize].ic_plain {
        Some(v.payload)
    } else {
        None
    }
}

/// The packed elements of a plain array that has at least `n` of them.
pub open spec fn packed_of(o: ObjMem, n: usize) -> Option<Seq<Entry>> {
    if o.ic_plain && o.exotic == Exotic::Array {
        match o.dense {
            Some(d) => match d.packed {
                Some(p) => if p@.len() >= n {
                    Some(p@)
                } else {
                    None
                },
                None => if d.inline@.len() >= n {
                    Some(d.inline@)
                } else {
                    None
                },
            },
            None => None,
        }
    } else {
        None
    }
}

/// The words of the first `n` elements of an array with packed storage. Misses when it has fewer,
/// or when one of them is an accessor or a hole.
pub fn packed_words(mem: &Mem, v: &RawValue, n: usize) -> (r: Option<Vec<u64>>)
    ensures
        match object_of(*mem, *v, false) {
            None => r is None,
            Some(o) => match packed_of(o, n) {
                None => r is None,
                Some(p) => match r {
                    Some(ws) => {
                        &&& ws@.len() == n
                        &&& forall|i: int|
                            0 <= i < n ==> #[trigger] ws@[i] == p[i].word && !p[i].accessor
                                && top_of(p[i].word) != TOP_EMPTY
                    },
                    None => exists|i: int|
                        0 <= i < n && ((#[trigger] p[i]).accessor || top_of(p[i].word)
                            == TOP_EMPTY),
                },
            },
        },
{
    if v.tag != TAG_OBJ || v.payload >= mem.objects.len() as u64 {
        return None;
    }
    let o = &mem.objects[v.payload as usize];
    if o.borrow < 0 || !o.ic_plain || o.exotic != Exotic::Array {
        return None;
    }
    let d = match &o.dense {
        Some(d) => d,
        None => {
            return None;
        },
    };
    let p: &Vec<Entry> = match &d.packed {
        Some(p) => p,
        None => &d.inline,
    };
    if p.len() < n {
        return None;
    }
    let mut ws: Vec<u64> = Vec::new();
    let mut j: usize = 0;
    while j < n
        invariant
            j <= n <= p@.len(),
            ws@.len() == j,
            object_of(*mem, *v, false) == Some(*o),
            packed_of(*o, n) == Some(p@),
            forall|i: int|
                0 <= i < j ==> #[trigger] ws@[i] == p@[i].word && !p@[i].accessor && top_of(
                    p@[i].word,
                ) != TOP_EMPTY,
        decreases n - j,
    {
        let e = &p[j];
        if e.accessor || e.word / TAG_UNIT == TOP_EMPTY {
            assert(p@[j as int].accessor || top_of(p@[j as int].word) == TOP_EMPTY);
            return None;
        }
        let w: u64 = e.word;
        assert(top_of(p@[j as int].word) != TOP_EMPTY);
        ws.push(w);
        assert(ws@[j as int] == p@[j as int].word);
        j = j + 1;
    }
    Some(ws)
}

/// The key list of every shape.
pub type KeyLists = Map<u32, Seq<Seq<char>>>;

/// The shape of an object pins its keys: entry `i` is the property of the `i`-th key.
pub open spec fn pinned(keys: KeyLists, o: ObjMem) -> bool {
    keys.dom().contains(o.shape) && keys[o.shape].len() == o.entries@.len()
        && keys[o.shape].no_duplicates()
}

/// The own property of a name.
pub open spec fn own_property(keys: KeyLists, o: ObjMem, name: Seq<char>) -> Option<Entry> {
    let ks = keys[o.shape];
    if ks.contains(name) {
        Some(o.entries@[ks.index_of(name)])
    } else {
        None
    }
}

/// A cache whose every way was recorded for one name.
pub open spec fn records(keys: KeyLists, ways: Seq<(u32, u32)>, name: Seq<char>) -> bool {
    forall|i: int|
        0 <= i < ways.len() ==> {
            let w = #[trigger] ways[i];
            keys.dom().contains(w.0) ==> w.1 < keys[w.0].len() && keys[w.0][w.1 as int] == name
        }
}

/// What a cached read hits is the own property of the name that the cache was recorded for.
pub proof fn lemma_cached_slot_is_the_property(
    keys: KeyLists,
    o: ObjMem,
    ways: Seq<(u32, u32)>,
    name: Seq<char>,
)
    requires
        pinned(keys, o),
        records(keys, ways, name),
        cached_slot(o, ways) is Some,
    ensures
        own_property(keys, o, name) == Some(o.entries@[cached_slot(o, ways)->0]),
{
    let s = cached_slot(o, ways)->0;
    let j = lemma_way_slot(ways, o.shape);
    assert(keys[o.shape][s] == name);
    let ks = keys[o.shape];
    assert(ks.contains(name));
    assert(ks[ks.index_of(name)] == name);
    assert(ks.index_of(name) == s);
}

proof fn lemma_way_slot(ways: Seq<(u32, u32)>, shape: u32) -> (j: int)
    requires
        way_slot(ways, shape) is Some,
    ensures
        0 <= j < ways.len(),
        ways[j] == (shape, way_slot(ways, shape)->0),
    decreases ways.len(),
{
    if ways[0].0 == shape {
        0
    } else {
        lemma_way_slot(ways.drop_first(), shape) + 1
    }
}

} // verus!
