//! The fast paths over objects in memory: element reads and writes on dense arrays, lengths, and
//! property reads and writes through an inline cache.
//!
//! Each fast path either misses, and then touches nothing, or does exactly what the property
//! operation would do. None of them runs code, allocates or changes a reference count.

use crate::bytecode::jit::words::{
    counted_word, is_num_bits, num_bits, num_word, top_of, word_of_num, RawValue, TAG_OBJ, TAG_STR,
    TAG_UNIT, TOP_BIGINT, TOP_EMPTY, TOP_OBJ, TOP_SYM,
};
use crate::num::{exact_int, integer_value, SIGN};
use vstd::prelude::*;

verus! {

/// The slot of a hole.
pub const NO_SLOT: u32 = 0xffff_ffff;

/// The mirror's word of a hole: a NaN that no element has.
pub const MIRROR_HOLE: u64 = 0x7ff8_0000_0000_0001;

/// The cells that one property site owns.
pub const PROP_IC_WAYS: usize = 4;

/// What an object is beyond the ordinary.
#[derive(Clone, Copy, Debug, PartialEq, Eq, Structural)]
pub enum Exotic {
    Ordinary,
    Array,
    /// Any other kind.
    Other,
}

/// A property in memory: its value word and attributes, and an accessor's functions.
#[derive(Clone, Copy, Debug)]
pub struct Entry {
    pub word: u64,
    pub accessor: bool,
    pub writable: bool,
    pub get: Option<RawValue>,
    pub set: Option<RawValue>,
}

/// The element storage: packed entries (in a box or in line), else a map from indices to entry
/// slots, with a mirror of the numbers.
pub struct DenseBuffers {
    pub packed: Option<Vec<Entry>>,
    pub inline: Vec<Entry>,
    pub elems: Vec<u32>,
    pub mirror: Vec<u64>,
    pub mirror_ok: bool,
    pub mirror_all_i32: bool,
}

/// An object in memory.
pub struct ObjMem {
    /// Negative while mutably borrowed, else the number of borrows.
    pub borrow: i64,
    pub exotic: Exotic,
    /// Cleared on an object whose behaviour lives in a side table.
    pub ic_plain: bool,
    pub proto: Option<u64>,
    pub shape: u32,
    /// The slot of `length`, as the shape knows it.
    pub len_slot: Option<u32>,
    pub entries: Vec<Entry>,
    /// The entries are not shared.
    pub owned: bool,
    pub dense: Option<DenseBuffers>,
}

/// A string in memory.
pub struct StrMem {
    pub bytes: Vec<u8>,
    /// It is known to be ASCII.
    pub ascii: bool,
}

/// The objects and strings; a handle is an index.
pub struct Mem {
    pub objects: Vec<ObjMem>,
    pub strs: Vec<StrMem>,
}

/// Where an element's property lives.
#[derive(Clone, Copy, Debug, PartialEq, Eq, Structural)]
pub enum Place {
    Packed(usize),
    Inline(usize),
    Slot(usize),
}

/// The object behind a value, when its borrow state lets it be read (`write`: written).
pub open spec fn object_of(mem: Mem, v: RawValue, write: bool) -> Option<ObjMem> {
    if v.tag == TAG_OBJ && v.payload < mem.objects@.len() {
        let o = mem.objects@[v.payload as int];
        if (write && o.borrow == 0) || (!write && o.borrow >= 0) {
            Some(o)
        } else {
            None
        }
    } else {
        None
    }
}

/// Whether the elements of an object are its own storage's: an ordinary object or an array, with
/// nothing in a side table.
pub open spec fn plain_elems(o: ObjMem) -> bool {
    o.ic_plain && (o.exotic == Exotic::Ordinary || o.exotic == Exotic::Array)
}

/// The element number that a Number is, when it is a natural one.
pub open spec fn index_number(bits: u64) -> Option<int> {
    match integer_value(bits) {
        Some(v) => if 0 <= v < 0x8000_0000_0000_0000 {
            Some(v)
        } else {
            None
        },
        None => None,
    }
}

/// Where element `i` lives in the dense storage.
pub open spec fn place_of(o: ObjMem, d: DenseBuffers, i: int) -> Option<Place> {
    match d.packed {
        Some(p) => if i < p@.len() {
            Some(Place::Packed(i as usize))
        } else {
            None
        },
        None => if d.inline@.len() > 0 {
            if i < d.inline@.len() {
                Some(Place::Inline(i as usize))
            } else {
                None
            }
        } else if i < d.elems@.len() && d.elems@[i] < o.entries@.len() {
            Some(Place::Slot(d.elems@[i] as usize))
        } else {
            None
        },
    }
}

/// The property at a place.
pub open spec fn entry_at(o: ObjMem, d: DenseBuffers, p: Place) -> Entry {
    match p {
        Place::Packed(i) => d.packed->0@[i as int],
        Place::Inline(i) => d.inline@[i as int],
        Place::Slot(i) => o.entries@[i as int],
    }
}

/// The own dense element `i`.
pub open spec fn element(o: ObjMem, i: int) -> Option<Entry> {
    match o.dense {
        None => None,
        Some(d) => match place_of(o, d, i) {
            Some(p) => Some(entry_at(o, d, p)),
            None => None,
        },
    }
}

/// The number of a data property that holds one.
pub open spec fn number_of(e: Option<Entry>) -> Option<u64> {
    match e {
        Some(e) => if !e.accessor && num_bits(e.word) {
            Some(e.word)
        } else {
            None
        },
        None => None,
    }
}

/// What the mirror says of element `i`.
pub open spec fn mirrored(d: DenseBuffers, i: int) -> Option<u64> {
    if d.mirror_ok && i < d.mirror@.len() && d.mirror@[i] != MIRROR_HOLE {
        Some(d.mirror@[i])
    } else {
        None
    }
}

/// The number that reading element `i` of `o` gives.
pub open spec fn elem_num(o: ObjMem, i: int) -> Option<u64> {
    match o.dense {
        None => None,
        Some(d) => match mirrored(d, i) {
            Some(n) => Some(n),
            None => number_of(element(o, i)),
        },
    }
}

/// The mirror agrees with the elements, and no two indices share an entry.
pub open spec fn coherent(o: ObjMem) -> bool {
    o.dense matches Some(d) ==> {
        &&& d.mirror_ok ==> d.packed is None && d.inline@.len() == 0
        &&& d.mirror_ok ==> d.mirror@.len() == d.elems@.len()
        &&& forall|i: int, j: int|
            0 <= i < j < d.elems@.len() && d.elems@[i] != NO_SLOT ==> d.elems@[i] != d.elems@[j]
        &&& forall|i: int| #[trigger]
            mirrored(d, i) is Some && 0 <= i ==> mirror_agrees(o, d, i)
        &&& o.entries@.len() < NO_SLOT
    }
}

/// The mirror's number at `i` is that of the element.
pub open spec fn mirror_agrees(o: ObjMem, d: DenseBuffers, i: int) -> bool {
    match element(o, i) {
        Some(e) => !e.accessor && e.word == word_of_num(d.mirror@[i]),
        None => false,
    }
}

/// Whether a number is an `i32` to the bit.
pub open spec fn exact_i32(bits: u64) -> bool {
    bits != SIGN && (integer_value(bits) matches Some(v) && -0x8000_0000 <= v < 0x8000_0000)
}

/// Whether a data property may be overwritten in place: it is writable, and its value is neither
/// counted nor a hole.
pub open spec fn overwritable(e: Entry) -> bool {
    !e.accessor && e.writable && top_of(e.word) != TOP_EMPTY && !counted_word(e.word)
}

/// A property with another value word.
pub open spec fn with_word(e: Entry, w: u64) -> Entry {
    Entry { word: w, ..e }
}

impl Mem {
    fn object(&self, v: &RawValue, write: bool) -> (r: Option<usize>)
        ensures
            match r {
                Some(k) => k == v.payload && object_of(*self, *v, write) == Some(
                    self.objects@[k as int],
                ) && k < self.objects@.len(),
                None => object_of(*self, *v, write) is None,
            },
    {
        if v.tag != TAG_OBJ || v.payload >= self.objects.len() as u64 {
            return None;
        }
        let k: usize = v.payload as usize;
        let b: i64 = self.objects[k].borrow;
        if (write && b == 0) || (!write && b >= 0) {
            Some(k)
        } else {
            None
        }
    }
}

impl ObjMem {
    fn is_plain_elems(&self) -> (r: bool)
        ensures
            r == plain_elems(*self),
    {
        self.ic_plain && (self.exotic == Exotic::Ordinary || self.exotic == Exotic::Array)
    }

    fn is_plain(&self, kind: Exotic) -> (r: bool)
        ensures
            r == (self.ic_plain && self.exotic == kind),
    {
        self.ic_plain && self.exotic == kind
    }
}

/// The element number that a Number is.
fn index_ptr(bits: u64) -> (r: Option<usize>)
    ensures
        match r {
            Some(i) => index_number(bits) == Some(i as int),
            None => match index_number(bits) {
                Some(v) => v > usize::MAX,
                None => true,
            },
        },
{
    match exact_int(bits) {
        Some(v) => {
            if v < 0 || v as u64 > usize::MAX as u64 {
                None
            } else {
                Some(v as usize)
            }
        },
        None => None,
    }
}

/// Where own dense element `i` lives: boxed packed storage, else in-line packed storage, else
/// the slot map into the entries, which `owned` requires to be unshared. None for a hole or an
/// index out of range.
fn element_prop(o: &ObjMem, d: &DenseBuffers, i: usize, owned: bool) -> (r: Option<Place>)
    ensures
        r == match place_of(*o, *d, i as int) {
            Some(p) => if owned && p is Slot && !o.owned {
                None
            } else {
                Some(p)
            },
            None => None,
        },
{
    match &d.packed {
        Some(p) => if i < p.len() {
            Some(Place::Packed(i))
        } else {
            None
        },
        None => {
            if d.inline.len() > 0 {
                return if i < d.inline.len() {
                    Some(Place::Inline(i))
                } else {
                    None
                };
            }
            if owned && !o.owned {
                return None;
            }
            if i >= d.elems.len() {
                return None;
            }
            let slot: usize = d.elems[i] as usize;
            if slot < o.entries.len() {
                Some(Place::Slot(slot))
            } else {
                None
            }
        },
    }
}

fn entry_ref<'a>(o: &'a ObjMem, d: &'a DenseBuffers, p: Place) -> (r: &'a Entry)
    requires
        match p {
            Place::Packed(i) => d.packed matches Some(v) && i < v@.len(),
            Place::Inline(i) => i < d.inline@.len(),
            Place::Slot(i) => i < o.entries@.len(),
        },
    ensures
        *r == entry_at(*o, *d, p),
{
    match p {
        Place::Packed(i) => match &d.packed {
            Some(v) => &v[i],
            None => &o.entries[0],
        },
        Place::Inline(i) => &d.inline[i],
        Place::Slot(i) => &o.entries[i],
    }
}

fn data_num(e: &Entry) -> (r: Option<u64>)
    ensures
        r == number_of(Some(*e)),
{
    if !e.accessor && is_num_bits(e.word) {
        Some(e.word)
    } else {
        None
    }
}

/// `v[index]` where the element is a Number, of a plain array or ordinary object: the mirror
/// first, then the property itself. Misses on an index that is no natural number or out of
/// range, on a hole, an accessor and any other value.
pub fn elem_get_num(mem: &Mem, v: &RawValue, index: u64) -> (r: Option<u64>)
    ensures
        r == match (object_of(*mem, *v, false), index_number(index)) {
            (Some(o), Some(i)) => if plain_elems(o) && i <= usize::MAX {
                elem_num(o, i)
            } else {
                None
            },
            _ => None,
        },
{
    let k: usize = match mem.object(v, false) {
        Some(k) => k,
        None => {
            return None;
        },
    };
    let o = &mem.objects[k];
    if !o.is_plain_elems() {
        return None;
    }
    let i: usize = match index_ptr(index) {
        Some(i) => i,
        None => {
            return None;
        },
    };
    let d = match &o.dense {
        Some(d) => d,
        None => {
            return None;
        },
    };
    if d.mirror_ok && i < d.mirror.len() {
        let bits: u64 = d.mirror[i];
        if bits != MIRROR_HOLE {
            return Some(bits);
        }
    }
    match element_prop(o, d, i, false) {
        Some(p) => data_num(entry_ref(o, d, p)),
        None => None,
    }
}

/// `v[index]`'s word, of a dense element that is a data property and no hole.
pub fn elem_get_word(mem: &Mem, v: &RawValue, index: u64) -> (r: Option<u64>)
    ensures
        r == match (object_of(*mem, *v, false), index_number(index)) {
            (Some(o), Some(i)) => if plain_elems(o) && i <= usize::MAX {
                match element(o, i) {
                    Some(e) => if !e.accessor && top_of(e.word) != TOP_EMPTY {
                        Some(e.word)
                    } else {
                        None
                    },
                    None => None,
                }
            } else {
                None
            },
            _ => None,
        },
{
    let k: usize = match mem.object(v, false) {
        Some(k) => k,
        None => {
            return None;
        },
    };
    let o = &mem.objects[k];
    if !o.is_plain_elems() {
        return None;
    }
    let i: usize = match index_ptr(index) {
        Some(i) => i,
        None => {
            return None;
        },
    };
    let d = match &o.dense {
        Some(d) => d,
        None => {
            return None;
        },
    };
    match element_prop(o, d, i, false) {
        Some(p) => {
            let e = entry_ref(o, d, p);
            if !e.accessor && e.word / TAG_UNIT != TOP_EMPTY {
                Some(e.word)
            } else {
                None
            }
        },
        None => None,
    }
}

fn may_overwrite(e: &Entry) -> (r: bool)
    ensures
        r == overwritable(*e),
{
    let top: u64 = e.word / TAG_UNIT;
    let counted = (TOP_BIGINT <= top && top <= TOP_SYM) || top == TOP_OBJ;
    !e.accessor && e.writable && top != TOP_EMPTY && !counted
}

fn is_exact_i32(bits: u64) -> (r: bool)
    ensures
        r == exact_i32(bits),
{
    if bits == SIGN {
        return false;
    }
    match exact_int(bits) {
        Some(v) => -0x8000_0000 <= v && v < 0x8000_0000,
        None => false,
    }
}

/// Whether storing the number `n` into element `i` of `o` is a plain overwrite.
pub open spec fn can_store(o: ObjMem, i: int, n: u64) -> bool {
    o.dense matches Some(d) && (place_of(o, d, i) matches Some(p) && (p is Slot ==> o.owned)
        && overwritable(entry_at(o, d, p)) && (d.mirror_ok && p is Slot ==> n != MIRROR_HOLE && i
        < d.mirror@.len()))
}

/// The storage after the overwrite: the entry's word, and, while the mirror is on, the mirror
/// and whether it is all `i32`.
pub open spec fn stored(o: ObjMem, i: int, n: u64, after: ObjMem) -> bool {
    let d = o.dense->0;
    let p = place_of(o, d, i)->0;
    let w = word_of_num(n);
    let track = d.mirror_ok && p is Slot;
    &&& after.dense is Some
    &&& after == ObjMem { entries: after.entries, dense: after.dense, ..o }
    &&& after.entries@ == match p {
        Place::Slot(s) => o.entries@.update(s as int, with_word(o.entries@[s as int], w)),
        _ => o.entries@,
    }
    &&& match (d.packed, after.dense->0.packed) {
        (Some(a), Some(b)) => b@ == match p {
            Place::Packed(s) => a@.update(s as int, with_word(a@[s as int], w)),
            _ => a@,
        },
        (None, None) => true,
        _ => false,
    }
    &&& after.dense->0.inline@ == match p {
        Place::Inline(s) => d.inline@.update(s as int, with_word(d.inline@[s as int], w)),
        _ => d.inline@,
    }
    &&& after.dense->0.elems@ == d.elems@
    &&& after.dense->0.mirror_ok == d.mirror_ok
    &&& after.dense->0.mirror@ == if track {
        d.mirror@.update(i, n)
    } else {
        d.mirror@
    }
    &&& after.dense->0.mirror_all_i32 == (d.mirror_all_i32 && (track ==> exact_i32(n)))
}

fn store_at(o: &mut ObjMem, p: Place, i: usize, n: u64)
    requires
        old(o).dense is Some,
        place_of(*old(o), old(o).dense->0, i as int) == Some(p),
        old(o).dense->0.mirror_ok && p is Slot ==> i < old(o).dense->0.mirror@.len(),
    ensures
        stored(*old(o), i as int, n, *final(o)),
{
    let w: u64 = num_word(n);
    let track = match (&o.dense, p) {
        (Some(d), Place::Slot(_)) => d.mirror_ok,
        _ => false,
    };
    if let Place::Slot(s) = p {
        o.entries[s].word = w;
    }
    if let Some(d) = &mut o.dense {
        if track {
            d.mirror.set(i, n);
            if !is_exact_i32(n) {
                d.mirror_all_i32 = false;
            }
        }
        match p {
            Place::Packed(s) => {
                if let Some(v) = &mut d.packed {
                    v[s].word = w;
                }
            },
            Place::Inline(s) => {
                d.inline[s].word = w;
            },
            Place::Slot(_) => {},
        }
    }
}

/// `v[index] = n` overwriting an existing dense element that holds a value without a counted
/// handle. Misses, and leaves everything as it was, on anything else.
pub fn elem_set_num(mem: &mut Mem, v: &RawValue, index: u64, n: u64) -> (r: bool)
    ensures
        r == match (object_of(*old(mem), *v, true), index_number(index)) {
            (Some(o), Some(i)) => plain_elems(o) && i <= usize::MAX && can_store(o, i, n),
            _ => false,
        },
        final(mem).strs == old(mem).strs,
        final(mem).objects@.len() == old(mem).objects@.len(),
        forall|k: int|
            0 <= k < old(mem).objects@.len() && !(r && k == v.payload)
                ==> (#[trigger] final(mem).objects@[k]) == old(mem).objects@[k],
        r ==> stored(
            old(mem).objects@[v.payload as int],
            index_number(index)->0,
            n,
            final(mem).objects@[v.payload as int],
        ),
{
    let k: usize = match mem.object(v, true) {
        Some(k) => k,
        None => {
            return false;
        },
    };
    let o = &mem.objects[k];
    if !o.is_plain_elems() {
        return false;
    }
    let i: usize = match index_ptr(index) {
        Some(i) => i,
        None => {
            return false;
        },
    };
    let d = match &o.dense {
        Some(d) => d,
        None => {
            return false;
        },
    };
    let p: Place = match element_prop(o, d, i, true) {
        Some(p) => p,
        None => {
            return false;
        },
    };
    if !may_overwrite(entry_ref(o, d, p)) {
        return false;
    }
    if d.mirror_ok {
        if let Place::Slot(_) = p {
            if n == MIRROR_HOLE || i >= d.mirror.len() {
                return false;
            }
        }
    }
    store_at(&mut mem.objects[k], p, i, n);
    true
}

/// A numeric element read gives the element's own value: the mirror never says anything else
/// (a NaN reads as some NaN).
pub proof fn lemma_element_reads_agree(o: ObjMem, i: int)
    requires
        coherent(o),
        0 <= i,
    ensures
        elem_num(o, i) is Some <==> number_of(element(o, i)) is Some,
        elem_num(o, i) is Some ==> word_of_num(elem_num(o, i)->0) == word_of_num(
            number_of(element(o, i))->0,
        ),
{
    if let Some(d) = o.dense {
        if mirrored(d, i) is Some {
            assert(mirror_agrees(o, d, i));
            let e = element(o, i)->0;
            lemma_canonical(d.mirror@[i]);
        }
    }
}

proof fn lemma_canonical(n: u64)
    ensures
        num_bits(word_of_num(n)),
        word_of_num(word_of_num(n)) == word_of_num(n),
{
    crate::bytecode::jit::words::lemma_boxing_round_trip(
        RawValue { tag: crate::bytecode::jit::words::TAG_NUM, payload: n, flag: false },
    );
    assert(crate::num::nan(crate::bytecode::jit::words::CANON_NAN));
}

/// A number stored into an element reads back from it, every other element keeps its value, and
/// the mirror stays in agreement.
pub proof fn lemma_element_write_reads_back(o: ObjMem, i: int, n: u64, after: ObjMem, j: int)
    requires
        coherent(o),
        0 <= i,
        can_store(o, i, n),
        stored(o, i, n, after),
        0 <= j,
    ensures
        coherent(after),
        elem_num(after, i) is Some,
        word_of_num(elem_num(after, i)->0) == word_of_num(n),
        j != i ==> element(after, j) == element(o, j),
{
    let d = o.dense->0;
    let e = after.dense->0;
    let p = place_of(o, d, i)->0;
    lemma_canonical(n);
    assert(d.inline.len() == d.inline@.len());
    if let Some(a) = d.packed {
        assert(a.len() == a@.len());
    }
    assert forall|k: int| 0 <= k && k != i implies element(after, k) == element(o, k) by {
        if p is Slot && k < d.elems@.len() && i < d.elems@.len() {
            if d.elems@[k] == d.elems@[i] {
                if k < i {
                    assert(d.elems@[k] == NO_SLOT);
                } else {
                    assert(d.elems@[i] == NO_SLOT);
                }
            }
        }
    }
    assert(element(after, i) == Some(with_word(element(o, i)->0, word_of_num(n))));
    assert forall|k: int| #[trigger] mirrored(e, k) is Some && 0 <= k implies mirror_agrees(
        after,
        e,
        k,
    ) by {
        if k != i {
            assert(mirrored(d, k) is Some);
            assert(mirror_agrees(o, d, k));
        } else if d.mirror_ok {
            assert(p is Slot);
        }
    }
}

/// The UTF-16 unit at `index` of a string known to be ASCII.
pub fn str_ascii_unit(s: &StrMem, index: u64) -> (r: Option<u8>)
    ensures
        r == match index_number(index) {
            Some(i) => if s.ascii && i < s.bytes@.len() {
                Some(s.bytes@[i])
            } else {
                None
            },
            None => None,
        },
{
    if !s.ascii {
        return None;
    }
    let n: usize = s.bytes.len();
    match index_ptr(index) {
        Some(i) => if i < n {
            Some(s.bytes[i])
        } else {
            None
        },
        None => None,
    }
}

/// The own `length` of an array, found through its shape.
pub open spec fn length_entry(o: ObjMem) -> Option<Entry> {
    match o.len_slot {
        Some(s) => if s < o.entries@.len() {
            Some(o.entries@[s as int])
        } else {
            None
        },
        None => None,
    }
}

/// `v.length` of a string known to be ASCII (its byte length), or of a plain array (its own
/// `length`, where it is an integer). Misses otherwise.
pub fn array_len(mem: &Mem, v: &RawValue) -> (r: Option<i64>)
    ensures
        match r {
            Some(n) => if v.tag == TAG_STR {
                &&& v.payload < mem.strs@.len()
                &&& mem.strs@[v.payload as int].ascii
                &&& n == mem.strs@[v.payload as int].bytes@.len()
            } else {
                &&& object_of(*mem, *v, false) matches Some(o)
                &&& o.ic_plain
                &&& o.exotic == Exotic::Array
                &&& number_of(length_entry(o)) matches Some(b)
                &&& integer_value(b) == Some(n as int)
            },
            None => if v.tag == TAG_STR {
                v.payload < mem.strs@.len() && mem.strs@[v.payload as int].bytes@.len()
                    <= i64::MAX ==> !mem.strs@[v.payload as int].ascii
            } else {
                object_of(*mem, *v, false) matches Some(o) ==> (o.ic_plain && o.exotic
                    == Exotic::Array) ==> (number_of(length_entry(o)) matches Some(b)
                    ==> match integer_value(b) {
                    Some(x) => x <= -0x8000_0000_0000_0000 || x >= 0x8000_0000_0000_0000,
                    None => true,
                })
            },
        },
{
    if v.tag == TAG_STR {
        if v.payload >= mem.strs.len() as u64 {
            return None;
        }
        let s = &mem.strs[v.payload as usize];
        if !s.ascii || s.bytes.len() as u64 > i64::MAX as u64 {
            return None;
        }
        return Some(s.bytes.len() as i64);
    }
    let k: usize = match mem.object(v, false) {
        Some(k) => k,
        None => {
            return None;
        },
    };
    let o = &mem.objects[k];
    if !o.is_plain(Exotic::Array) {
        return None;
    }
    match o.len_slot {
        Some(s) => {
            if (s as usize) < o.entries.len() {
                match data_num(&o.entries[s as usize]) {
                    Some(b) => exact_int(b),
                    None => None,
                }
            } else {
                None
            }
        },
        None => None,
    }
}

/// The element storage that can be read from directly.
#[derive(Clone, Copy, Debug, PartialEq, Eq, Structural)]
pub enum ViewKind {
    Nothing,
    /// Packed storage.
    Packed,
    /// The mirror.
    Mirror,
}

/// The view of the elements of `o`.
pub open spec fn view_of(o: ObjMem) -> (ViewKind, nat) {
    match o.dense {
        None => (ViewKind::Nothing, 0),
        Some(d) => if d.mirror_ok && d.mirror@.len() != 0 {
            (ViewKind::Mirror, d.mirror@.len())
        } else {
            match d.packed {
                Some(p) => (ViewKind::Packed, p@.len()),
                None => if d.inline@.len() != 0 {
                    (ViewKind::Packed, d.inline@.len())
                } else {
                    (ViewKind::Nothing, 0)
                },
            }
        },
    }
}

/// The storage that the elements of `v` can be read from directly, with their count. Only a
/// plain array or ordinary object that is not mutably borrowed has one.
pub fn array_view(mem: &Mem, v: &RawValue) -> (r: (ViewKind, usize))
    ensures
        (r.0, r.1 as nat) == match object_of(*mem, *v, false) {
            Some(o) => if plain_elems(o) {
                view_of(o)
            } else {
                (ViewKind::Nothing, 0nat)
            },
            None => (ViewKind::Nothing, 0nat),
        },
{
    let k: usize = match mem.object(v, false) {
        Some(k) => k,
        None => {
            return (ViewKind::Nothing, 0);
        },
    };
    let o = &mem.objects[k];
    if !o.is_plain_elems() {
        return (ViewKind::Nothing, 0);
    }
    match &o.dense {
        None => (ViewKind::Nothing, 0),
        Some(d) => {
            if d.mirror_ok && d.mirror.len() != 0 {
                return (ViewKind::Mirror, d.mirror.len());
            }
            match &d.packed {
                Some(p) => (ViewKind::Packed, p.len()),
                None => if d.inline.len() != 0 {
                    (ViewKind::Packed, d.inline.len())
                } else {
                    (ViewKind::Nothing, 0)
                },
            }
        },
    }
}

/// The number that a view gives of element `i`.
pub open spec fn view_num(o: ObjMem, i: int) -> Option<u64> {
    match view_of(o).0 {
        ViewKind::Mirror => mirrored(o.dense->0, i),
        _ => number_of(element(o, i)),
    }
}

/// Element `i` of a view, as a number. Misses on a hole, an accessor or any other value.
pub fn view_elem_num(o: &ObjMem, kind: ViewKind, i: usize) -> (r: Option<u64>)
    requires
        kind != ViewKind::Nothing,
        view_of(*o).0 == kind,
        i < view_of(*o).1,
    ensures
        r == view_num(*o, i as int),
{
    match &o.dense {
        None => None,
        Some(d) => {
            if kind == ViewKind::Mirror {
                let bits: u64 = d.mirror[i];
                return if bits == MIRROR_HOLE {
                    None
                } else {
                    Some(bits)
                };
            }
            match element_prop(o, d, i, false) {
                Some(p) => data_num(entry_ref(o, d, p)),
                None => None,
            }
        },
    }
}

/// What a view gives is what reading the element gives; packed storage misses only where that
/// does.
pub proof fn lemma_view_reads_agree(o: ObjMem, i: int)
    requires
        coherent(o),
        0 <= i < view_of(o).1,
    ensures
        view_num(o, i) is Some ==> view_num(o, i) == elem_num(o, i),
        view_of(o).0 == ViewKind::Packed ==> view_num(o, i) == elem_num(o, i),
{
}

} // verus!
