//! Laws of the values, elements and records that the optimizing tier reads and writes.

use crate::bytecode::jit::direct::{direct_rec, Callee};
use crate::bytecode::jit::enter::{live_depth, Exit};
use crate::bytecode::jit::function::kind_moved;
use crate::bytecode::jit::layout::{
    element, exact_i32, length_entry, mirror_agrees, mirrored, object_of, place_of, with_word,
    DenseBuffers, Entry, Mem, ObjMem, Place,
};
use crate::bytecode::jit::new_plan::{moves_args, NewSite, NewStores, Operand};
use crate::bytecode::jit::prop_access::ordinary_of;
use crate::bytecode::jit::records::{frames_from, CallRec};
use crate::bytecode::jit::tier::{fresh_loop, no_direct, Kind};
use crate::bytecode::jit::words::{
    counted_word, num_bits, packed, payload_of, top_by_tag, top_of, word_of_bool, word_of_num,
    RawValue,
};
use crate::interpreter::call_cx::CallCx;
use crate::num::{integer_value, nan};
use crate::value::Value;
use vstd::prelude::*;

verus! {

// ---- words ------------------------------------------------------------------------------------

/// A word has sixteen bits of tag over forty-eight of payload.
pub proof fn lemma_words_have_a_tag_and_a_payload(w: u64)
    ensures
        top_of(w) * 0x1_0000_0000_0000 + payload_of(w) == w,
        payload_of(w) < 0x1_0000_0000_0000,
        top_of(w) < 0x1_0000,
{
}

/// The tags of what is no number, each its own; the two Booleans differ in the payload.
pub proof fn lemma_tags_of_words(b: bool)
    ensures
        top_by_tag(0) == 0x7ff9,
        top_by_tag(1) == 0x7ffa,
        top_by_tag(2) == 0x7ffb,
        top_by_tag(3) == 0x7ffc,
        top_by_tag(5) == 0x7ffd,
        top_by_tag(6) == 0x7ffe,
        top_by_tag(7) == 0x7fff,
        top_by_tag(8) == 0xfff9,
        top_of(word_of_bool(b)) == 0x7ffc,
        payload_of(word_of_bool(b)) == (if b {
            1u64
        } else {
            0u64
        }),
        !num_bits(word_of_bool(b)),
{
}

/// A number is its own word, and every NaN is one word; neither owns a handle.
pub proof fn lemma_numbers_are_their_own_words(bits: u64)
    ensures
        !nan(bits) ==> word_of_num(bits) == bits,
        nan(bits) ==> word_of_num(bits) == 0x7ff8_0000_0000_0000,
        num_bits(word_of_num(bits)),
        !counted_word(word_of_num(bits)),
{
}

/// A value in memory owns a handle exactly when its word does.
pub proof fn lemma_handles_are_owned_in_both_forms(v: RawValue)
    requires
        v.wf(),
    ensures
        v.counted() <==> v.tag > 4,
        v.tag == 4 ==> packed(v) == word_of_num(v.payload),
        v.tag == 3 ==> packed(v) == word_of_bool(v.flag),
{
}

/// A number is an `i32` to the bit when it is an integer in range and not the negative zero.
pub proof fn lemma_exact_integers(bits: u64, v: int)
    ensures
        integer_value(bits) == Some(v) && -0x8000_0000 <= v <= 0x7fff_ffff && bits
            != 0x8000_0000_0000_0000 ==> exact_i32(bits),
        integer_value(bits) is None ==> !exact_i32(bits),
        integer_value(bits) == Some(v) && !(-0x8000_0000 <= v <= 0x7fff_ffff) ==> !exact_i32(bits),
        !exact_i32(0x8000_0000_0000_0000),
{
}

// ---- elements ---------------------------------------------------------------------------------

/// Where an element lives: packed, inline, or in a slot of the entries, and nowhere past the
/// end.
pub proof fn lemma_elements_have_places(o: ObjMem, d: DenseBuffers, i: int)
    requires
        0 <= i <= usize::MAX,
    ensures
        d.packed matches Some(p) ==> place_of(o, d, i) == (if i < p@.len() {
            Some(Place::Packed(i as usize))
        } else {
            None
        }),
        d.packed is None && d.inline@.len() > 0 ==> place_of(o, d, i) == (if i < d.inline@.len() {
            Some(Place::Inline(i as usize))
        } else {
            None
        }),
        d.packed is None && d.inline@.len() == 0 ==> {
            &&& i >= d.elems@.len() ==> place_of(o, d, i) is None
            &&& i < d.elems@.len() && d.elems@[i] >= o.entries@.len() ==> place_of(o, d, i) is None
            &&& i < d.elems@.len() && d.elems@[i] < o.entries@.len() ==> place_of(o, d, i) == Some(
                Place::Slot(d.elems@[i] as usize),
            )
        },
{
}

/// The mirror answers for an element while it is kept, reaches that far and has no hole there.
pub proof fn lemma_mirrors_answer(o: ObjMem, d: DenseBuffers, i: int, n: u64)
    ensures
        mirrored(d, i) == Some(n) ==> d.mirror_ok && i < d.mirror@.len() && d.mirror@[i] == n,
        !d.mirror_ok ==> mirrored(d, i) is None,
        i >= d.mirror@.len() ==> mirrored(d, i) is None,
        mirror_agrees(o, d, i) ==> element(o, i) is Some && !element(o, i)->0.accessor
            && element(o, i)->0.word == word_of_num(d.mirror@[i]),
{
}

/// An array's length is the entry that its shape gives.
pub proof fn lemma_lengths_are_entries(o: ObjMem)
    ensures
        o.len_slot is None ==> length_entry(o) is None,
        o.len_slot matches Some(s) ==> {
            &&& s < o.entries@.len() ==> length_entry(o) == Some(o.entries@[s as int])
            &&& s >= o.entries@.len() ==> length_entry(o) is None
        },
{
}

/// Writing an entry's word leaves what kind of property it is.
pub proof fn lemma_written_entries_keep_their_kind(e: Entry, w: u64)
    ensures
        with_word(e, w).word == w,
        with_word(e, w) == (Entry { word: w, ..e }),
        with_word(with_word(e, w), e.word) == e,
        with_word(e, w).accessor == e.accessor,
{
}

/// An ordinary object is one whose properties are plain and which is not exotic.
pub proof fn lemma_ordinary_objects(mem: Mem, v: RawValue, write: bool)
    ensures
        ordinary_of(mem, v, write) matches Some(o) ==> object_of(mem, v, write) == Some(o)
            && o.ic_plain && o.exotic is Ordinary,
        object_of(mem, v, write) is None ==> ordinary_of(mem, v, write) is None,
        object_of(mem, v, write) matches Some(o) ==> (o.ic_plain && o.exotic is Ordinary
            ==> ordinary_of(mem, v, write) == Some(o)),
{
}

// ---- entering and leaving ---------------------------------------------------------------------

/// The operands that an exit leaves are no more than its area holds.
pub proof fn lemma_exits_leave_their_operands(x: Exit)
    ensures
        live_depth(x) <= x.depth,
        live_depth(x) <= x.area@.len(),
        live_depth(x) == x.depth || live_depth(x) == x.area@.len(),
{
}

/// A slot's kind has moved when the code was compiled for an unboxed kind and the value is of
/// another.
pub proof fn lemma_kinds_move(kinds: Seq<Kind>, slots: Seq<Value>, s: int)
    requires
        0 <= s,
    ensures
        s >= kinds.len() || s >= slots.len() ==> !kind_moved(kinds, slots, s),
        s < kinds.len() && s < slots.len() ==> {
            &&& kinds[s] is Boxed ==> !kind_moved(kinds, slots, s)
            &&& kinds[s] is Num ==> (kind_moved(kinds, slots, s) <==> !(slots[s] is Num))
            &&& kinds[s] is Bool ==> (kind_moved(kinds, slots, s) <==> !(slots[s] is Bool))
        },
{
}

/// A new loop has no code and nothing against it.
pub proof fn lemma_new_loops(header: u32, backedge: u32)
    ensures
        fresh_loop(header, backedge).header == header,
        fresh_loop(header, backedge).backedge == backedge,
        fresh_loop(header, backedge).code is None,
        fresh_loop(header, backedge).compiles == 0,
        fresh_loop(header, backedge).entry_fails == 0,
        no_direct().entry == 0 && no_direct().size == 0 && no_direct().code == 0,
{
}

/// A direct call's record says which function runs, from where and how, and that no frame stands
/// for it yet.
pub proof fn lemma_direct_calls_are_recorded(cx: CallCx, c: Callee)
    ensures
        direct_rec(cx, c).fn_ptr == c.fn_ptr,
        direct_rec(cx, c).strict == c.strict,
        direct_rec(cx, c).site == cx.cur_site,
        direct_rec(cx, c).coro == cx.cur_coro,
        !direct_rec(cx, c).construct,
        !direct_rec(cx, c).synced,
        c.kept_params() <= c.n_params && c.kept_params() <= c.n_slots,
        c.kept_params() == c.n_params || c.kept_params() == c.n_slots,
{
}

/// The frames of records are those of their functions, in order, without more.
pub proof fn lemma_records_stand_for_frames(recs: Seq<CallRec>, k: nat, i: int)
    requires
        k <= recs.len(),
    ensures
        frames_from(recs, k).len() == recs.len() - k,
        0 <= i < recs.len() - k ==> {
            let f = frames_from(recs, k)[i];
            let r = recs[k + i];
            &&& f.fn_ptr == r.fn_ptr
            &&& f.caller_site == r.site
            &&& f.coro == r.coro
            &&& f.strict == r.strict
            &&& f.construct == r.construct
            &&& f.extra is None
        },
{
}

/// A planned construction writes each argument's word to the entry that takes it, and drops the
/// owned arguments that no entry takes, each once.
pub proof fn lemma_planned_arguments_move(
    site: NewSite,
    args: Seq<Operand>,
    r: NewStores,
    i: int,
    j: int,
)
    requires
        moves_args(site, args, r),
    ensures
        r.words@.len() == site.stores@.len(),
        0 <= i < site.stores@.len() ==> r.words@[i].0 == site.stores@[i].0,
        0 <= i < site.stores@.len() ==> match args[site.stores@[i].1 as int] {
            Operand::Num(n) => r.words@[i].1 == word_of_num(n),
            Operand::Bool(b) => r.words@[i].1 == word_of_bool(b),
            Operand::Boxed(v) => r.words@[i].1 == packed(v),
            Operand::Ref(v) => r.words@[i].1 == packed(v),
            Operand::Pinned => true,
        },
        0 <= i < j < r.drops@.len() ==> r.drops@[i] != r.drops@[j],
        0 <= i < r.drops@.len() ==> r.drops@[i] < args.len() && args[r.drops@[i] as int] is Boxed,
{
    if 0 <= i < site.stores@.len() {
        assert(r.words@[i] == (
            site.stores@[i].0,
            crate::bytecode::jit::new_plan::arg_word(args[site.stores@[i].1 as int]),
        ));
    }
    if 0 <= i < r.drops@.len() {
        let a = r.drops@[i] as int;
        assert(r.drops@[i] < args.len());
        assert(r.drops@.contains(a as usize));
    }
}

} // verus!
