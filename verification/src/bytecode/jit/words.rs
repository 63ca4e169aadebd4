//! NaN-boxed words: a property's value in one word. A number is its own bits, with every NaN one
//! word; anything else has a tag in the top sixteen bits and a payload below.

use crate::num::{is_nan, nan};
use vstd::prelude::*;

verus! {

/// The weight of the tag.
pub const TAG_UNIT: u64 = 0x1_0000_0000_0000;

pub const TOP_UNDEFINED: u64 = 0x7ff9;

pub const TOP_EMPTY: u64 = 0x7ffa;

pub const TOP_NULL: u64 = 0x7ffb;

pub const TOP_BOOL: u64 = 0x7ffc;

pub const TOP_BIGINT: u64 = 0x7ffd;

pub const TOP_STR: u64 = 0x7ffe;

pub const TOP_SYM: u64 = 0x7fff;

pub const TOP_OBJ: u64 = 0xfff9;

/// The word of every NaN.
pub const CANON_NAN: u64 = 0x7ff8_0000_0000_0000;

/// A value's tag in memory.
pub const TAG_UNDEFINED: u8 = 0;

pub const TAG_EMPTY: u8 = 1;

pub const TAG_NULL: u8 = 2;

pub const TAG_BOOL: u8 = 3;

pub const TAG_NUM: u8 = 4;

pub const TAG_BIGINT: u8 = 5;

pub const TAG_STR: u8 = 6;

pub const TAG_SYM: u8 = 7;

pub const TAG_OBJ: u8 = 8;

/// A value in memory: the tag, and the double, the Boolean or the handle.
#[derive(Clone, Copy, Debug, PartialEq, Eq, Structural)]
pub struct RawValue {
    pub tag: u8,
    /// The bits of the double, or the handle; 0 for the other tags.
    pub payload: u64,
    /// The Boolean.
    pub flag: bool,
}

impl RawValue {
    /// The tag is one of a value, a handle fits below a word's tag, and nothing else is set than
    /// what the tag says.
    pub open spec fn wf(self) -> bool {
        &&& self.tag <= TAG_OBJ
        &&& self.tag < TAG_NUM ==> self.payload == 0
        &&& self.tag > TAG_NUM ==> self.payload < TAG_UNIT
        &&& self.tag != TAG_BOOL ==> !self.flag
    }

    /// The value owns a counted handle.
    pub open spec fn counted(self) -> bool {
        self.tag > TAG_NUM
    }
}

/// The top sixteen bits of a word.
pub open spec fn top_of(w: u64) -> u64 {
    w / TAG_UNIT
}

/// The bits below the tag.
pub open spec fn payload_of(w: u64) -> u64 {
    w % TAG_UNIT
}

/// Whether a word is a number: below the first tag once the sign is set aside.
pub open spec fn num_bits(w: u64) -> bool {
    top_of(w) % 0x8000 < TOP_UNDEFINED
}

/// Whether a word owns a counted handle.
pub open spec fn counted_word(w: u64) -> bool {
    TOP_BIGINT <= top_of(w) <= TOP_SYM || top_of(w) == TOP_OBJ
}

/// The tag's bits of a value in memory that is no number.
pub open spec fn top_by_tag(tag: u8) -> u64 {
    if tag == TAG_UNDEFINED {
        TOP_UNDEFINED
    } else if tag == TAG_EMPTY {
        TOP_EMPTY
    } else if tag == TAG_NULL {
        TOP_NULL
    } else if tag == TAG_BOOL {
        TOP_BOOL
    } else if tag == TAG_BIGINT {
        TOP_BIGINT
    } else if tag == TAG_STR {
        TOP_STR
    } else if tag == TAG_SYM {
        TOP_SYM
    } else {
        TOP_OBJ
    }
}

/// The word of the number with the given bits.
pub open spec fn word_of_num(bits: u64) -> u64 {
    if nan(bits) {
        CANON_NAN
    } else {
        bits
    }
}

/// The word of a Boolean.
pub open spec fn word_of_bool(b: bool) -> u64 {
    if b {
        (TOP_BOOL * TAG_UNIT + 1) as u64
    } else {
        (TOP_BOOL * TAG_UNIT) as u64
    }
}

/// The word of a value in memory.
pub open spec fn packed(v: RawValue) -> u64 {
    if v.tag == TAG_NUM {
        word_of_num(v.payload)
    } else if v.tag == TAG_BOOL {
        word_of_bool(v.flag)
    } else {
        (top_by_tag(v.tag) * TAG_UNIT + v.payload) as u64
    }
}

/// The value that a word holds.
pub open spec fn unpacked(w: u64) -> RawValue {
    let top = top_of(w);
    if num_bits(w) {
        RawValue { tag: TAG_NUM, payload: w, flag: false }
    } else if top == TOP_UNDEFINED {
        RawValue { tag: TAG_UNDEFINED, payload: 0, flag: false }
    } else if top == TOP_EMPTY {
        RawValue { tag: TAG_EMPTY, payload: 0, flag: false }
    } else if top == TOP_NULL {
        RawValue { tag: TAG_NULL, payload: 0, flag: false }
    } else if top == TOP_BOOL {
        RawValue { tag: TAG_BOOL, payload: 0, flag: payload_of(w) % 2 == 1 }
    } else if top == TOP_BIGINT {
        RawValue { tag: TAG_BIGINT, payload: payload_of(w), flag: false }
    } else if top == TOP_STR {
        RawValue { tag: TAG_STR, payload: payload_of(w), flag: false }
    } else if top == TOP_SYM {
        RawValue { tag: TAG_SYM, payload: payload_of(w), flag: false }
    } else {
        RawValue { tag: TAG_OBJ, payload: payload_of(w), flag: false }
    }
}

/// Whether a word is a number.
pub fn is_num_bits(w: u64) -> (r: bool)
    ensures
        r == num_bits(w),
{
    (w / TAG_UNIT) % 0x8000 < TOP_UNDEFINED
}

/// The number a word holds.
pub fn word_num(w: u64) -> (r: Option<u64>)
    ensures
        r == if num_bits(w) {
            Some(w)
        } else {
            None
        },
{
    if is_num_bits(w) {
        Some(w)
    } else {
        None
    }
}

/// The word of the number with the given bits.
pub fn num_word(bits: u64) -> (r: u64)
    ensures
        r == word_of_num(bits),
{
    if is_nan(bits) {
        CANON_NAN
    } else {
        bits
    }
}

/// The word of a Boolean.
pub fn bool_word(b: bool) -> (r: u64)
    ensures
        r == word_of_bool(b),
{
    if b {
        TOP_BOOL * TAG_UNIT + 1
    } else {
        TOP_BOOL * TAG_UNIT
    }
}

/// Whether the word holds an object, whether a string, and its handle.
pub fn word_counted(w: u64) -> (r: (bool, bool, u64))
    ensures
        r.0 == (top_of(w) == TOP_OBJ),
        r.1 == (top_of(w) == TOP_STR),
        r.2 == payload_of(w),
{
    let top: u64 = w / TAG_UNIT;
    (top == TOP_OBJ, top == TOP_STR, w % TAG_UNIT)
}

/// A word as a value in memory: its tag and payload when it is copied freely (a number,
/// `undefined`, `null` or a Boolean, whose payload is 0 or 1), and whether it is counted
/// instead. None for the marker of a hole.
pub fn word_value(w: u64) -> (r: Option<(u8, u64, bool)>)
    ensures
        r is None <==> !num_bits(w) && top_of(w) != TOP_UNDEFINED && top_of(w) != TOP_NULL
            && top_of(w) != TOP_BOOL && !counted_word(w),
        match r {
            None => true,
            Some((tag, payload, refc)) => {
                &&& refc == counted_word(w)
                &&& !refc ==> {
                    &&& tag == unpacked(w).tag
                    &&& payload == if unpacked(w).tag == TAG_BOOL {
                        if unpacked(w).flag {
                            1u64
                        } else {
                            0u64
                        }
                    } else {
                        unpacked(w).payload
                    }
                }
            },
        },
        top_of(w) == TOP_EMPTY ==> r is None,
{
    let top: u64 = w / TAG_UNIT;
    assert(top <= 0xffff);
    let num = is_num_bits(w);
    let refc = (TOP_BIGINT <= top && top <= TOP_SYM) || top == TOP_OBJ;
    if num {
        assert(!counted_word(w));
        Some((TAG_NUM, w, false))
    } else if top == TOP_UNDEFINED {
        Some((TAG_UNDEFINED, 0, false))
    } else if top == TOP_NULL {
        Some((TAG_NULL, 0, false))
    } else if top == TOP_BOOL {
        Some((TAG_BOOL, (w % TAG_UNIT) % 2, false))
    } else if refc {
        Some((TAG_UNDEFINED, 0, true))
    } else {
        None
    }
}

/// The word of a value in memory.
pub fn value_packed(v: &RawValue) -> (r: u64)
    requires
        v.wf(),
    ensures
        r == packed(*v),
{
    if v.tag == TAG_NUM {
        return num_word(v.payload);
    }
    if v.tag == TAG_BOOL {
        return bool_word(v.flag);
    }
    let top: u64 = if v.tag == TAG_UNDEFINED {
        TOP_UNDEFINED
    } else if v.tag == TAG_EMPTY {
        TOP_EMPTY
    } else if v.tag == TAG_NULL {
        TOP_NULL
    } else if v.tag == TAG_BIGINT {
        TOP_BIGINT
    } else if v.tag == TAG_STR {
        TOP_STR
    } else if v.tag == TAG_SYM {
        TOP_SYM
    } else {
        TOP_OBJ
    };
    top * TAG_UNIT + v.payload
}

/// The value that a word holds.
pub fn value_unpacked(w: u64) -> (r: RawValue)
    ensures
        r == unpacked(w),
{
    let top: u64 = w / TAG_UNIT;
    let payload: u64 = w % TAG_UNIT;
    if is_num_bits(w) {
        RawValue { tag: TAG_NUM, payload: w, flag: false }
    } else if top == TOP_UNDEFINED {
        RawValue { tag: TAG_UNDEFINED, payload: 0, flag: false }
    } else if top == TOP_EMPTY {
        RawValue { tag: TAG_EMPTY, payload: 0, flag: false }
    } else if top == TOP_NULL {
        RawValue { tag: TAG_NULL, payload: 0, flag: false }
    } else if top == TOP_BOOL {
        RawValue { tag: TAG_BOOL, payload: 0, flag: payload % 2 == 1 }
    } else if top == TOP_BIGINT {
        RawValue { tag: TAG_BIGINT, payload, flag: false }
    } else if top == TOP_STR {
        RawValue { tag: TAG_STR, payload, flag: false }
    } else if top == TOP_SYM {
        RawValue { tag: TAG_SYM, payload, flag: false }
    } else {
        RawValue { tag: TAG_OBJ, payload, flag: false }
    }
}

proof fn lemma_tagged(top: u64, payload: u64)
    requires
        top <= 0xffff,
        payload < TAG_UNIT,
    ensures
        top * TAG_UNIT + payload <= u64::MAX,
        top_of((top * TAG_UNIT + payload) as u64) == top,
        payload_of((top * TAG_UNIT + payload) as u64) == payload,
{
    let w = top * TAG_UNIT + payload;
    assert(w / (TAG_UNIT as int) == top && w % (TAG_UNIT as int) == payload) by (nonlinear_arith)
        requires
            w == top * TAG_UNIT + payload,
            0 <= payload < TAG_UNIT,
            TAG_UNIT == 0x1_0000_0000_0000,
    ;
}

proof fn lemma_number_word(bits: u64)
    ensures
        num_bits(word_of_num(bits)),
{
    if nan(bits) {
        assert(top_of(CANON_NAN) == 0x7ff8);
    } else {
        let top = top_of(bits);
        if top % 0x8000 >= TOP_UNDEFINED {
            let e = (bits as int / 0x10_0000_0000_0000int) % 2048;
            assert(top as int / 16 == bits as int / 0x10_0000_0000_0000int);
            assert(e == 2047);
            let f = bits as int % 0x10_0000_0000_0000int;
            assert(f >= 0x9_0000_0000_0000);
            assert(false);
        }
    }
}

/// A value in memory survives boxing into a word, but for a NaN, which becomes the one NaN.
pub proof fn lemma_boxing_round_trip(v: RawValue)
    requires
        v.wf(),
    ensures
        unpacked(packed(v)) == if v.tag == TAG_NUM {
            RawValue { tag: TAG_NUM, payload: word_of_num(v.payload), flag: false }
        } else {
            v
        },
        counted_word(packed(v)) == v.counted(),
{
    if v.tag == TAG_NUM {
        lemma_number_word(v.payload);
        assert(top_of(packed(v)) <= 0xffff);
    } else if v.tag == TAG_BOOL {
        lemma_tagged(
            TOP_BOOL,
            if v.flag {
                1
            } else {
                0
            },
        );
    } else {
        lemma_tagged(top_by_tag(v.tag), v.payload);
    }
}

/// Every number word but the NaNs is the word of the number it reads as.
pub proof fn lemma_number_words(w: u64)
    requires
        num_bits(w),
        !nan(w),
    ensures
        packed(unpacked(w)) == w,
{
}

} // verus!
