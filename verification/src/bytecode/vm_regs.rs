//! The interpreter loop's working state: the pc and the operand stack, which are written back to
//! the running frame when the loop leaves, and values as the two words they are stored as.

use crate::value::Value;
use vstd::prelude::*;

verus! {

/// The working pc of the running frame.
pub struct PcReg {
    pub v: usize,
}

impl PcReg {
    /// The pc of a frame.
    pub fn new(pc: usize) -> (r: PcReg)
        ensures
            r.v == pc,
    {
        PcReg { v: pc }
    }

    /// Writes the pc back to its frame.
    pub fn write_back(self, dst: &mut usize)
        ensures
            *final(dst) == self.v,
    {
        *dst = self.v;
    }
}

/// The running frame's operand stack.
pub struct VmStack {
    vec: Vec<Value>,
}

impl View for VmStack {
    type V = Seq<Value>;

    closed spec fn view(&self) -> Seq<Value> {
        self.vec@
    }
}

impl VmStack {
    /// Takes over a frame's values.
    pub fn new(vec: Vec<Value>) -> (r: VmStack)
        ensures
            r@ == vec@,
    {
        VmStack { vec }
    }

    /// Gives the values back to the frame.
    pub fn into_vec(self) -> (r: Vec<Value>)
        ensures
            r@ == self@,
    {
        self.vec
    }

    /// Switches to another frame's values, and gives the present ones back.
    pub fn attach(&mut self, vec: Vec<Value>) -> (r: Vec<Value>)
        ensures
            final(self)@ == vec@,
            r@ == old(self)@,
    {
        let mut other = vec;
        std::mem::swap(&mut other, &mut self.vec);
        other
    }

    /// The number of values.
    pub fn len(&self) -> (r: usize)
        ensures
            r == self@.len(),
    {
        self.vec.len()
    }

    /// Pushes a value.
    pub fn push(&mut self, v: Value)
        ensures
            final(self)@ == old(self)@.push(v),
    {
        self.vec.push(v);
    }

    /// Pushes a Number.
    pub fn push_num(&mut self, x: u64)
        ensures
            final(self)@ == old(self)@.push(Value::Num(x)),
    {
        self.vec.push(write_num(x));
    }

    /// Pushes a Boolean.
    pub fn push_bool(&mut self, b: bool)
        ensures
            final(self)@ == old(self)@.push(Value::Bool(b)),
    {
        self.vec.push(write_bool(b));
    }

    /// Pushes a value without a payload, by its tag.
    pub fn push_tag(&mut self, tag: u8)
        requires
            tag <= 2,
        ensures
            final(self)@ == old(self)@.push(tag_value(tag)),
    {
        self.vec.push(write_tag(tag));
    }

    /// Pops the top value.
    pub fn pop(&mut self) -> (r: Option<Value>)
        ensures
            if old(self)@.len() == 0 {
                r is None && final(self)@ == old(self)@
            } else {
                r == Some(old(self)@.last()) && final(self)@ == old(self)@.drop_last()
            },
    {
        self.vec.pop()
    }

    /// Pops the top value of a stack that has one.
    pub fn pop_val(&mut self) -> (r: Value)
        requires
            old(self)@.len() > 0,
        ensures
            r == old(self)@.last(),
            final(self)@ == old(self)@.drop_last(),
    {
        let n: usize = self.vec.len();
        let v = self.vec.remove(n - 1);
        assert(self.vec@ =~= old(self).vec@.drop_last());
        v
    }

    /// Drops the top value of a stack that has one.
    pub fn discard(&mut self)
        requires
            old(self)@.len() > 0,
        ensures
            final(self)@ == old(self)@.drop_last(),
    {
        let _ = self.pop_val();
    }

    /// The top value.
    pub fn last(&self) -> (r: Option<&Value>)
        ensures
            match r {
                Some(v) => self@.len() > 0 && *v == self@.last(),
                None => self@.len() == 0,
            },
    {
        let n: usize = self.vec.len();
        if n == 0 {
            None
        } else {
            Some(&self.vec[n - 1])
        }
    }

    /// The `k`-th value from the top.
    pub fn peek(&self, k: usize) -> (r: &Value)
        requires
            k < self@.len(),
        ensures
            *r == self@[self@.len() - 1 - k],
    {
        let n: usize = self.vec.len();
        &self.vec[n - 1 - k]
    }

    /// The `i`-th value from the bottom.
    pub fn get(&self, i: usize) -> (r: &Value)
        requires
            i < self@.len(),
        ensures
            *r == self@[i as int],
    {
        &self.vec[i]
    }

    /// Replaces the `i`-th value from the bottom.
    pub fn replace(&mut self, i: usize, v: Value)
        requires
            i < old(self)@.len(),
        ensures
            final(self)@ == old(self)@.update(i as int, v),
    {
        self.vec.set(i, v);
    }

    /// Drops the values above the first `n`.
    pub fn truncate(&mut self, n: usize)
        ensures
            final(self)@ == if n < old(self)@.len() {
                old(self)@.take(n as int)
            } else {
                old(self)@
            },
    {
        self.vec.truncate(n);
    }

    /// Takes the values from the `at`-th on.
    pub fn split_off(&mut self, at: usize) -> (r: Vec<Value>)
        requires
            at <= old(self)@.len(),
        ensures
            final(self)@ == old(self)@.take(at as int),
            r@ == old(self)@.skip(at as int),
    {
        let r = self.vec.split_off(at);
        assert(r@ =~= old(self).vec@.skip(at as int));
        r
    }
}

/// A value as it is stored: the tag in the low byte of the first word, a Boolean in the byte
/// above it, and a Number in the second word.
#[derive(Clone, Copy, Debug, PartialEq, Eq, Structural)]
pub struct Words {
    pub low: u64,
    pub high: u64,
}

/// The tag of a Boolean.
pub const TAG_BOOL: u64 = 3;

/// The tag of a Number.
pub const TAG_NUM: u64 = 4;

/// The value without a payload that a tag stands for.
pub open spec fn tag_value(tag: u8) -> Value {
    if tag == 0 {
        Value::Undefined
    } else if tag == 1 {
        Value::Empty
    } else {
        Value::Null
    }
}

/// The words of a value that owns nothing.
pub open spec fn words_of(v: Value) -> Option<Words> {
    match v {
        Value::Undefined => Some(Words { low: 0, high: 0 }),
        Value::Empty => Some(Words { low: 1, high: 0 }),
        Value::Null => Some(Words { low: 2, high: 0 }),
        Value::Bool(b) => Some(
            Words {
                low: if b {
                    (TAG_BOOL + 256) as u64
                } else {
                    TAG_BOOL
                },
                high: 0,
            },
        ),
        Value::Num(x) => Some(Words { low: TAG_NUM, high: x }),
        _ => None,
    }
}

/// The value that words are, where it owns nothing.
pub fn read_words(w: Words) -> (r: Option<Value>)
    ensures
        r == value_of(w),
{
    let tag: u64 = w.low % 256;
    if tag == 0 {
        Some(Value::Undefined)
    } else if tag == 1 {
        Some(Value::Empty)
    } else if tag == 2 {
        Some(Value::Null)
    } else if tag == TAG_BOOL {
        Some(Value::Bool((w.low / 256) % 256 != 0))
    } else if tag == TAG_NUM {
        Some(Value::Num(w.high))
    } else {
        None
    }
}

/// The value that words are, where it owns nothing.
pub open spec fn value_of(w: Words) -> Option<Value> {
    let tag = w.low % 256;
    if tag == 0 {
        Some(Value::Undefined)
    } else if tag == 1 {
        Some(Value::Empty)
    } else if tag == 2 {
        Some(Value::Null)
    } else if tag == TAG_BOOL {
        Some(Value::Bool((w.low / 256) % 256 != 0))
    } else if tag == TAG_NUM {
        Some(Value::Num(w.high))
    } else {
        None
    }
}

/// The words of a Number, written at once.
pub fn num_words(x: u64) -> (r: Words)
    ensures
        words_of(Value::Num(x)) == Some(r),
{
    Words { low: TAG_NUM, high: x }
}

/// The words of a Boolean, written at once.
pub fn bool_words(b: bool) -> (r: Words)
    ensures
        words_of(Value::Bool(b)) == Some(r),
{
    Words {
        low: if b {
            TAG_BOOL + 256
        } else {
            TAG_BOOL
        },
        high: 0,
    }
}

/// The words of a value without a payload, written at once.
pub fn tag_words(tag: u8) -> (r: Words)
    requires
        tag <= 2,
    ensures
        words_of(tag_value(tag)) == Some(r),
{
    Words { low: tag as u64, high: 0 }
}

/// Words written for a value read back as it.
pub proof fn lemma_words_read_back(v: Value)
    ensures
        words_of(v) matches Some(w) ==> value_of(w) == Some(v),
{
}

/// The Number that a full-width write leaves.
pub fn write_num(x: u64) -> (r: Value)
    ensures
        r == Value::Num(x),
{
    proof {
        lemma_words_read_back(Value::Num(x));
    }
    match read_words(num_words(x)) {
        Some(v) => v,
        None => Value::Num(x),
    }
}

/// The Boolean that a full-width write leaves.
pub fn write_bool(b: bool) -> (r: Value)
    ensures
        r == Value::Bool(b),
{
    proof {
        lemma_words_read_back(Value::Bool(b));
    }
    match read_words(bool_words(b)) {
        Some(v) => v,
        None => Value::Bool(b),
    }
}

/// The value without a payload that a full-width write leaves.
pub fn write_tag(tag: u8) -> (r: Value)
    requires
        tag <= 2,
    ensures
        r == tag_value(tag),
{
    proof {
        lemma_words_read_back(tag_value(tag));
    }
    match read_words(tag_words(tag)) {
        Some(v) => v,
        None => Value::Null,
    }
}

/// Overwrites a slot that holds anything with a Number.
pub fn set_num(slot: &mut Value, x: u64)
    ensures
        *final(slot) == Value::Num(x),
{
    *slot = write_num(x);
}

/// Overwrites a slot.
pub fn set_slot(slot: &mut Value, v: Value)
    ensures
        *final(slot) == v,
{
    *slot = v;
}

/// A copy of a value. One that owns nothing is copied as it is.
pub fn clone_fast(v: &Value) -> (r: Value)
    ensures
        r == *v,
{
    match v {
        Value::Undefined => Value::Undefined,
        Value::Empty => Value::Empty,
        Value::Null => Value::Null,
        Value::Bool(b) => Value::Bool(*b),
        Value::Num(x) => Value::Num(*x),
        other => other.duplicate(),
    }
}

/// Popping undoes a push.
pub proof fn lemma_pop_undoes_push(s: Seq<Value>, v: Value)
    ensures
        s.push(v).last() == v,
        s.push(v).drop_last() == s,
{
    assert(s.push(v).drop_last() =~= s);
}

} // verus!
