//! Converting arguments to host values and results back.

use crate::embed_convert::arg_cx::ArgCx;
use crate::embed_convert::desc::{OpDesc, Slot, OP_COERCE};
use crate::embed_convert::op_error::{new_error, IntoOpError, OpError, OpErrorView};
use crate::num::{
    as_signed, count_of, exact_int, from_int, integer_value, to_count, to_integer, to_uint32, SIGN,
};
use crate::object::{Exotic, Heap};
use crate::value::{big_value, BigInt, Value};
use vstd::prelude::*;

verus! {

/// The largest integer that Numbers below it are exact up to.
pub const MAX_SAFE: i64 = 9007199254740991;

/// A language conversion that an op with coercion asks for first.
#[derive(Clone, Copy, Debug, PartialEq, Eq, Structural)]
pub enum CoerceTo {
    Number,
    Text,
    Truth,
    /// The elements of an array, read one after the other.
    Elements,
}

/// What converting a value comes to.
pub enum Conv<T> {
    Converted(T),
    /// A `TypeError` that says this of the value.
    NotThis(Seq<char>),
    /// A `RangeError` that says this of the value.
    OutOfRange(Seq<char>),
    /// The language's conversion, which may run code, comes first.
    First(CoerceTo),
}

/// Why a conversion gave no value.
pub enum ConvError {
    Error(OpError),
    First(CoerceTo),
}

/// Whether a result is what converting comes to.
pub open spec fn agrees<T>(r: Result<T, ConvError>, c: Conv<T>, d: OpDesc, at: Slot) -> bool {
    match c {
        Conv::Converted(v) => r == Ok::<T, ConvError>(v),
        Conv::NotThis(what) => r matches Err(ConvError::Error(e)) && e@ == new_error(
            "TypeError"@,
            d.complaint(at, what),
        ),
        Conv::OutOfRange(what) => r matches Err(ConvError::Error(e)) && e@ == new_error(
            "RangeError"@,
            d.complaint(at, what),
        ),
        Conv::First(k) => r == Err::<T, ConvError>(ConvError::First(k)),
    }
}

/// A value that an argument converts to.
pub trait FromJs: Sized {
    spec fn converts(cx: ArgCx, heap: Heap, v: Value) -> Conv<Self>;

    fn from_js(cx: &ArgCx, heap: &Heap, v: &Value, at: Slot) -> (r: Result<Self, ConvError>)
        ensures
            agrees(r, Self::converts(*cx, *heap, *v), cx.desc, at),
    ;
}

/// A type that may be the element of an array argument or result: anything but a byte.
pub trait ArrayElem {

}

/// A mismatch: a coercing op asks for the language's conversion, another one throws.
pub open spec fn mismatch<T>(cx: ArgCx, to: CoerceTo, what: Seq<char>) -> Conv<T> {
    if cx.flags & OP_COERCE != 0 {
        Conv::First(to)
    } else {
        Conv::NotThis(what)
    }
}

impl ArgCx {
    fn mismatched(&self, to: CoerceTo, at: Slot, what: &str) -> (r: ConvError)
        ensures
            agrees(Err::<(), ConvError>(r), mismatch::<()>(*self, to, what@), self.desc, at),
    {
        if self.coerce() {
            ConvError::First(to)
        } else {
            ConvError::Error(self.type_error(at, what))
        }
    }

    /// Argument `i`; a missing one is `undefined`.
    pub open spec fn spec_arg(self, i: u32) -> Value {
        if i < self.args@.len() {
            self.args@[i as int]
        } else {
            Value::Undefined
        }
    }

    /// Converts argument `i`; a missing one converts from `undefined`.
    pub fn arg<T: FromJs>(&self, heap: &Heap, i: u32) -> (r: Result<T, ConvError>)
        ensures
            exists|at: Slot|
                at.spec_arg() == i && at.spec_elem() == crate::embed_convert::desc::NO_INDEX
                    && #[trigger] agrees(
                    r,
                    T::converts(*self, *heap, self.spec_arg(i)),
                    self.desc,
                    at,
                ),
    {
        let at = Slot::arg(i);
        if (i as usize) < self.args.len() {
            T::from_js(self, heap, &self.args[i as usize], at)
        } else {
            T::from_js(self, heap, &Value::Undefined, at)
        }
    }

    /// Converts the receiver.
    pub fn this_arg<T: FromJs>(&self, heap: &Heap) -> (r: Result<T, ConvError>)
        ensures
            exists|at: Slot|
                at.is_this() && at.spec_elem() == crate::embed_convert::desc::NO_INDEX
                    && #[trigger] agrees(
                    r,
                    T::converts(*self, *heap, self.this),
                    self.desc,
                    at,
                ),
    {
        T::from_js(self, heap, &self.this, Slot::this())
    }
}

impl FromJs for Value {
    open spec fn converts(cx: ArgCx, heap: Heap, v: Value) -> Conv<Value> {
        Conv::Converted(v)
    }

    fn from_js(cx: &ArgCx, heap: &Heap, v: &Value, at: Slot) -> (r: Result<Value, ConvError>) {
        Ok(v.duplicate())
    }
}

/// A Number, by its bits.
#[derive(Clone, Copy, Debug, PartialEq, Eq, Structural)]
pub struct JsNumber(pub u64);

impl FromJs for JsNumber {
    open spec fn converts(cx: ArgCx, heap: Heap, v: Value) -> Conv<JsNumber> {
        match v {
            Value::Num(n) => Conv::Converted(JsNumber(n)),
            _ => mismatch(cx, CoerceTo::Number, "must be a number"@),
        }
    }

    fn from_js(cx: &ArgCx, heap: &Heap, v: &Value, at: Slot) -> (r: Result<JsNumber, ConvError>) {
        match v {
            Value::Num(n) => Ok(JsNumber(*n)),
            _ => Err(cx.mismatched(CoerceTo::Number, at, "must be a number")),
        }
    }
}

/// The integer of the given width and sign that the Number wraps to.
pub open spec fn wraps_to(bits: u64, modulus: int, signed: bool) -> int {
    let u = to_integer(bits) % modulus;
    if signed && u >= modulus / 2 {
        u - modulus
    } else {
        u
    }
}

impl FromJs for u32 {
    open spec fn converts(cx: ArgCx, heap: Heap, v: Value) -> Conv<u32> {
        match v {
            Value::Num(n) => Conv::Converted(wraps_to(n, 0x1_0000_0000, false) as u32),
            _ => mismatch(cx, CoerceTo::Number, "must be a number"@),
        }
    }

    fn from_js(cx: &ArgCx, heap: &Heap, v: &Value, at: Slot) -> (r: Result<u32, ConvError>) {
        match v {
            Value::Num(n) => Ok(to_uint32(*n)),
            _ => Err(cx.mismatched(CoerceTo::Number, at, "must be a number")),
        }
    }
}

impl FromJs for i32 {
    open spec fn converts(cx: ArgCx, heap: Heap, v: Value) -> Conv<i32> {
        match v {
            Value::Num(n) => Conv::Converted(wraps_to(n, 0x1_0000_0000, true) as i32),
            _ => mismatch(cx, CoerceTo::Number, "must be a number"@),
        }
    }

    fn from_js(cx: &ArgCx, heap: &Heap, v: &Value, at: Slot) -> (r: Result<i32, ConvError>) {
        match v {
            Value::Num(n) => Ok(as_signed(to_uint32(*n))),
            _ => Err(cx.mismatched(CoerceTo::Number, at, "must be a number")),
        }
    }
}

proof fn lemma_narrow(x: int, small: int)
    requires
        small == 0x100 || small == 0x1_0000,
    ensures
        (x % 0x1_0000_0000) % small == x % small,
{
    let q = x / 0x1_0000_0000;
    let r = x % 0x1_0000_0000;
    assert(x == q * 0x1_0000_0000 + r);
    if small == 0x100 {
        assert(r % 0x100 == (r + (q * 0x100_0000) * 0x100) % 0x100) by {
            vstd::arithmetic::div_mod::lemma_mod_multiples_vanish(q * 0x100_0000, r, 0x100);
        }
    } else {
        assert(r % 0x1_0000 == (r + (q * 0x1_0000) * 0x1_0000) % 0x1_0000) by {
            vstd::arithmetic::div_mod::lemma_mod_multiples_vanish(q * 0x1_0000, r, 0x1_0000);
        }
    }
}

impl FromJs for u8 {
    open spec fn converts(cx: ArgCx, heap: Heap, v: Value) -> Conv<u8> {
        match v {
            Value::Num(n) => Conv::Converted(wraps_to(n, 0x100, false) as u8),
            _ => mismatch(cx, CoerceTo::Number, "must be a number"@),
        }
    }

    fn from_js(cx: &ArgCx, heap: &Heap, v: &Value, at: Slot) -> (r: Result<u8, ConvError>) {
        match v {
            Value::Num(n) => {
                proof {
                    lemma_narrow(to_integer(*n), 0x100);
                }
                Ok((to_uint32(*n) % 0x100) as u8)
            },
            _ => Err(cx.mismatched(CoerceTo::Number, at, "must be a number")),
        }
    }
}

impl FromJs for i8 {
    open spec fn converts(cx: ArgCx, heap: Heap, v: Value) -> Conv<i8> {
        match v {
            Value::Num(n) => Conv::Converted(wraps_to(n, 0x100, true) as i8),
            _ => mismatch(cx, CoerceTo::Number, "must be a number"@),
        }
    }

    fn from_js(cx: &ArgCx, heap: &Heap, v: &Value, at: Slot) -> (r: Result<i8, ConvError>) {
        match v {
            Value::Num(n) => {
                proof {
                    lemma_narrow(to_integer(*n), 0x100);
                }
                let u: i32 = (to_uint32(*n) % 0x100) as i32;
                Ok(
                    if u >= 0x80 {
                        (u - 0x100) as i8
                    } else {
                        u as i8
                    },
                )
            },
            _ => Err(cx.mismatched(CoerceTo::Number, at, "must be a number")),
        }
    }
}

impl FromJs for u16 {
    open spec fn converts(cx: ArgCx, heap: Heap, v: Value) -> Conv<u16> {
        match v {
            Value::Num(n) => Conv::Converted(wraps_to(n, 0x1_0000, false) as u16),
            _ => mismatch(cx, CoerceTo::Number, "must be a number"@),
        }
    }

    fn from_js(cx: &ArgCx, heap: &Heap, v: &Value, at: Slot) -> (r: Result<u16, ConvError>) {
        match v {
            Value::Num(n) => {
                proof {
                    lemma_narrow(to_integer(*n), 0x1_0000);
                }
                Ok((to_uint32(*n) % 0x1_0000) as u16)
            },
            _ => Err(cx.mismatched(CoerceTo::Number, at, "must be a number")),
        }
    }
}

impl FromJs for i16 {
    open spec fn converts(cx: ArgCx, heap: Heap, v: Value) -> Conv<i16> {
        match v {
            Value::Num(n) => Conv::Converted(wraps_to(n, 0x1_0000, true) as i16),
            _ => mismatch(cx, CoerceTo::Number, "must be a number"@),
        }
    }

    fn from_js(cx: &ArgCx, heap: &Heap, v: &Value, at: Slot) -> (r: Result<i16, ConvError>) {
        match v {
            Value::Num(n) => {
                proof {
                    lemma_narrow(to_integer(*n), 0x1_0000);
                }
                let u: i32 = (to_uint32(*n) % 0x1_0000) as i32;
                Ok(
                    if u >= 0x8000 {
                        (u - 0x1_0000) as i16
                    } else {
                        u as i16
                    },
                )
            },
            _ => Err(cx.mismatched(CoerceTo::Number, at, "must be a number")),
        }
    }
}

/// The integer that an integer argument is: a safe-integer Number or a BigInt, within the bounds.
pub open spec fn int_between(cx: ArgCx, v: Value, min: int, max: int) -> Conv<int> {
    match v {
        Value::BigInt(b) => if min <= big_value(b) <= max {
            Conv::Converted(big_value(b))
        } else {
            Conv::OutOfRange("is out of range"@)
        },
        Value::Num(n) => match integer_value(n) {
            Some(x) => if -MAX_SAFE <= x <= MAX_SAFE {
                if min <= x <= max {
                    Conv::Converted(x)
                } else {
                    Conv::OutOfRange("is out of range"@)
                }
            } else {
                Conv::OutOfRange("must be a safe integer"@)
            },
            None => Conv::OutOfRange("must be a safe integer"@),
        },
        _ => mismatch(cx, CoerceTo::Number, "must be an integer (number or bigint)"@),
    }
}

/// The same outcome for another integer type.
pub open spec fn narrowed<T>(c: Conv<int>, to: spec_fn(int) -> T) -> Conv<T> {
    match c {
        Conv::Converted(x) => Conv::Converted(to(x)),
        Conv::NotThis(w) => Conv::NotThis(w),
        Conv::OutOfRange(w) => Conv::OutOfRange(w),
        Conv::First(k) => Conv::First(k),
    }
}

impl ArgCx {
    /// A 64-bit integer argument.
    fn int64(&self, v: &Value, at: Slot, min: i128, max: i128) -> (r: Result<i128, ConvError>)
        requires
            -0x8000_0000_0000_0000 <= min <= max <= 0xffff_ffff_ffff_ffff,
        ensures
            agrees(
                r,
                narrowed(int_between(*self, *v, min as int, max as int), |x: int| x as i128),
                self.desc,
                at,
            ),
    {
        let n: i128 = match v {
            Value::BigInt(b) => match b.magnitude() {
                Some(m) => if b.negative {
                    -(m as i128)
                } else {
                    m as i128
                },
                None => {
                    return Err(ConvError::Error(self.range_error(at, "is out of range")));
                },
            },
            Value::Num(bits) => match exact_int(*bits) {
                Some(x) => {
                    if x < -MAX_SAFE || x > MAX_SAFE {
                        return Err(
                            ConvError::Error(self.range_error(at, "must be a safe integer")),
                        );
                    }
                    x as i128
                },
                None => {
                    return Err(ConvError::Error(self.range_error(at, "must be a safe integer")));
                },
            },
            _ => {
                return Err(
                    self.mismatched(
                        CoerceTo::Number,
                        at,
                        "must be an integer (number or bigint)",
                    ),
                );
            },
        };
        if n < min || n > max {
            return Err(ConvError::Error(self.range_error(at, "is out of range")));
        }
        Ok(n)
    }
}

impl FromJs for i64 {
    open spec fn converts(cx: ArgCx, heap: Heap, v: Value) -> Conv<i64> {
        narrowed(int_between(cx, v, i64::MIN as int, i64::MAX as int), |x: int| x as i64)
    }

    fn from_js(cx: &ArgCx, heap: &Heap, v: &Value, at: Slot) -> (r: Result<i64, ConvError>) {
        match cx.int64(v, at, i64::MIN as i128, i64::MAX as i128) {
            Ok(n) => Ok(n as i64),
            Err(e) => Err(e),
        }
    }
}

impl FromJs for u64 {
    open spec fn converts(cx: ArgCx, heap: Heap, v: Value) -> Conv<u64> {
        narrowed(int_between(cx, v, 0, u64::MAX as int), |x: int| x as u64)
    }

    fn from_js(cx: &ArgCx, heap: &Heap, v: &Value, at: Slot) -> (r: Result<u64, ConvError>) {
        match cx.int64(v, at, 0, u64::MAX as i128) {
            Ok(n) => Ok(n as u64),
            Err(e) => Err(e),
        }
    }
}

/// A 64-bit integer that is always a BigInt as a result.
#[derive(Clone, Copy, Debug, PartialEq, Eq, PartialOrd, Ord, Hash, Structural)]
pub struct BigI64(pub i64);

/// The unsigned counterpart of [`BigI64`].
#[derive(Clone, Copy, Debug, PartialEq, Eq, PartialOrd, Ord, Hash, Structural)]
pub struct BigU64(pub u64);

impl FromJs for BigI64 {
    open spec fn converts(cx: ArgCx, heap: Heap, v: Value) -> Conv<BigI64> {
        narrowed(int_between(cx, v, i64::MIN as int, i64::MAX as int), |x: int| BigI64(x as i64))
    }

    fn from_js(cx: &ArgCx, heap: &Heap, v: &Value, at: Slot) -> (r: Result<BigI64, ConvError>) {
        match cx.int64(v, at, i64::MIN as i128, i64::MAX as i128) {
            Ok(n) => Ok(BigI64(n as i64)),
            Err(e) => Err(e),
        }
    }
}

impl FromJs for BigU64 {
    open spec fn converts(cx: ArgCx, heap: Heap, v: Value) -> Conv<BigU64> {
        narrowed(int_between(cx, v, 0, u64::MAX as int), |x: int| BigU64(x as u64))
    }

    fn from_js(cx: &ArgCx, heap: &Heap, v: &Value, at: Slot) -> (r: Result<BigU64, ConvError>) {
        match cx.int64(v, at, 0, u64::MAX as i128) {
            Ok(n) => Ok(BigU64(n as u64)),
            Err(e) => Err(e),
        }
    }
}

impl FromJs for bool {
    open spec fn converts(cx: ArgCx, heap: Heap, v: Value) -> Conv<bool> {
        match v {
            Value::Bool(b) => Conv::Converted(b),
            _ => mismatch(cx, CoerceTo::Truth, "must be a boolean"@),
        }
    }

    fn from_js(cx: &ArgCx, heap: &Heap, v: &Value, at: Slot) -> (r: Result<bool, ConvError>) {
        match v {
            Value::Bool(b) => Ok(*b),
            _ => Err(cx.mismatched(CoerceTo::Truth, at, "must be a boolean")),
        }
    }
}

impl FromJs for String {
    open spec fn converts(cx: ArgCx, heap: Heap, v: Value) -> Conv<String> {
        match v {
            Value::Str(s) => Conv::Converted(s),
            _ => mismatch(cx, CoerceTo::Text, "must be a string"@),
        }
    }

    fn from_js(cx: &ArgCx, heap: &Heap, v: &Value, at: Slot) -> (r: Result<String, ConvError>) {
        match v {
            Value::Str(s) => Ok(s.clone()),
            _ => Err(cx.mismatched(CoerceTo::Text, at, "must be a string")),
        }
    }
}

impl<T: FromJs> FromJs for Option<T> {
    open spec fn converts(cx: ArgCx, heap: Heap, v: Value) -> Conv<Option<T>> {
        match v {
            Value::Undefined | Value::Null => Conv::Converted(None),
            _ => match T::converts(cx, heap, v) {
                Conv::Converted(x) => Conv::Converted(Some(x)),
                Conv::NotThis(w) => Conv::NotThis(w),
                Conv::OutOfRange(w) => Conv::OutOfRange(w),
                Conv::First(k) => Conv::First(k),
            },
        }
    }

    fn from_js(cx: &ArgCx, heap: &Heap, v: &Value, at: Slot) -> (r: Result<Option<T>, ConvError>) {
        match v {
            Value::Undefined | Value::Null => Ok(None),
            _ => match T::from_js(cx, heap, v, at) {
                Ok(x) => Ok(Some(x)),
                Err(e) => Err(e),
            },
        }
    }
}

/// An object, functions among them.
#[derive(Debug)]
pub struct JsObject(Value);

impl JsObject {
    pub closed spec fn inner(self) -> Value {
        self.0
    }

    pub fn value(&self) -> (r: &Value)
        ensures
            *r == self.inner(),
    {
        &self.0
    }

    pub fn into_value(self) -> (r: Value)
        ensures
            r == self.inner(),
    {
        self.0
    }

    /// The object that a value is.
    pub fn from_value(v: Value) -> (r: Option<JsObject>)
        ensures
            match r {
                Some(o) => v is Obj && o.inner() == v,
                None => !(v is Obj),
            },
    {
        match v {
            Value::Obj(_) => Some(JsObject(v)),
            _ => None,
        }
    }

    /// What reading one of its properties gave: a thrown value is passed on as it is.
    pub fn get(&self, read: Result<Value, Value>) -> (r: Result<Value, OpError>)
        ensures
            match read {
                Ok(v) => r == Ok::<Value, OpError>(v),
                Err(e) => r matches Err(t) && t@ == OpErrorView::Thrown(e),
            },
    {
        match read {
            Ok(v) => Ok(v),
            Err(e) => Err(OpError::thrown(e)),
        }
    }
}

/// A callable value.
#[derive(Debug)]
pub struct JsFunction(Value);

impl JsFunction {
    pub closed spec fn inner(self) -> Value {
        self.0
    }

    pub fn value(&self) -> (r: &Value)
        ensures
            *r == self.inner(),
    {
        &self.0
    }

    pub fn into_value(self) -> (r: Value)
        ensures
            r == self.inner(),
    {
        self.0
    }

    /// The function that a value is.
    pub fn from_value(heap: &Heap, v: Value) -> (r: Option<JsFunction>)
        ensures
            match r {
                Some(f) => heap.spec_callable(v) && f.inner() == v,
                None => !heap.spec_callable(v),
            },
    {
        if heap.is_callable(&v) {
            Some(JsFunction(v))
        } else {
            None
        }
    }

    /// What calling it gave: a thrown value is passed on as it is.
    pub fn call(&self, ran: Result<Value, Value>) -> (r: Result<Value, OpError>)
        ensures
            match ran {
                Ok(v) => r == Ok::<Value, OpError>(v),
                Err(e) => r matches Err(t) && t@ == OpErrorView::Thrown(e),
            },
    {
        match ran {
            Ok(v) => Ok(v),
            Err(e) => Err(OpError::thrown(e)),
        }
    }
}

impl FromJs for JsObject {
    closed spec fn converts(cx: ArgCx, heap: Heap, v: Value) -> Conv<JsObject> {
        match v {
            Value::Obj(_) => Conv::Converted(JsObject(v)),
            _ => Conv::NotThis("must be an object"@),
        }
    }

    fn from_js(cx: &ArgCx, heap: &Heap, v: &Value, at: Slot) -> (r: Result<JsObject, ConvError>)
        ensures
            r matches Ok(o) ==> o.inner() == *v,
            r is Ok <==> *v is Obj,
    {
        match v {
            Value::Obj(_) => Ok(JsObject(v.duplicate())),
            _ => Err(ConvError::Error(cx.type_error(at, "must be an object"))),
        }
    }
}

impl FromJs for JsFunction {
    closed spec fn converts(cx: ArgCx, heap: Heap, v: Value) -> Conv<JsFunction> {
        if heap.spec_callable(v) {
            Conv::Converted(JsFunction(v))
        } else {
            Conv::NotThis("must be a function"@)
        }
    }

    fn from_js(cx: &ArgCx, heap: &Heap, v: &Value, at: Slot) -> (r: Result<JsFunction, ConvError>)
        ensures
            r matches Ok(f) ==> f.inner() == *v,
            r is Ok <==> heap.spec_callable(*v),
    {
        if heap.is_callable(v) {
            Ok(JsFunction(v.duplicate()))
        } else {
            Err(ConvError::Error(cx.type_error(at, "must be a function")))
        }
    }
}

impl ArrayElem for Value {

}

impl ArrayElem for JsNumber {

}

impl ArrayElem for i8 {

}

impl ArrayElem for i16 {

}

impl ArrayElem for u16 {

}

impl ArrayElem for i32 {

}

impl ArrayElem for u32 {

}

impl ArrayElem for i64 {

}

impl ArrayElem for u64 {

}

impl ArrayElem for bool {

}

impl ArrayElem for String {

}

impl ArrayElem for JsObject {

}

impl ArrayElem for JsFunction {

}

impl ArrayElem for BigI64 {

}

impl ArrayElem for BigU64 {

}

/// Whether a value is an array.
pub open spec fn array_value(heap: Heap, v: Value) -> bool {
    v matches Value::Obj(o) && heap.has(o) && heap.at(o).exotic == Exotic::Array
}

impl<T: FromJs + ArrayElem> FromJs for Vec<T> {
    /// An array's elements are read first, as the language does (getters run); [`convert_elems`]
    /// converts them then.
    open spec fn converts(cx: ArgCx, heap: Heap, v: Value) -> Conv<Vec<T>> {
        if array_value(heap, v) {
            Conv::First(CoerceTo::Elements)
        } else {
            Conv::NotThis("must be an array"@)
        }
    }

    fn from_js(cx: &ArgCx, heap: &Heap, v: &Value, at: Slot) -> (r: Result<Vec<T>, ConvError>) {
        if let Value::Obj(o) = v {
            if heap.holds(*o) && heap.get(*o).exotic == Exotic::Array {
                return Err(ConvError::First(CoerceTo::Elements));
            }
        }
        Err(ConvError::Error(cx.type_error(at, "must be an array")))
    }
}

/// How many elements of an array are read, given its `length`.
pub open spec fn spec_element_count(len: Value) -> int {
    match len {
        Value::Num(n) => count_of(n),
        _ => 0,
    }
}

/// How many elements of an array are read, given its `length`.
pub fn element_count(len: &Value) -> (r: usize)
    ensures
        r == spec_element_count(*len),
{
    match len {
        Value::Num(n) => to_count(*n),
        _ => 0,
    }
}

/// Converts the elements of an array argument, up to the first that fails, which is named by its
/// index, cut to 32 bits.
pub fn convert_elems<T: FromJs + ArrayElem>(
    cx: &ArgCx,
    heap: &Heap,
    items: &Vec<Value>,
    at: Slot,
) -> (r: Result<Vec<T>, ConvError>)
    ensures
        match r {
            Ok(out) => {
                &&& out@.len() == items@.len()
                &&& forall|i: int|
                    0 <= i < items@.len() ==> T::converts(*cx, *heap, items@[i])
                        == Conv::Converted(#[trigger] out@[i])
            },
            Err(e) => exists|i: int, s: Slot|
                0 <= i < items@.len() && s.spec_arg() == at.spec_arg() && s.spec_elem() == i as u32
                    && #[trigger] agrees(
                    Err::<T, ConvError>(e),
                    T::converts(*cx, *heap, items@[i]),
                    cx.desc,
                    s,
                ) && forall|j: int|
                    0 <= j < i ==> T::converts(*cx, *heap, #[trigger] items@[j]) is Converted,
        },
{
    let mut out: Vec<T> = Vec::new();
    let mut k: usize = 0;
    while k < items.len()
        invariant
            k <= items@.len(),
            out@.len() == k,
            forall|i: int|
                0 <= i < k ==> T::converts(*cx, *heap, items@[i]) == Conv::Converted(
                    #[trigger] out@[i],
                ),
        decreases items@.len() - k,
    {
        let s = at.elem(k as u32);
        match T::from_js(cx, heap, &items[k], s) {
            Ok(v) => {
                out.push(v);
            },
            Err(e) => {
                proof {
                    assert(agrees(
                        Err::<T, ConvError>(e),
                        T::converts(*cx, *heap, items@[k as int]),
                        cx.desc,
                        s,
                    ));
                    assert forall|j: int| 0 <= j < k implies T::converts(
                        *cx,
                        *heap,
                        #[trigger] items@[j],
                    ) is Converted by {
                        assert(T::converts(*cx, *heap, items@[j]) == Conv::Converted(out@[j]));
                    }
                }
                return Err(e);
            },
        }
        k = k + 1;
    }
    Ok(out)
}

/// What a result converts to.
pub enum IntoConv {
    Made(Value),
    /// A text, or anything else that is only known up to what it says.
    Text(Seq<char>),
    /// A BigInt of this value.
    Big(int),
    /// A Number of this integer.
    Int(int),
    /// A `RangeError` for a result with this magnitude.
    TooLarge(bool, nat),
    /// The error that is thrown.
    Throws(OpErrorView),
}

/// Whether converting comes to a value.
pub open spec fn succeeds(c: IntoConv) -> bool {
    !(c is TooLarge) && !(c is Throws)
}

/// Whether a result is what converting comes to.
pub open spec fn made(r: Result<Value, OpError>, c: IntoConv) -> bool {
    match c {
        IntoConv::Made(v) => r == Ok::<Value, OpError>(v),
        IntoConv::Text(s) => r matches Ok(Value::Str(t)) && t@ == s,
        IntoConv::Big(x) => r matches Ok(Value::BigInt(b)) && big_value(b) == x
            && b.deep_view().wf(),
        IntoConv::Int(x) => r matches Ok(Value::Num(n)) && integer_value(n) == Some(x),
        IntoConv::TooLarge(negative, magnitude) => r matches Err(e) && e@ == new_error(
            "RangeError"@,
            too_large_text(negative, magnitude),
        ),
        IntoConv::Throws(v) => r matches Err(e) && e@ == v,
    }
}

/// What the error of a result beyond the safe integers says.
pub open spec fn too_large_text(negative: bool, magnitude: nat) -> Seq<char> {
    "result "@ + (if negative {
        seq!['-']
    } else {
        Seq::<char>::empty()
    }) + crate::text::dec_digits(magnitude)
        + " exceeds Number.MAX_SAFE_INTEGER (return BigI64/BigU64)"@
}

/// A value that a result converts from.
pub trait IntoJs: Sized {
    spec fn makes(self) -> IntoConv;

    /// Whether the conversion may run code.
    spec fn runs_js() -> bool;

    /// Whether the conversion may run code.
    fn may_run_js() -> (r: bool)
        ensures
            r == Self::runs_js(),
    ;

    fn into_js(self) -> (r: Result<Value, OpError>)
        ensures
            made(r, self.makes()),
    ;
}

impl IntoJs for () {
    open spec fn makes(self) -> IntoConv {
        IntoConv::Made(Value::Undefined)
    }

    open spec fn runs_js() -> bool {
        false
    }

    fn may_run_js() -> (r: bool) {
        false
    }

    fn into_js(self) -> (r: Result<Value, OpError>) {
        Ok(Value::Undefined)
    }
}

impl IntoJs for Value {
    open spec fn makes(self) -> IntoConv {
        IntoConv::Made(self)
    }

    open spec fn runs_js() -> bool {
        false
    }

    fn may_run_js() -> (r: bool) {
        false
    }

    fn into_js(self) -> (r: Result<Value, OpError>) {
        Ok(self)
    }
}

impl IntoJs for bool {
    open spec fn makes(self) -> IntoConv {
        IntoConv::Made(Value::Bool(self))
    }

    open spec fn runs_js() -> bool {
        false
    }

    fn may_run_js() -> (r: bool) {
        false
    }

    fn into_js(self) -> (r: Result<Value, OpError>) {
        Ok(Value::Bool(self))
    }
}

impl IntoJs for JsNumber {
    open spec fn makes(self) -> IntoConv {
        IntoConv::Made(Value::Num(self.0))
    }

    open spec fn runs_js() -> bool {
        false
    }

    fn may_run_js() -> (r: bool) {
        false
    }

    fn into_js(self) -> (r: Result<Value, OpError>) {
        Ok(Value::Num(self.0))
    }
}

impl IntoJs for String {
    open spec fn makes(self) -> IntoConv {
        IntoConv::Text(self@)
    }

    open spec fn runs_js() -> bool {
        false
    }

    fn may_run_js() -> (r: bool) {
        false
    }

    fn into_js(self) -> (r: Result<Value, OpError>) {
        Ok(Value::Str(self))
    }
}

impl IntoJs for char {
    open spec fn makes(self) -> IntoConv {
        IntoConv::Text(seq![self])
    }

    open spec fn runs_js() -> bool {
        false
    }

    fn may_run_js() -> (r: bool) {
        false
    }

    fn into_js(self) -> (r: Result<Value, OpError>) {
        let mut s = String::new();
        s.push(self);
        assert(s@ =~= seq![self]);
        Ok(Value::Str(s))
    }
}

proof fn lemma_negated(r: u64, n: int)
    requires
        r < SIGN,
        r != 0,
        integer_value(r) == Some(n),
    ensures
        integer_value((r + SIGN) as u64) == Some(-n),
{
    let s = (r + SIGN) as u64;
    assert(crate::num::fraction(s) == crate::num::fraction(r) && crate::num::exponent(s)
        == crate::num::exponent(r)) by {
        let f = crate::num::FRAC as int;
        assert(SIGN == 2048 * f);
        vstd::arithmetic::div_mod::lemma_mod_multiples_vanish(2048, r as int, f);
        assert(s as int == f * 2048 + r);
        vstd::arithmetic::div_mod::lemma_hoist_over_denominator(r as int, 2048, f as nat);
        assert((r as int / f + 2048) % 2048 == (r as int / f) % 2048);
    }
}

/// The Number of an integer below 2^53 in magnitude.
fn number_of(n: i64) -> (r: u64)
    requires
        -0x20_0000_0000_0000 < n < 0x20_0000_0000_0000,
    ensures
        integer_value(r) == Some(n as int),
{
    if n >= 0 {
        from_int(n as u64)
    } else {
        let m: u64 = from_int((-n) as u64);
        proof {
            if m == 0 {
                assert(integer_value(0) == Some(0int));
            }
            lemma_negated(m, -n);
        }
        m + SIGN
    }
}

/// The `RangeError` of a result beyond the safe integers.
fn too_large(negative: bool, magnitude: u64) -> (e: OpError)
    ensures
        e@ == new_error("RangeError"@, too_large_text(negative, magnitude as nat)),
{
    let mut msg = String::new();
    msg.append("result ");
    if negative {
        msg.push('-');
    }
    crate::text::push_dec(&mut msg, magnitude);
    msg.append(" exceeds Number.MAX_SAFE_INTEGER (return BigI64/BigU64)");
    assert(msg@ =~= too_large_text(negative, magnitude as nat));
    OpError::range_error(msg.as_str())
}

impl IntoJs for i32 {
    open spec fn makes(self) -> IntoConv {
        IntoConv::Int(self as int)
    }

    open spec fn runs_js() -> bool {
        false
    }

    fn may_run_js() -> (r: bool) {
        false
    }

    fn into_js(self) -> (r: Result<Value, OpError>) {
        Ok(Value::Num(number_of(self as i64)))
    }
}

impl IntoJs for u32 {
    open spec fn makes(self) -> IntoConv {
        IntoConv::Int(self as int)
    }

    open spec fn runs_js() -> bool {
        false
    }

    fn may_run_js() -> (r: bool) {
        false
    }

    fn into_js(self) -> (r: Result<Value, OpError>) {
        Ok(Value::Num(number_of(self as i64)))
    }
}

impl IntoJs for i64 {
    open spec fn makes(self) -> IntoConv {
        if -MAX_SAFE <= self <= MAX_SAFE {
            IntoConv::Int(self as int)
        } else {
            IntoConv::TooLarge(
                self < 0,
                if self < 0 {
                    (-(self as int)) as nat
                } else {
                    self as nat
                },
            )
        }
    }

    open spec fn runs_js() -> bool {
        false
    }

    fn may_run_js() -> (r: bool) {
        false
    }

    fn into_js(self) -> (r: Result<Value, OpError>) {
        if -MAX_SAFE <= self && self <= MAX_SAFE {
            Ok(Value::Num(number_of(self)))
        } else if self < 0 {
            Err(too_large(true, (-(self + 1)) as u64 + 1))
        } else {
            Err(too_large(false, self as u64))
        }
    }
}

impl IntoJs for u64 {
    open spec fn makes(self) -> IntoConv {
        if self <= MAX_SAFE {
            IntoConv::Int(self as int)
        } else {
            IntoConv::TooLarge(false, self as nat)
        }
    }

    open spec fn runs_js() -> bool {
        false
    }

    fn may_run_js() -> (r: bool) {
        false
    }

    fn into_js(self) -> (r: Result<Value, OpError>) {
        if self <= MAX_SAFE as u64 {
            Ok(Value::Num(from_int(self)))
        } else {
            Err(too_large(false, self))
        }
    }
}

impl IntoJs for BigI64 {
    open spec fn makes(self) -> IntoConv {
        IntoConv::Big(self.0 as int)
    }

    open spec fn runs_js() -> bool {
        false
    }

    fn may_run_js() -> (r: bool) {
        false
    }

    fn into_js(self) -> (r: Result<Value, OpError>) {
        let n: i64 = self.0;
        if n < 0 {
            Ok(Value::BigInt(BigInt::from_parts(true, (-(n + 1)) as u64 + 1)))
        } else {
            Ok(Value::BigInt(BigInt::from_parts(false, n as u64)))
        }
    }
}

impl IntoJs for BigU64 {
    open spec fn makes(self) -> IntoConv {
        IntoConv::Big(self.0 as int)
    }

    open spec fn runs_js() -> bool {
        false
    }

    fn may_run_js() -> (r: bool) {
        false
    }

    fn into_js(self) -> (r: Result<Value, OpError>) {
        Ok(Value::BigInt(BigInt::from_parts(false, self.0)))
    }
}

impl<T: IntoJs> IntoJs for Option<T> {
    open spec fn makes(self) -> IntoConv {
        match self {
            Some(v) => v.makes(),
            None => IntoConv::Made(Value::Null),
        }
    }

    open spec fn runs_js() -> bool {
        T::runs_js()
    }

    fn may_run_js() -> (r: bool) {
        T::may_run_js()
    }

    fn into_js(self) -> (r: Result<Value, OpError>) {
        match self {
            Some(v) => v.into_js(),
            None => Ok(Value::Null),
        }
    }
}

impl<T: IntoJs, E: IntoOpError> IntoJs for Result<T, E> {
    open spec fn makes(self) -> IntoConv {
        match self {
            Ok(v) => v.makes(),
            Err(e) => IntoConv::Throws(e.failure()),
        }
    }

    open spec fn runs_js() -> bool {
        T::runs_js()
    }

    fn may_run_js() -> (r: bool) {
        T::may_run_js()
    }

    fn into_js(self) -> (r: Result<Value, OpError>) {
        match self {
            Ok(v) => v.into_js(),
            Err(e) => Err(e.into_op_error()),
        }
    }
}

impl IntoJs for JsObject {
    closed spec fn makes(self) -> IntoConv {
        IntoConv::Made(self.0)
    }

    open spec fn runs_js() -> bool {
        false
    }

    fn may_run_js() -> (r: bool) {
        false
    }

    fn into_js(self) -> (r: Result<Value, OpError>)
        ensures
            r == Ok::<Value, OpError>(self.inner()),
    {
        Ok(self.0)
    }
}

impl IntoJs for JsFunction {
    closed spec fn makes(self) -> IntoConv {
        IntoConv::Made(self.0)
    }

    open spec fn runs_js() -> bool {
        false
    }

    fn may_run_js() -> (r: bool) {
        false
    }

    fn into_js(self) -> (r: Result<Value, OpError>)
        ensures
            r == Ok::<Value, OpError>(self.inner()),
    {
        Ok(self.0)
    }
}

/// A 64-bit integer returned as a BigInt is the argument it came from.
pub proof fn lemma_bigint_round_trip(cx: ArgCx, heap: Heap, n: i64, v: Value)
    requires
        made(Ok::<Value, OpError>(v), BigI64(n).makes()),
    ensures
        <BigI64 as FromJs>::converts(cx, heap, v) == Conv::Converted(BigI64(n)),
{
}

/// A safe integer returned as a Number is the argument it came from.
pub proof fn lemma_safe_integer_round_trip(cx: ArgCx, heap: Heap, n: i64, v: Value)
    requires
        -MAX_SAFE <= n <= MAX_SAFE,
        made(Ok::<Value, OpError>(v), n.makes()),
    ensures
        <i64 as FromJs>::converts(cx, heap, v) == Conv::Converted(n),
{
}

} // verus!
