//! What conversions come to, by the value that is converted.

use crate::embed_convert::arg_cx::ArgCx;
use crate::embed_convert::convert::{
    agrees, made, succeeds, BigI64, BigU64, CoerceTo, Conv, ConvError, FromJs,
    IntoConv, IntoJs, JsNumber, MAX_SAFE,
};
use crate::embed_convert::desc::{OpDesc, Slot, OP_COERCE};
use crate::embed_convert::op_error::{IntoOpError, OpError, OpErrorView};
use crate::num::{integer_value, to_integer};
use crate::object::{Exotic, Heap};
use crate::value::{big_value, Value};
use vstd::prelude::*;

verus! {

/// An optional argument is absent exactly where `undefined` or `null` is passed. Anything else
/// is what it is as an argument that is not optional: the same value, or the same failure.
pub proof fn lemma_optional_arguments_are_absent_or_themselves<T: FromJs>(
    cx: ArgCx,
    heap: Heap,
    v: Value,
)
    ensures
        ({
            let whole = T::converts(cx, heap, v);
            let opt = <Option<T> as FromJs>::converts(cx, heap, v);
            if v is Undefined || v is Null {
                opt == Conv::Converted(None::<T>)
            } else {
                &&& forall|x: T| whole == Conv::Converted(x) <==> opt == Conv::Converted(Some(x))
                &&& opt != Conv::Converted(None::<T>)
                &&& forall|w: Seq<char>|
                    whole == Conv::<T>::NotThis(w) <==> opt == Conv::<Option<T>>::NotThis(w)
                &&& forall|w: Seq<char>|
                    whole == Conv::<T>::OutOfRange(w) <==> opt == Conv::<Option<T>>::OutOfRange(w)
                &&& forall|k: CoerceTo|
                    whole == Conv::<T>::First(k) <==> opt == Conv::<Option<T>>::First(k)
            }
        }),
{
}

/// What is returned as `Some` reads back as `Some`, and `None` as `None`.
pub proof fn lemma_optional_round_trip<T: FromJs + IntoJs>(
    cx: ArgCx,
    heap: Heap,
    x: Option<T>,
    v: Value,
)
    requires
        made(Ok::<Value, OpError>(v), x.makes()),
        x matches Some(y) ==> T::converts(cx, heap, v) == Conv::Converted(y) && !(v is Undefined)
            && !(v is Null),
    ensures
        <Option<T> as FromJs>::converts(cx, heap, v) == Conv::Converted(x),
{
}

/// A conversion that succeeds gives the value, and nothing else does; what it fails with says of
/// the slot what is wrong with it.
pub proof fn lemma_conversions_succeed_or_complain<T>(
    r: Result<T, ConvError>,
    c: Conv<T>,
    d: OpDesc,
    at: Slot,
)
    requires
        agrees(r, c, d, at),
    ensures
        r is Ok <==> c is Converted,
        r matches Ok(x) ==> c == Conv::Converted(x),
        c matches Conv::NotThis(w) ==> (r matches Err(ConvError::Error(e)) && e@
            == (OpErrorView::New {
            class: "TypeError"@,
            message: d.complaint(at, w),
            code: None,
        })),
        c matches Conv::OutOfRange(w) ==> (r matches Err(ConvError::Error(e)) && e@
            == (OpErrorView::New {
            class: "RangeError"@,
            message: d.complaint(at, w),
            code: None,
        })),
        c matches Conv::First(k) ==> r == Err::<T, ConvError>(ConvError::First(k)),
{
}

/// What is no Number is none to any type of integer or Number: a coercing op asks for the
/// language's conversion, another one throws a TypeError.
pub proof fn lemma_only_numbers_are_numbers(cx: ArgCx, heap: Heap, v: Value)
    requires
        !(v is Num),
    ensures
        ({
            let coerces = cx.flags & OP_COERCE != 0;
            let no = "must be a number"@;
            if coerces {
                &&& <JsNumber as FromJs>::converts(cx, heap, v) == Conv::<JsNumber>::First(CoerceTo::Number)
                &&& <u32 as FromJs>::converts(cx, heap, v) == Conv::<u32>::First(CoerceTo::Number)
                &&& <i32 as FromJs>::converts(cx, heap, v) == Conv::<i32>::First(CoerceTo::Number)
                &&& <u16 as FromJs>::converts(cx, heap, v) == Conv::<u16>::First(CoerceTo::Number)
                &&& <i16 as FromJs>::converts(cx, heap, v) == Conv::<i16>::First(CoerceTo::Number)
                &&& <u8 as FromJs>::converts(cx, heap, v) == Conv::<u8>::First(CoerceTo::Number)
                &&& <i8 as FromJs>::converts(cx, heap, v) == Conv::<i8>::First(CoerceTo::Number)
            } else {
                &&& <JsNumber as FromJs>::converts(cx, heap, v) == Conv::<JsNumber>::NotThis(no)
                &&& <u32 as FromJs>::converts(cx, heap, v) == Conv::<u32>::NotThis(no)
                &&& <i32 as FromJs>::converts(cx, heap, v) == Conv::<i32>::NotThis(no)
                &&& <u16 as FromJs>::converts(cx, heap, v) == Conv::<u16>::NotThis(no)
                &&& <i16 as FromJs>::converts(cx, heap, v) == Conv::<i16>::NotThis(no)
                &&& <u8 as FromJs>::converts(cx, heap, v) == Conv::<u8>::NotThis(no)
                &&& <i8 as FromJs>::converts(cx, heap, v) == Conv::<i8>::NotThis(no)
            }
        }),
{
}

/// `x` is the integer in `lo..=hi` that the Number rounds to, up to multiples of the type's size.
pub open spec fn wrapped(n: u64, x: int, lo: int, hi: int) -> bool {
    lo <= x <= hi && (x - to_integer(n)) % (hi - lo + 1) == 0
}

proof fn lemma_wrapped_unsigned(n: u64, x: int, m: int)
    requires
        m > 0,
        x == to_integer(n) % m,
    ensures
        wrapped(n, x, 0, m - 1),
{
    let t = to_integer(n);
    vstd::arithmetic::div_mod::lemma_fundamental_div_mod(t, m);
    vstd::arithmetic::div_mod::lemma_mod_bound(t, m);
    let q = t / m;
    assert(x - t == (-q) * m) by (nonlinear_arith)
        requires
            t == m * q + x,
    ;
    vstd::arithmetic::div_mod::lemma_mod_multiples_basic(-q, m);
}

proof fn lemma_wrapped_signed(n: u64, x: int, h: int)
    requires
        h > 0,
        ({
            let u = to_integer(n) % (2 * h);
            x == if u >= h {
                u - 2 * h
            } else {
                u
            }
        }),
    ensures
        wrapped(n, x, -h, h - 1),
{
    let m = 2 * h;
    let t = to_integer(n);
    vstd::arithmetic::div_mod::lemma_fundamental_div_mod(t, m);
    vstd::arithmetic::div_mod::lemma_mod_bound(t, m);
    let q = t / m;
    let u = t % m;
    let k = if u >= h {
        -q - 1
    } else {
        -q
    };
    assert(x - t == k * m) by (nonlinear_arith)
        requires
            t == m * q + u,
            x == u && k == -q || x == u - m && k == -q - 1,
    ;
    vstd::arithmetic::div_mod::lemma_mod_multiples_basic(k, m);
}

/// A Number becomes the integer of the type that it rounds to, toward zero, wrapped around the
/// type's size; a Number argument is taken bit for bit.
pub proof fn lemma_numbers_wrap_around(cx: ArgCx, heap: Heap, n: u64)
    ensures
        <JsNumber as FromJs>::converts(cx, heap, Value::Num(n)) == Conv::Converted(JsNumber(n)),
        <u32 as FromJs>::converts(cx, heap, Value::Num(n)) matches Conv::Converted(x) && wrapped(
            n,
            x as int,
            0,
            0xffff_ffff,
        ),
        <i32 as FromJs>::converts(cx, heap, Value::Num(n)) matches Conv::Converted(x) && wrapped(
            n,
            x as int,
            -0x8000_0000,
            0x7fff_ffff,
        ),
        <u16 as FromJs>::converts(cx, heap, Value::Num(n)) matches Conv::Converted(x) && wrapped(
            n,
            x as int,
            0,
            0xffff,
        ),
        <i16 as FromJs>::converts(cx, heap, Value::Num(n)) matches Conv::Converted(x) && wrapped(
            n,
            x as int,
            -0x8000,
            0x7fff,
        ),
        <u8 as FromJs>::converts(cx, heap, Value::Num(n)) matches Conv::Converted(x) && wrapped(
            n,
            x as int,
            0,
            0xff,
        ),
        <i8 as FromJs>::converts(cx, heap, Value::Num(n)) matches Conv::Converted(x) && wrapped(
            n,
            x as int,
            -0x80,
            0x7f,
        ),
{
    let t = to_integer(n);
    lemma_wrapped_unsigned(n, t % 0x1_0000_0000, 0x1_0000_0000);
    lemma_wrapped_unsigned(n, t % 0x1_0000, 0x1_0000);
    lemma_wrapped_unsigned(n, t % 0x100, 0x100);
    let signed = |u: int, h: int| if u >= h {
        u - 2 * h
    } else {
        u
    };
    lemma_wrapped_signed(n, signed(t % 0x1_0000_0000, 0x8000_0000), 0x8000_0000);
    lemma_wrapped_signed(n, signed(t % 0x1_0000, 0x8000), 0x8000);
    lemma_wrapped_signed(n, signed(t % 0x100, 0x80), 0x80);
}

/// The 64-bit integer arguments: a Number that is a safe integer or a BigInt, as far as it fits
/// the type; another Number is out of range, and what is neither is no integer.
pub proof fn lemma_wide_integers_are_exact(cx: ArgCx, heap: Heap, v: Value)
    ensures
        ({
            let safe = v matches Value::Num(n) && (integer_value(n) matches Some(x) && -MAX_SAFE
                <= x <= MAX_SAFE);
            let x = match v {
                Value::Num(n) => integer_value(n)->0,
                Value::BigInt(b) => big_value(b),
                _ => 0,
            };
            let i = <i64 as FromJs>::converts(cx, heap, v);
            let u = <u64 as FromJs>::converts(cx, heap, v);
            if safe || v is BigInt {
                &&& i64::MIN <= x <= i64::MAX ==> i == Conv::Converted(x as i64)
                &&& !(i64::MIN <= x <= i64::MAX) ==> i == Conv::<i64>::OutOfRange(
                    "is out of range"@,
                )
                &&& 0 <= x <= u64::MAX ==> u == Conv::Converted(x as u64)
                &&& !(0 <= x <= u64::MAX) ==> u == Conv::<u64>::OutOfRange("is out of range"@)
            } else if v is Num {
                &&& i == Conv::<i64>::OutOfRange("must be a safe integer"@)
                &&& u == Conv::<u64>::OutOfRange("must be a safe integer"@)
            } else if cx.flags & OP_COERCE != 0 {
                &&& i == Conv::<i64>::First(CoerceTo::Number)
                &&& u == Conv::<u64>::First(CoerceTo::Number)
            } else {
                &&& i == Conv::<i64>::NotThis("must be an integer (number or bigint)"@)
                &&& u == Conv::<u64>::NotThis("must be an integer (number or bigint)"@)
            }
        }),
        <BigI64 as FromJs>::converts(cx, heap, v) matches Conv::Converted(b) ==> <i64 as FromJs>::converts(
            cx,
            heap,
            v,
        ) == Conv::Converted(b.0),
        <i64 as FromJs>::converts(cx, heap, v) matches Conv::Converted(b) ==> <BigI64 as FromJs>::converts(
            cx,
            heap,
            v,
        ) == Conv::Converted(BigI64(b)),
        <BigU64 as FromJs>::converts(cx, heap, v) matches Conv::Converted(b) ==> <u64 as FromJs>::converts(
            cx,
            heap,
            v,
        ) == Conv::Converted(b.0),
        <u64 as FromJs>::converts(cx, heap, v) matches Conv::Converted(b) ==> <BigU64 as FromJs>::converts(
            cx,
            heap,
            v,
        ) == Conv::Converted(BigU64(b)),
{
}

/// Booleans, texts and values as they are; anything else is none of them.
pub proof fn lemma_booleans_and_texts_are_themselves(cx: ArgCx, heap: Heap, v: Value)
    ensures
        <Value as FromJs>::converts(cx, heap, v) == Conv::Converted(v),
        v matches Value::Bool(b) ==> <bool as FromJs>::converts(cx, heap, v) == Conv::Converted(b),
        v matches Value::Str(s) ==> <String as FromJs>::converts(cx, heap, v) == Conv::Converted(s),
        !(v is Bool) ==> <bool as FromJs>::converts(cx, heap, v) == if cx.flags & OP_COERCE != 0 {
            Conv::<bool>::First(CoerceTo::Truth)
        } else {
            Conv::<bool>::NotThis("must be a boolean"@)
        },
        !(v is Str) ==> <String as FromJs>::converts(cx, heap, v) == if cx.flags & OP_COERCE != 0 {
            Conv::<String>::First(CoerceTo::Text)
        } else {
            Conv::<String>::NotThis("must be a string"@)
        },
{
}

/// Only an array is taken for a list, and its elements are read first.
pub proof fn lemma_lists_are_arrays<T: FromJs + crate::embed_convert::convert::ArrayElem>(
    cx: ArgCx,
    heap: Heap,
    v: Value,
)
    ensures
        (v matches Value::Obj(o) && heap.has(o) && heap.at(o).exotic == Exotic::Array)
            ==> <Vec<T> as FromJs>::converts(cx, heap, v) == Conv::<Vec<T>>::First(
            CoerceTo::Elements,
        ),
        !(v matches Value::Obj(o) && heap.has(o) && heap.at(o).exotic == Exotic::Array)
            ==> <Vec<T> as FromJs>::converts(cx, heap, v) == Conv::<Vec<T>>::NotThis(
            "must be an array"@,
        ),
{
}

/// What a result of each type is to the script.
pub proof fn lemma_results_are_what_they_say(b: bool, s: String, c: char, n: u64, v: Value)
    ensures
        ().makes() == IntoConv::Made(Value::Undefined),
        b.makes() == IntoConv::Made(Value::Bool(b)),
        v.makes() == IntoConv::Made(v),
        JsNumber(n).makes() == IntoConv::Made(Value::Num(n)),
        s.makes() == IntoConv::Text(s@),
        c.makes() == IntoConv::Text(seq![c]),
{
}

/// An integer result is a Number of that integer, or where it is no safe integer a RangeError that
/// says which one it is; a BigInt result is a BigInt of it.
pub proof fn lemma_integer_results_are_exact(r: Result<Value, OpError>, x: i64, u: u64)
    ensures
        made(r, x.makes()) ==> if -MAX_SAFE <= x <= MAX_SAFE {
            r matches Ok(Value::Num(n)) && integer_value(n) == Some(x as int)
        } else {
            r matches Err(e) && e@ == (OpErrorView::New {
                class: "RangeError"@,
                message: "result "@ + (if x < 0 {
                    "-"@
                } else {
                    ""@
                }) + crate::text::dec_digits(
                    (if x < 0 {
                        -(x as int)
                    } else {
                        x as int
                    }) as nat,
                ) + " exceeds Number.MAX_SAFE_INTEGER (return BigI64/BigU64)"@,
                code: None,
            })
        },
        made(r, u.makes()) ==> if u <= MAX_SAFE {
            r matches Ok(Value::Num(n)) && integer_value(n) == Some(u as int)
        } else {
            r matches Err(e) && e@ == (OpErrorView::New {
                class: "RangeError"@,
                message: "result "@ + ""@ + crate::text::dec_digits(u as nat)
                    + " exceeds Number.MAX_SAFE_INTEGER (return BigI64/BigU64)"@,
                code: None,
            })
        },
        made(r, BigI64(x).makes()) ==> (r matches Ok(Value::BigInt(b)) && big_value(b) == x),
        made(r, BigU64(u).makes()) ==> (r matches Ok(Value::BigInt(b)) && big_value(b) == u),
{
    reveal_strlit("-");
    reveal_strlit("");
    assert("-"@ =~= seq!['-']);
    assert(""@ =~= Seq::<char>::empty());
}

/// 32-bit results are Numbers of their value.
pub proof fn lemma_narrow_results_are_exact(r: Result<Value, OpError>, i: i32, u: u32)
    ensures
        made(r, i.makes()) ==> (r matches Ok(Value::Num(n)) && integer_value(n) == Some(i as int)),
        made(r, u.makes()) ==> (r matches Ok(Value::Num(n)) && integer_value(n) == Some(u as int)),
{
}

/// `None` is `null`, `Some` is what it holds; a failure is thrown, a success is what it holds.
pub proof fn lemma_wrapped_results<T: IntoJs, E: IntoOpError>(
    r: Result<Value, OpError>,
    o: Option<T>,
    x: Result<T, E>,
)
    ensures
        match o {
            Some(t) => o.makes() == t.makes(),
            None => made(r, o.makes()) <==> r == Ok::<Value, OpError>(Value::Null),
        },
        match x {
            Ok(t) => x.makes() == t.makes(),
            Err(e) => made(r, x.makes()) <==> (r matches Err(f) && f@ == e.failure()),
        },
{
}

/// What a result comes to is a value exactly where it is not too large and is not thrown.
pub proof fn lemma_results_are_values_or_errors(r: Result<Value, OpError>, c: IntoConv)
    requires
        made(r, c),
    ensures
        r is Ok <==> succeeds(c),
        c is TooLarge || c is Throws <==> r is Err,
{
}

/// What fails: a value is thrown as it is, a text is the message of an `Error`.
pub proof fn lemma_failures_are_what_they_say(e: OpError, v: Value, s: String)
    ensures
        e.failure() == e@,
        v.failure() == OpErrorView::Thrown(v),
        s.failure() == (OpErrorView::New { class: "Error"@, message: s@, code: None }),
{
}

/// What a result of a type makes is the argument of that type that it came from.
pub proof fn lemma_results_read_back(
    cx: ArgCx,
    heap: Heap,
    b: bool,
    n: JsNumber,
    i: i32,
    u: u32,
    w: u64,
    v: Value,
)
    ensures
        made(Ok::<Value, OpError>(v), b.makes()) ==> <bool as FromJs>::converts(cx, heap, v)
            == Conv::Converted(b),
        made(Ok::<Value, OpError>(v), n.makes()) ==> <JsNumber as FromJs>::converts(cx, heap, v)
            == Conv::Converted(n),
        made(Ok::<Value, OpError>(v), i.makes()) ==> <i32 as FromJs>::converts(cx, heap, v)
            == Conv::Converted(i),
        made(Ok::<Value, OpError>(v), u.makes()) ==> <u32 as FromJs>::converts(cx, heap, v)
            == Conv::Converted(u),
        made(Ok::<Value, OpError>(v), w.makes()) ==> <u64 as FromJs>::converts(cx, heap, v)
            == Conv::Converted(w),
        made(Ok::<Value, OpError>(v), BigU64(w).makes()) ==> <BigU64 as FromJs>::converts(
            cx,
            heap,
            v,
        ) == Conv::Converted(BigU64(w)),
{
    if let Value::Num(x) = v {
        crate::num_laws::lemma_integers_round_to_themselves(x);
    }
}

} // verus!
