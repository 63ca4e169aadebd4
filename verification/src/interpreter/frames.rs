//! The call-frame stack behind error stacks and the legacy `fn.caller` / `fn.arguments`.

use crate::value::Value;
use vstd::prelude::*;

verus! {

/// No call site: a frame that has not called anything yet.
pub const NO_SITE: u32 = 0xffff_ffff;

/// Tag of a site that is a bytecode pc of the frame's own chunk; an untagged site is a source
/// position.
pub const SITE_PC: u32 = 0x8000_0000;

/// Tag on a site saying that the next callee's caller is hidden: a native function is running,
/// or a strict caller has left the stack by a proper tail call.
pub const SITE_NATIVE: u32 = 0x4000_0000;

/// The receiver is `undefined` or `null`.
pub const RECV_NONE: u8 = 0;

/// The receiver is an object.
pub const RECV_OBJ: u8 = 1;

/// The receiver is a primitive: `RECV_PRIM + i` is the `i`-th of [`prim_name`].
pub const RECV_PRIM: u8 = 2;

/// The wrapper name of the `i`-th kind of primitive receiver.
pub open spec fn prim_text(i: u8) -> Seq<char> {
    if i == 0 {
        "String"@
    } else if i == 1 {
        "Number"@
    } else if i == 2 {
        "Boolean"@
    } else if i == 3 {
        "Symbol"@
    } else {
        "BigInt"@
    }
}

/// The wrapper name of the `i`-th kind of primitive receiver.
pub fn prim_name(i: u8) -> (r: &'static str)
    requires
        i < 5,
    ensures
        r@ == prim_text(i),
{
    if i == 0 {
        "String"
    } else if i == 1 {
        "Number"
    } else if i == 2 {
        "Boolean"
    } else if i == 3 {
        "Symbol"
    } else {
        "BigInt"
    }
}

/// Top-level code (a script, module or eval body) that a frame runs.
pub struct ScriptFrame {
    /// The source its positions are offsets into.
    pub src: u64,
    pub eval: bool,
}

/// What a reflective `fn.arguments` read of an activation needs.
pub struct ReflectStash {
    /// The arguments the activation was called with.
    pub args: Vec<Value>,
    /// A tree-walked activation: the scope holding the parameter bindings.
    pub scope: Option<u64>,
    /// A compiled activation: the number of its slots, of which parameter `k` is the `k`-th.
    pub slots: Option<u64>,
}

/// The rare state of a frame.
pub struct FrameExtra {
    pub reflect: Option<ReflectStash>,
    /// Set on a frame of top-level code, which has no function.
    pub script: Option<ScriptFrame>,
}

impl Default for FrameExtra {
    fn default() -> (r: FrameExtra)
        ensures
            r.reflect is None,
            r.script is None,
    {
        FrameExtra { reflect: None, script: None }
    }
}

/// One entry of the call stack.
pub struct FnFrame {
    /// The callee's identity; 0 for top-level code.
    pub fn_ptr: u64,
    /// The coroutine body that owns the frame; 0 for the main driver.
    pub coro: u32,
    /// The caller's call site when the frame was pushed.
    pub caller_site: u32,
    pub strict: bool,
    /// Entered through [[Construct]].
    pub construct: bool,
    pub extra: Option<FrameExtra>,
}

impl FnFrame {
    /// The callee, if the frame runs a function.
    pub open spec fn spec_callee(self) -> Option<Value> {
        if self.fn_ptr == 0 {
            None
        } else {
            Some(Value::Obj(self.fn_ptr))
        }
    }

    /// The callee, if the frame runs a function.
    pub fn callee(&self) -> (r: Option<Value>)
        ensures
            r == self.spec_callee(),
    {
        if self.fn_ptr == 0 {
            None
        } else {
            Some(Value::Obj(self.fn_ptr))
        }
    }
}

/// A native function that is running.
pub struct NativeCtx {
    /// The call site it was called from.
    pub site: u32,
    pub construct: bool,
    /// A call adaptor that has no frame of its own.
    pub hidden: bool,
    /// The native's address; 0 for a closure, which has no frame.
    pub id: u64,
    pub recv_kind: u8,
    /// The object receiver, when it is held.
    pub this: Option<u64>,
}

/// What the receiver is, for the frame's name.
pub open spec fn kind_of_receiver(v: Value) -> u8 {
    match v {
        Value::Obj(_) => RECV_OBJ,
        Value::Str(_) => RECV_PRIM,
        Value::Num(_) => 3,
        Value::Bool(_) => 4,
        Value::Sym(_) => 5,
        Value::BigInt(_) => 6,
        Value::Undefined | Value::Null | Value::Empty => RECV_NONE,
    }
}

/// The receiver kind of `v`.
pub fn recv_kind(v: &Value) -> (r: u8)
    ensures
        r == kind_of_receiver(*v),
        r <= RECV_PRIM + 4,
{
    match v {
        Value::Obj(_) => RECV_OBJ,
        Value::Str(_) => RECV_PRIM,
        Value::Num(_) => RECV_PRIM + 1,
        Value::Bool(_) => RECV_PRIM + 2,
        Value::Sym(_) => RECV_PRIM + 3,
        Value::BigInt(_) => RECV_PRIM + 4,
        Value::Undefined | Value::Null | Value::Empty => RECV_NONE,
    }
}

/// What a dispatcher holds of the receiver it hands to a native: an object receiver once
/// receivers are recorded, else `undefined`.
pub fn hold_receiver(v: &Value, recording: bool) -> (r: Value)
    ensures
        r == if recording && v is Obj {
            *v
        } else {
            Value::Undefined
        },
{
    match v {
        Value::Obj(o) if recording => Value::Obj(*o),
        _ => Value::Undefined,
    }
}

/// The held receiver's identity for [`NativeCtx::this`].
pub fn held_ptr(held: &Value) -> (r: Option<u64>)
    ensures
        r == match *held {
            Value::Obj(o) => Some(o),
            _ => None,
        },
{
    match held {
        Value::Obj(o) => Some(*o),
        _ => None,
    }
}

/// `site` without the native tag.
pub open spec fn pos_of_site(site: u32) -> u32 {
    if site == NO_SITE {
        site
    } else {
        site & !SITE_NATIVE
    }
}

/// `site` without the native tag, for decoding the position.
pub fn site_pos(site: u32) -> (r: u32)
    ensures
        r == pos_of_site(site),
{
    if site == NO_SITE {
        site
    } else {
        site & !SITE_NATIVE
    }
}

/// Whether `site` was recorded while a native function was running.
pub open spec fn tagged_native(site: u32) -> bool {
    site != NO_SITE && site & SITE_NATIVE != 0
}

/// Whether `site` was recorded while a native function was running.
pub fn site_is_native(site: u32) -> (r: bool)
    ensures
        r == tagged_native(site),
{
    site != NO_SITE && site & SITE_NATIVE != 0
}

/// Tagging a site changes neither the position it decodes to nor whether it is a pc; the tag
/// reads back, and decoding takes it off.
pub proof fn lemma_site_tag(site: u32)
    requires
        site | SITE_NATIVE != NO_SITE,
        site != NO_SITE,
    ensures
        pos_of_site(site | SITE_NATIVE) == pos_of_site(site),
        tagged_native(site | SITE_NATIVE),
        !tagged_native(pos_of_site(site)),
        (site | SITE_NATIVE) & SITE_PC == site & SITE_PC,
{
    assert((site | 0x4000_0000u32) & !0x4000_0000u32 == site & !0x4000_0000u32) by (bit_vector);
    assert((site | 0x4000_0000u32) & 0x4000_0000u32 != 0) by (bit_vector);
    assert((site & !0x4000_0000u32) & 0x4000_0000u32 == 0) by (bit_vector);
    assert((site | 0x4000_0000u32) & 0x8000_0000u32 == site & 0x8000_0000u32) by (bit_vector);
}

} // verus!
