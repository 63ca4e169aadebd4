//! Op descriptors, and where a converted value came from.

use vstd::prelude::*;

verus! {

/// The op converts with the language's coercions in place of strict type checks.
pub const OP_COERCE: u32 = 1;

/// The op takes the engine's context.
pub const OP_CTX: u32 = 2;

/// The op returns a promise.
pub const OP_ASYNC: u32 = 4;

/// The kind of an unboxed argument or result of a fast entry.
#[derive(Clone, Copy, Debug, PartialEq, Eq, Hash, Structural)]
pub enum FastKind {
    F64,
    I32,
    U32,
    /// Passed and returned as 0 or 1.
    Bool,
    /// A result only: no value.
    Void,
}

/// A code address.
#[derive(Clone, Copy, Debug, PartialEq, Eq, Structural)]
pub struct FastPtr(pub u64);

/// The unboxed entry of an op.
#[derive(Debug)]
pub struct FastSig {
    pub args: Vec<FastKind>,
    pub ret: FastKind,
    pub entry: FastPtr,
}

impl FastSig {
    /// A copy of the signature.
    pub fn duplicate(&self) -> (r: FastSig)
        ensures
            r.args@ == self.args@,
            r.ret == self.ret,
            r.entry == self.entry,
    {
        let mut args: Vec<FastKind> = Vec::new();
        let mut i: usize = 0;
        while i < self.args.len()
            invariant
                i <= self.args@.len(),
                args@ == self.args@.take(i as int),
            decreases self.args@.len() - i,
        {
            args.push(self.args[i]);
            i = i + 1;
            assert(args@ =~= self.args@.take(i as int));
        }
        assert(args@ =~= self.args@);
        FastSig { args, ret: self.ret, entry: self.entry }
    }
}

/// A native op.
#[derive(Debug)]
pub struct OpDesc {
    /// The property or function name.
    pub name: String,
    /// The owning class of a member; empty for a free op.
    pub owner: String,
    /// The function's `length`.
    pub arity: u32,
    /// The parameter names, for messages.
    pub params: Vec<String>,
    /// The address of the generic entry.
    pub native: u64,
    pub fast: Option<FastSig>,
    pub flags: u32,
}

/// What a typed entry says.
pub struct FastSigView {
    pub args: Seq<FastKind>,
    pub ret: FastKind,
    pub entry: FastPtr,
}

/// What an op's descriptor says.
pub struct OpDescView {
    pub name: Seq<char>,
    pub owner: Seq<char>,
    pub arity: u32,
    pub params: Seq<Seq<char>>,
    pub native: u64,
    pub fast: Option<FastSigView>,
    pub flags: u32,
}

pub open spec fn param_names(ps: Seq<String>) -> Seq<Seq<char>> {
    Seq::new(ps.len(), |i: int| ps[i]@)
}

impl DeepView for OpDesc {
    type V = OpDescView;

    open spec fn deep_view(&self) -> OpDescView {
        OpDescView {
            name: self.name@,
            owner: self.owner@,
            arity: self.arity,
            params: param_names(self.params@),
            native: self.native,
            fast: match self.fast {
                Some(f) => Some(FastSigView { args: f.args@, ret: f.ret, entry: f.entry }),
                None => None,
            },
            flags: self.flags,
        }
    }
}

impl OpDesc {
    /// A copy.
    pub fn duplicate(&self) -> (r: OpDesc)
        ensures
            r.deep_view() == self.deep_view(),
    {
        let mut params: Vec<String> = Vec::new();
        let mut i: usize = 0;
        while i < self.params.len()
            invariant
                i <= self.params@.len(),
                params@.len() == i,
                forall|j: int| 0 <= j < i ==> (#[trigger] params@[j])@ == self.params@[j]@,
            decreases self.params@.len() - i,
        {
            params.push(self.params[i].clone());
            i = i + 1;
        }
        assert(param_names(params@) =~= param_names(self.params@));
        let fast = match &self.fast {
            Some(f) => Some(f.duplicate()),
            None => None,
        };
        OpDesc {
            name: self.name.clone(),
            owner: self.owner.clone(),
            arity: self.arity,
            params,
            native: self.native,
            fast,
            flags: self.flags,
        }
    }
}

/// `"Class.op"` or `"op"`.
pub open spec fn label_text(d: OpDesc) -> Seq<char> {
    if d.owner@.len() == 0 {
        d.name@
    } else {
        d.owner@ + seq!['.'] + d.name@
    }
}

impl OpDesc {
    /// `"Class.op"` or `"op"`.
    pub fn label(&self) -> (r: String)
        ensures
            r@ == label_text(*self),
    {
        if self.owner.as_str().is_empty() {
            return self.name.clone();
        }
        let mut out = self.owner.clone();
        out.push('.');
        out.append(self.name.as_str());
        assert(out@ =~= self.owner@ + seq!['.'] + self.name@);
        out
    }
}

/// No argument, or no element.
pub const NO_INDEX: u32 = 0xffff_ffff;

/// Where a value being converted came from.
#[derive(Clone, Copy, Debug, PartialEq, Eq, Structural)]
pub struct Slot {
    arg: u32,
    elem: u32,
}

impl Slot {
    pub closed spec fn spec_arg(self) -> u32 {
        self.arg
    }

    pub closed spec fn spec_elem(self) -> u32 {
        self.elem
    }

    /// Whether it is the receiver.
    pub open spec fn is_this(self) -> bool {
        self.spec_arg() == NO_INDEX
    }

    /// Whether it is the receiver itself.
    pub fn is_receiver(&self) -> (r: bool)
        ensures
            r == (self.is_this() && self.spec_elem() == NO_INDEX),
    {
        self.arg == NO_INDEX && self.elem == NO_INDEX
    }

    /// The receiver.
    pub fn this() -> (r: Slot)
        ensures
            r.is_this(),
            r.spec_elem() == NO_INDEX,
    {
        Slot { arg: NO_INDEX, elem: NO_INDEX }
    }

    /// Argument `i`, from 0.
    pub fn arg(i: u32) -> (r: Slot)
        ensures
            r.spec_arg() == i,
            r.spec_elem() == NO_INDEX,
    {
        Slot { arg: i, elem: NO_INDEX }
    }

    /// Element `i` of the array at this slot.
    pub fn elem(self, i: u32) -> (r: Slot)
        ensures
            r.spec_arg() == self.spec_arg(),
            r.spec_elem() == i,
    {
        Slot { arg: self.arg, elem: i }
    }

    /// The argument's index.
    pub fn arg_index(&self) -> (r: u32)
        ensures
            r == self.spec_arg(),
    {
        self.arg
    }
}

/// A slot is its argument and its element: two that agree in both are one.
pub proof fn lemma_slot_is_its_parts(a: Slot, b: Slot)
    requires
        a.spec_arg() == b.spec_arg(),
        a.spec_elem() == b.spec_elem(),
    ensures
        a == b,
{
}

/// How a slot reads in a message.
pub open spec fn slot_text(d: OpDesc, s: Slot) -> Seq<char> {
    let base = if s.is_this() {
        "receiver (this)"@
    } else if s.spec_arg() < d.params@.len() {
        "argument "@ + crate::text::dec_digits((s.spec_arg() + 1) as nat) + " ("@
            + d.params@[s.spec_arg() as int]@ + ")"@
    } else {
        "argument "@ + crate::text::dec_digits((s.spec_arg() + 1) as nat)
    };
    if s.spec_elem() == NO_INDEX {
        base
    } else {
        base + " element "@ + crate::text::dec_digits(s.spec_elem() as nat)
    }
}

impl OpDesc {
    /// How a slot reads in a message: the receiver or the argument, counted from 1 and with its
    /// name when it has one, then the element.
    pub fn slot_label(&self, s: Slot) -> (r: String)
        ensures
            r@ == slot_text(*self, s),
    {
        let mut out = String::new();
        assert(out@ + "receiver (this)"@ =~= "receiver (this)"@);
        assert(out@ + "argument "@ =~= "argument "@);
        if s.arg == NO_INDEX {
            out.append("receiver (this)");
        } else {
            out.append("argument ");
            crate::text::push_dec(&mut out, s.arg as u64 + 1);
            if (s.arg as usize) < self.params.len() {
                out.append(" (");
                out.append(self.params[s.arg as usize].as_str());
                out.append(")");
            }
        }
        if s.elem != NO_INDEX {
            out.append(" element ");
            crate::text::push_dec(&mut out, s.elem as u64);
        }
        out
    }

    /// The message `<op>: <slot> <what>`.
    pub open spec fn complaint(self, at: Slot, what: Seq<char>) -> Seq<char> {
        label_text(self) + ": "@ + slot_text(self, at) + " "@ + what
    }

    /// The message `<op>: <slot> <what>`.
    pub fn complain(&self, at: Slot, what: &str) -> (r: String)
        ensures
            r@ == self.complaint(at, what@),
    {
        let mut out = self.label();
        out.append(": ");
        let s = self.slot_label(at);
        out.append(s.as_str());
        out.append(" ");
        out.append(what);
        out
    }
}

/// What a class member is.
#[derive(Clone, Copy, Debug, PartialEq, Eq, Structural)]
pub enum MemberKind {
    Method,
    Getter,
    Setter,
    StaticMethod,
    StaticGetter,
    StaticSetter,
}

/// A class member; the op's name is the property's.
#[derive(Debug)]
pub struct MemberDesc {
    pub kind: MemberKind,
    pub op: OpDesc,
}

/// A class.
#[derive(Debug)]
pub struct ClassDesc {
    /// The identity of the host type.
    pub type_id: u64,
    pub name: String,
    /// Without one, `new` throws: instances come from the host only.
    pub constructor: Option<OpDesc>,
    pub members: Vec<MemberDesc>,
}

} // verus!
