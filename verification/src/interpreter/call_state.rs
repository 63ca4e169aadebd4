//! The engine flags that a call sets up and puts back.

use crate::value::Value;
use vstd::prelude::*;

verus! {

/// The flags of the running activation.
pub struct CallFlags {
    pub strict: bool,
    /// Proper tail calls are allowed.
    pub tco_ok: bool,
    /// The running call is a [[Construct]].
    pub constructing: bool,
    pub new_target: Value,
    /// Field-initializer code is running.
    pub in_field_init_code: bool,
    /// An async generator's body is running.
    pub in_async_gen_body: bool,
}

/// What a call puts back when it returns.
pub struct SavedFlags {
    pub strict: bool,
    pub tco_ok: bool,
    pub constructing: bool,
    /// Set when the call cleared `new.target`.
    pub new_target: Option<Value>,
    pub in_field_init_code: bool,
    pub in_async_gen_body: bool,
}

/// The flags inside a plain call of a function of strictness `strict`: never constructing, and,
/// but for an arrow function (which inherits them), without `new.target` and the body markers.
pub open spec fn plain_flags(f: CallFlags, strict: bool, arrow: bool) -> CallFlags {
    CallFlags {
        strict,
        tco_ok: strict,
        constructing: false,
        new_target: if arrow {
            f.new_target
        } else {
            Value::Undefined
        },
        in_field_init_code: arrow && f.in_field_init_code,
        in_async_gen_body: arrow && f.in_async_gen_body,
    }
}

/// What leaving a plain call entered under `f` puts back.
pub open spec fn saves(s: SavedFlags, f: CallFlags, arrow: bool) -> bool {
    &&& s.strict == f.strict
    &&& s.tco_ok == f.tco_ok
    &&& s.constructing == f.constructing
    &&& s.in_field_init_code == f.in_field_init_code
    &&& s.in_async_gen_body == f.in_async_gen_body
    &&& s.new_target == if !arrow && f.new_target != Value::Undefined {
        Some(f.new_target)
    } else {
        None
    }
}

/// The flags that leaving restores, out of `now` at the end of the call.
pub open spec fn restored(now: CallFlags, s: SavedFlags) -> CallFlags {
    CallFlags {
        strict: s.strict,
        tco_ok: s.tco_ok,
        constructing: s.constructing,
        new_target: match s.new_target {
            Some(v) => v,
            None => now.new_target,
        },
        in_field_init_code: s.in_field_init_code,
        in_async_gen_body: s.in_async_gen_body,
    }
}

/// The canonical word of the flags: 1 plus the strictness when they are exactly what a plain
/// call of a function of that strictness sets up, else 0.
pub open spec fn canon_word(f: CallFlags) -> u64 {
    if f.strict == f.tco_ok && !f.constructing && f.new_target == Value::Undefined
        && !f.in_field_init_code && !f.in_async_gen_body {
        if f.strict {
            2
        } else {
            1
        }
    } else {
        0
    }
}

impl CallFlags {
    /// Enters a plain call.
    pub fn enter_plain(&mut self, strict: bool, arrow: bool) -> (s: SavedFlags)
        ensures
            *final(self) == plain_flags(*old(self), strict, arrow),
            saves(s, *old(self), arrow),
    {
        let mut new_target: Option<Value> = None;
        if !arrow && !self.new_target.is_undefined() {
            new_target = Some(self.new_target.duplicate());
            self.new_target = Value::Undefined;
        }
        let s = SavedFlags {
            strict: self.strict,
            tco_ok: self.tco_ok,
            constructing: self.constructing,
            new_target,
            in_field_init_code: self.in_field_init_code,
            in_async_gen_body: self.in_async_gen_body,
        };
        self.constructing = false;
        self.strict = strict;
        self.tco_ok = strict;
        if !arrow {
            self.in_field_init_code = false;
            self.in_async_gen_body = false;
        }
        s
    }

    /// Leaves the call that saved `s`.
    pub fn leave(&mut self, s: SavedFlags)
        ensures
            *final(self) == restored(*old(self), s),
    {
        self.strict = s.strict;
        self.tco_ok = s.tco_ok;
        self.constructing = s.constructing;
        self.in_field_init_code = s.in_field_init_code;
        self.in_async_gen_body = s.in_async_gen_body;
        if let Some(v) = s.new_target {
            self.new_target = v;
        }
    }

    /// The canonical word of the flags (see [`canon_word`]).
    pub fn canon_flags(&self) -> (r: u64)
        ensures
            r == canon_word(*self),
    {
        let plain = self.strict == self.tco_ok && !self.constructing
            && self.new_target.is_undefined() && !self.in_field_init_code
            && !self.in_async_gen_body;
        if plain {
            if self.strict {
                2
            } else {
                1
            }
        } else {
            0
        }
    }
}

/// A call leaves the flags as it found them, whatever its body did to them, provided that the
/// body gives `new.target` back as it got it.
pub proof fn lemma_call_restores_flags(
    before: CallFlags,
    after: CallFlags,
    s: SavedFlags,
    strict: bool,
    arrow: bool,
)
    requires
        saves(s, before, arrow),
        after.new_target == plain_flags(before, strict, arrow).new_target,
    ensures
        restored(after, s) == before,
{
}

/// A plain call of a function that is no arrow runs with canonical flags.
pub proof fn lemma_plain_call_is_canonical(f: CallFlags, strict: bool)
    ensures
        canon_word(plain_flags(f, strict, false)) == if strict {
            2u64
        } else {
            1u64
        },
{
}

} // verus!
