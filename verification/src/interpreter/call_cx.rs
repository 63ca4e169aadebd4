//! The state that every call saves, sets and puts back.

use crate::bytecode::jit::records::{full_stack, CallStack};
use crate::interpreter::call_state::CallFlags;
use crate::interpreter::frames::{FnFrame, NativeCtx, NO_SITE};
use vstd::prelude::*;

verus! {

/// The stack that directly called native frames live on. `top` is the first free byte.
#[derive(Clone, Copy, Debug, PartialEq, Eq, Structural)]
pub struct Shadow {
    pub top: usize,
    pub end: usize,
}

/// The call state of a running engine.
pub struct CallCx {
    pub flags: CallFlags,
    pub calls: CallStack,
    /// The running natives, innermost last.
    pub natives: Vec<NativeCtx>,
    /// The position of the call that the running code is about to make.
    pub cur_site: u32,
    /// The coroutine body that is running; 0 for the main driver.
    pub cur_coro: u32,
    /// The recursion depth of calls.
    pub depth: u32,
    /// The depth that calls stay below.
    pub max_depth: u32,
    pub shadow: Shadow,
}

/// The two states agree on everything but the flags, the call stack and the call site.
pub open spec fn same_outside_call(a: CallCx, b: CallCx) -> bool {
    &&& a.natives == b.natives
    &&& a.cur_coro == b.cur_coro
    &&& a.depth == b.depth
    &&& a.max_depth == b.max_depth
    &&& a.shadow == b.shadow
}

/// The frame that a plain call of a function pushes.
pub open spec fn plain_frame(cx: CallCx, fn_ptr: u64, strict: bool) -> FnFrame {
    FnFrame {
        fn_ptr,
        coro: cx.cur_coro,
        caller_site: cx.cur_site,
        strict,
        construct: false,
        extra: None,
    }
}

impl CallCx {
    /// Pushes the frame of a plain call, below which every direct call is first copied in.
    pub fn push_frame(&mut self, fn_ptr: u64, strict: bool)
        ensures
            final(self).calls.fn_frames@ == full_stack(old(self).calls).push(
                plain_frame(*old(self), fn_ptr, strict),
            ),
            final(self).calls.recs@ == crate::bytecode::jit::records::marked_from(
                old(self).calls.recs@,
                crate::bytecode::jit::records::first_pending(old(self).calls.recs@),
            ),
            final(self).cur_site == NO_SITE,
            final(self).flags == old(self).flags,
            same_outside_call(*final(self), *old(self)),
    {
        self.calls.sync_frames();
        let f = FnFrame {
            fn_ptr,
            coro: self.cur_coro,
            caller_site: self.cur_site,
            strict,
            construct: false,
            extra: None,
        };
        self.calls.fn_frames.push(f);
        self.cur_site = NO_SITE;
    }

    /// Pops the innermost frame and puts its caller's site back.
    pub fn pop_frame(&mut self)
        ensures
            if old(self).calls.fn_frames@.len() == 0 {
                final(self).calls.fn_frames@ == old(self).calls.fn_frames@ && final(self).cur_site
                    == old(self).cur_site
            } else {
                &&& final(self).calls.fn_frames@ == old(self).calls.fn_frames@.drop_last()
                &&& final(self).cur_site == old(self).calls.fn_frames@.last().caller_site
            },
            final(self).calls.recs@ == old(self).calls.recs@,
            final(self).flags == old(self).flags,
            same_outside_call(*final(self), *old(self)),
    {
        if let Some(f) = self.calls.fn_frames.pop() {
            self.cur_site = f.caller_site;
        }
    }
}

} // verus!
