//! The legacy `f.arguments` and `f.caller` of sloppy functions.
//!
//! They read `null` while the function is not running. `f.caller` is found on the call stack.
//! `f.arguments` is made from what the activation recorded: a parameter that lives in a register
//! shows its current value, every other element the value it was called with.

use crate::bytecode::jit::records::{full_stack, pending_of, CallStack};
use crate::interpreter::call_cx::CallCx;
use crate::interpreter::callee_text::trim_end;
use crate::interpreter::frames::{
    pos_of_site, site_is_native, site_pos, tagged_native, FnFrame, FrameExtra, NativeCtx,
    ReflectStash,
};
use crate::interpreter::scope::{name_index, Scopes};
use crate::object::{PropKind, Property};
use crate::text::{chars_of, is_letter_or_digit, letter_or_digit, same};
use crate::value::{duplicate_all, Value};
use std::collections::HashMap;
use vstd::prelude::*;

verus! {

broadcast use vstd::std_specs::hash::group_hash_axioms;

/// A parameter, as far as reflection looks at it.
pub struct Param {
    /// Its name, when it is a plain identifier.
    pub name: Option<String>,
    pub rest: bool,
    pub has_default: bool,
}

/// What reflection needs of a function.
pub struct FnTraits {
    pub is_strict: bool,
    pub is_arrow: bool,
    pub is_method: bool,
    pub is_generator: bool,
    pub is_async: bool,
    pub params: Vec<Param>,
    /// The body, an inner arrow function or a direct `eval` may name `arguments`.
    pub names_arguments: bool,
    /// The names that inner functions capture.
    pub captured: Vec<String>,
}

impl FnTraits {
    /// Whether functions made from this code have the legacy properties.
    pub open spec fn legacy(self) -> bool {
        !self.is_strict && !self.is_arrow && !self.is_method && !self.is_generator && !self.is_async
    }
}

/// Whether functions made from a code have the legacy properties.
pub fn is_legacy(f: &FnTraits) -> (r: bool)
    ensures
        r == f.legacy(),
{
    !f.is_strict && !f.is_arrow && !f.is_method && !f.is_generator && !f.is_async
}

/// Whether a text occurs at an index.
pub open spec fn word_at(s: Seq<char>, word: Seq<char>, at: int) -> bool {
    0 <= at && at + word.len() <= s.len() && s.subrange(at, at + word.len()) == word
}

/// Whether a character is a quote.
pub open spec fn quote(c: char) -> bool {
    c == '\'' || c == '"' || c == '`'
}

/// Whether the word at an index is a property name, or a whole string.
pub open spec fn reads_at(s: Seq<char>, word: Seq<char>, at: int) -> bool {
    let before = trim_end(s.take(at));
    let end = at + word.len();
    let after = s.skip(end);
    ||| before.len() > 0 && before.last() == '.' && !(after.len() > 0 && (letter_or_digit(after[0])
        || after[0] == '_' || after[0] == '$'))
    ||| before.len() > 0 && quote(before.last()) && after.len() > 0 && quote(after[0])
}

/// Whether a source may read a property with a name.
pub open spec fn mentions(s: Seq<char>, word: Seq<char>) -> bool {
    exists|at: int| #[trigger] word_at(s, word, at) && reads_at(s, word, at)
}

fn is_word_at(cs: &Vec<char>, word: &Vec<char>, at: usize) -> (r: bool)
    requires
        at <= cs@.len(),
    ensures
        r == word_at(cs@, word@, at as int),
{
    let n: usize = cs.len();
    if word.len() > n - at {
        return false;
    }
    let mut i: usize = 0;
    let ghost w = cs@.subrange(at as int, at + word@.len());
    while i < word.len()
        invariant
            i <= word@.len(),
            at + word@.len() <= n,
            n == cs@.len(),
            w == cs@.subrange(at as int, at + word@.len()),
            forall|j: int| 0 <= j < i ==> w[j] == word@[j],
        decreases word@.len() - i,
    {
        assert(w[i as int] == cs@[at + i]);
        if cs[at + i] != word[i] {
            return false;
        }
        i = i + 1;
    }
    assert(w =~= word@);
    true
}

fn is_quote(c: char) -> (r: bool)
    ensures
        r == quote(c),
{
    c == '\'' || c == '"' || c == '`'
}

fn trimmed_len(cs: &Vec<char>, end: usize) -> (r: usize)
    requires
        end <= cs@.len(),
    ensures
        r <= end,
        cs@.take(r as int) == trim_end(cs@.take(end as int)),
{
    let mut e: usize = end;
    while e > 0 && crate::interpreter::callee_text::is_space(cs[e - 1])
        invariant
            e <= end <= cs@.len(),
            trim_end(cs@.take(e as int)) == trim_end(cs@.take(end as int)),
        decreases e,
    {
        assert(cs@.take(e as int).drop_last() =~= cs@.take(e - 1));
        assert(cs@.take(e as int).last() == cs@[e - 1]);
        e = e - 1;
    }
    assert(e > 0 ==> cs@.take(e as int).last() == cs@[e - 1]);
    e
}

fn reads(cs: &Vec<char>, len: usize, at: usize) -> (r: bool)
    requires
        at + len <= cs@.len(),
    ensures
        forall|word: Seq<char>| word.len() == len ==> r == #[trigger] reads_at(
            cs@,
            word,
            at as int,
        ),
{
    let e = trimmed_len(cs, at);
    assert(cs.len() == cs@.len());
    let end: usize = at + len;
    assert(e > 0 ==> cs@.take(e as int).last() == cs@[e - 1]);
    assert(end < cs@.len() ==> cs@.skip(end as int)[0] == cs@[end as int]);
    if e == 0 {
        return false;
    }
    let b: char = cs[e - 1];
    let dotted = b == '.' && !(end < cs.len() && (is_letter_or_digit(cs[end]) || cs[end] == '_' || cs[end]
        == '$'));
    let quoted = is_quote(b) && end < cs.len() && is_quote(cs[end]);
    dotted || quoted
}

fn mentioned(cs: &Vec<char>, word: &str) -> (r: bool)
    ensures
        r == mentions(cs@, word@),
{
    let w = chars_of(word);
    let n: usize = cs.len();
    let mut at: usize = 0;
    while at < n
        invariant
            n == cs@.len(),
            at <= n,
            w@ == word@,
            forall|k: int|
                0 <= k < at ==> !(#[trigger] word_at(cs@, word@, k) && reads_at(cs@, word@, k)),
        decreases n - at,
    {
        if is_word_at(cs, &w, at) {
            if reads(cs, w.len(), at) {
                assert(word_at(cs@, word@, at as int) && reads_at(cs@, word@, at as int));
                return true;
            }
        }
        at = at + 1;
    }
    if is_word_at(cs, &w, n) {
        if reads(cs, w.len(), n) {
            assert(word_at(cs@, word@, n as int) && reads_at(cs@, word@, n as int));
            return true;
        }
    }
    false
}

/// Whether activations record what a read of `f.arguments` needs, once a source is seen: they do
/// if they did, or if the source may read `arguments` or `caller`.
pub fn note_source(src: &str, enabled: bool) -> (r: bool)
    ensures
        r == (enabled || mentions(src@, "arguments"@) || mentions(src@, "caller"@)),
{
    if enabled {
        return true;
    }
    let cs = chars_of(src);
    mentioned(&cs, "arguments") || mentioned(&cs, "caller")
}

/// The innermost activation of a function.
pub open spec fn last_call(frames: Seq<FnFrame>, p: u64) -> Option<int>
    decreases frames.len(),
{
    if frames.len() == 0 {
        None
    } else if frames.last().fn_ptr == p {
        Some(frames.len() - 1)
    } else {
        last_call(frames.drop_last(), p)
    }
}

/// The function that called the frame `k`: top-level and eval code is looked through. None when
/// there is none, when it is strict, and when a native called.
pub open spec fn caller_of(frames: Seq<FnFrame>, k: int) -> Option<u64>
    decreases k,
{
    if k <= 0 || (frames[k].fn_ptr != 0 && tagged_native(frames[k].caller_site)) {
        None
    } else {
        let fr = frames[k - 1];
        if fr.fn_ptr == 0 {
            caller_of(frames, k - 1)
        } else if fr.strict {
            None
        } else {
            Some(fr.fn_ptr)
        }
    }
}

fn stack_frame<'a>(cx: &'a CallCx, pending: &'a Vec<FnFrame>, k: usize) -> (r: &'a FnFrame)
    requires
        pending@ == pending_of(cx.calls.recs@),
        k < full_stack(cx.calls).len(),
    ensures
        *r == full_stack(cx.calls)[k as int],
{
    let n: usize = cx.calls.fn_frames.len();
    if k < n {
        &cx.calls.fn_frames[k]
    } else {
        &pending[k - n]
    }
}

fn find_call(cx: &CallCx, pending: &Vec<FnFrame>, p: u64) -> (r: Option<usize>)
    requires
        pending@ == pending_of(cx.calls.recs@),
        full_stack(cx.calls).len() <= usize::MAX,
    ensures
        match last_call(full_stack(cx.calls), p) {
            Some(k) => r matches Some(i) && i == k && i < full_stack(cx.calls).len()
                && full_stack(cx.calls)[k].fn_ptr == p,
            None => r is None,
        },
{
    let ghost fs = full_stack(cx.calls);
    let mut k: usize = cx.calls.fn_frames.len() + pending.len();
    assert(fs.take(k as int) =~= fs);
    while k > 0
        invariant
            fs == full_stack(cx.calls),
            pending@ == pending_of(cx.calls.recs@),
            k <= fs.len(),
            last_call(fs.take(k as int), p) == last_call(fs, p),
        decreases k,
    {
        assert(fs.take(k as int).drop_last() =~= fs.take(k - 1));
        assert(fs.take(k as int).last() == fs[k - 1]);
        if stack_frame(cx, pending, k - 1).fn_ptr == p {
            return Some(k - 1);
        }
        k = k - 1;
    }
    None
}

/// `f.caller` of a function: `null` unless it is a legacy one that is running and has a caller to
/// show.
pub open spec fn caller_read(frames: Seq<FnFrame>, f: u64, code: FnTraits) -> Value {
    match last_call(frames, f) {
        Some(k) => match caller_of(frames, k) {
            Some(c) => if code.legacy() {
                Value::Obj(c)
            } else {
                Value::Null
            },
            None => Value::Null,
        },
        None => Value::Null,
    }
}

/// `f.caller` of a function that is given with its code.
pub fn read_caller(cx: &CallCx, f: u64, code: &FnTraits) -> (r: Value)
    requires
        full_stack(cx.calls).len() <= usize::MAX,
    ensures
        r == caller_read(full_stack(cx.calls), f, *code),
{
    if !is_legacy(code) {
        return Value::Null;
    }
    let pending = cx.calls.pending_frames();
    let mut k: usize = match find_call(cx, &pending, f) {
        Some(k) => k,
        None => {
            return Value::Null;
        },
    };
    let ghost fs = full_stack(cx.calls);
    let ghost start = k as int;
    loop
        invariant
            fs == full_stack(cx.calls),
            pending@ == pending_of(cx.calls.recs@),
            k < fs.len(),
            caller_of(fs, k as int) == caller_of(fs, start),
            last_call(fs, f) == Some(start),
            code.legacy(),
        decreases k,
    {
        let fr = stack_frame(cx, &pending, k);
        if fr.fn_ptr != 0 && site_is_native(fr.caller_site) {
            return Value::Null;
        }
        if k == 0 {
            return Value::Null;
        }
        k = k - 1;
        let fr = stack_frame(cx, &pending, k);
        if fr.fn_ptr != 0 {
            return if fr.strict {
                Value::Null
            } else {
                Value::Obj(fr.fn_ptr)
            };
        }
    }
}

/// The names of parameters; empty for a pattern.
pub open spec fn param_name(p: Param) -> Seq<char> {
    match p.name {
        Some(n) => n@,
        None => ""@,
    }
}

/// Every parameter is a plain identifier.
pub open spec fn simple_params(ps: Seq<Param>) -> bool {
    forall|i: int|
        0 <= i < ps.len() ==> !(#[trigger] ps[i]).rest && !ps[i].has_default && ps[i].name is Some
}

/// Whether a name is that of a parameter from an index on.
pub open spec fn named_from(ps: Seq<Param>, from: int, name: Seq<char>) -> bool {
    exists|i: int| from <= i < ps.len() && #[trigger] param_name(ps[i]) == name
}

/// Whether a name is captured.
pub open spec fn is_captured(names: Seq<String>, name: Seq<char>) -> bool {
    exists|i: int| 0 <= i < names.len() && (#[trigger] names[i])@ == name
}

/// Whether a parameter lives in a register, so that `f.arguments` shows its current value: the
/// parameters are simple, there is no `arguments` object, nothing captures the parameter, and no
/// later one has its name.
pub open spec fn live(f: FnTraits, k: int) -> bool {
    let ps = f.params@;
    &&& 0 <= k < ps.len()
    &&& simple_params(ps)
    &&& !f.names_arguments || named_from(ps, 0, "arguments"@)
    &&& !is_captured(f.captured@, param_name(ps[k]))
    &&& !named_from(ps, k + 1, param_name(ps[k]))
}

fn name_of(p: &Param) -> (r: String)
    ensures
        r@ == param_name(*p),
{
    match &p.name {
        Some(n) => n.clone(),
        None => "".to_owned(),
    }
}

fn has_param(ps: &Vec<Param>, from: usize, name: &str) -> (r: bool)
    ensures
        r == named_from(ps@, from as int, name@),
{
    let mut i: usize = from;
    while i < ps.len()
        invariant
            from <= i,
            forall|j: int| from <= j < i && j < ps@.len() ==> #[trigger] param_name(ps@[j]) != name@,
        decreases ps@.len() - i,
    {
        let n = name_of(&ps[i]);
        if same(n.as_str(), name) {
            assert(param_name(ps@[i as int]) == name@);
            return true;
        }
        i = i + 1;
    }
    false
}

fn has_capture(names: &Vec<String>, name: &str) -> (r: bool)
    ensures
        r == is_captured(names@, name@),
{
    let mut i: usize = 0;
    while i < names.len()
        invariant
            i <= names@.len(),
            forall|j: int| 0 <= j < i ==> (#[trigger] names@[j])@ != name@,
        decreases names@.len() - i,
    {
        if same(names[i].as_str(), name) {
            assert(names@[i as int]@ == name@);
            return true;
        }
        i = i + 1;
    }
    false
}

/// Which parameters live in registers.
pub fn live_params(f: &FnTraits) -> (r: Vec<bool>)
    ensures
        r@.len() == f.params@.len(),
        forall|k: int| 0 <= k < r@.len() ==> #[trigger] r@[k] == live(*f, k),
{
    let n: usize = f.params.len();
    let mut simple = true;
    let mut i: usize = 0;
    while i < n
        invariant
            n == f.params@.len(),
            i <= n,
            simple == forall|j: int|
                0 <= j < i ==> !(#[trigger] f.params@[j]).rest && !f.params@[j].has_default
                    && f.params@[j].name is Some,
        decreases n - i,
    {
        let p = &f.params[i];
        simple = simple && !p.rest && !p.has_default && p.name.is_some();
        i = i + 1;
    }
    let usable = simple && (!f.names_arguments || has_param(&f.params, 0, "arguments"));
    let mut out: Vec<bool> = Vec::new();
    let mut k: usize = 0;
    while k < n
        invariant
            n == f.params@.len(),
            k <= n,
            out@.len() == k,
            simple == simple_params(f.params@),
            usable == (simple && (!f.names_arguments || named_from(
                f.params@,
                0,
                "arguments"@,
            ))),
            forall|j: int| 0 <= j < k ==> #[trigger] out@[j] == live(*f, j),
        decreases n - k,
    {
        let name = name_of(&f.params[k]);
        let b = usable && !has_capture(&f.captured, name.as_str()) && !has_param(
            &f.params,
            k + 1,
            name.as_str(),
        );
        out.push(b);
        k = k + 1;
    }
    out
}

/// The element `k` of `f.arguments`, with the slots of the running compiled activations as they
/// are now.
pub open spec fn element(
    f: FnTraits,
    s: ReflectStash,
    scopes: Scopes,
    slots: SlotArrays,
    k: int,
) -> Value {
    let called = s.args@[k];
    if !live(f, k) {
        called
    } else {
        match s.slots {
            Some(id) => if slots.contains_key(id) && k < slots[id]@.len() {
                slots[id]@[k]
            } else {
                called
            },
            None => match s.scope {
                Some(id) => if scopes.has(id) {
                    let vs = scopes.at(id).vars;
                    let i = name_index(vs.names(), param_name(f.params@[k])) as int;
                    if i < vs.vars@.len() {
                        vs.vars@[i].binding.value
                    } else {
                        called
                    }
                } else {
                    called
                },
                None => called,
            },
        }
    }
}

/// The elements of `f.arguments`; none, for an object with just a `length` of 0, when the
/// activation recorded nothing.
pub open spec fn elements(
    f: FnTraits,
    fr: FnFrame,
    scopes: Scopes,
    slots: SlotArrays,
) -> Seq<Value> {
    match fr.extra {
        Some(x) => match x.reflect {
            Some(s) => Seq::new(s.args@.len(), |k: int| element(f, s, scopes, slots, k)),
            None => Seq::empty(),
        },
        None => Seq::empty(),
    }
}

/// The slots of the running compiled activations.
pub type SlotArrays = Map<u64, Vec<Value>>;

/// What an arguments object is made from: its elements, and the scope of the parameters.
pub struct Arguments {
    pub values: Vec<Value>,
    pub scope: Option<u64>,
}

/// The parameter scope that an activation recorded.
pub open spec fn recorded_scope(fr: FnFrame) -> Option<u64> {
    match fr.extra {
        Some(x) => match x.reflect {
            Some(s) => s.scope,
            None => None,
        },
        None => None,
    }
}

/// `f.arguments` of a function: its elements and the scope of the parameters, or none, for `null`,
/// unless it is a legacy one that is running.
pub open spec fn arguments_read(
    frames: Seq<FnFrame>,
    scopes: Scopes,
    slots: SlotArrays,
    f: u64,
    code: FnTraits,
) -> Option<(Seq<Value>, Option<u64>)> {
    match last_call(frames, f) {
        Some(k) => if code.legacy() {
            Some((elements(code, frames[k], scopes, slots), recorded_scope(frames[k])))
        } else {
            None
        },
        None => None,
    }
}

/// `f.arguments` of a function that is given with its code: none, for `null`, while it is not
/// running, else what a fresh object that is not mapped onto the parameters is made from. From
/// then on activations record what a read needs.
pub fn read_arguments(
    cx: &CallCx,
    scopes: &Scopes,
    slots: &HashMap<u64, Vec<Value>>,
    f: u64,
    code: &FnTraits,
    enabled: &mut bool,
) -> (r: Option<Arguments>)
    requires
        full_stack(cx.calls).len() <= usize::MAX,
    ensures
        *final(enabled) == (*old(enabled) || code.legacy()),
        match arguments_read(full_stack(cx.calls), *scopes, slots@, f, *code) {
            Some((values, scope)) => r matches Some(a) && a.values@ == values && a.scope == scope,
            None => r is None,
        },
{
    if !is_legacy(code) {
        return None;
    }
    *enabled = true;
    let pending = cx.calls.pending_frames();
    let k: usize = match find_call(cx, &pending, f) {
        Some(k) => k,
        None => {
            return None;
        },
    };
    let fr = stack_frame(cx, &pending, k);
    let stash = match &fr.extra {
        Some(x) => match &x.reflect {
            Some(s) => s,
            None => {
                return Some(Arguments { values: Vec::new(), scope: None });
            },
        },
        None => {
            return Some(Arguments { values: Vec::new(), scope: None });
        },
    };
    let lives = live_params(code);
    let mut values: Vec<Value> = Vec::new();
    let mut i: usize = 0;
    while i < stash.args.len()
        invariant
            i <= stash.args@.len(),
            values@.len() == i,
            lives@.len() == code.params@.len(),
            forall|j: int| 0 <= j < lives@.len() ==> #[trigger] lives@[j] == live(*code, j),
            forall|j: int|
                0 <= j < i ==> #[trigger] values@[j] == element(
                    *code,
                    *stash,
                    *scopes,
                    slots@,
                    j,
                ),
        decreases stash.args@.len() - i,
    {
        let mut v = stash.args[i].duplicate();
        if i < lives.len() && lives[i] {
            match &stash.slots {
                Some(id) => {
                    if let Some(now) = slots.get(id) {
                        if i < now.len() {
                            v = now[i].duplicate();
                        }
                    }
                },
                None => {
                    if let Some(id) = stash.scope {
                        if scopes.holds(id) {
                            let vs = &scopes.get(id).vars;
                            let name = name_of(&code.params[i]);
                            let at = vs.find(name.as_str());
                            if at < vs.vars.len() {
                                v = vs.vars[at].binding.value.duplicate();
                            }
                        }
                    }
                },
            }
        }
        values.push(v);
        i = i + 1;
    }
    assert(values@ =~= elements(*code, *fr, *scopes, slots@));
    Some(Arguments { values, scope: stash.scope })
}

/// Records the arguments of the innermost frame: the values that were moved into the slots, then
/// the others, and the number of its slots.
pub fn stash_compiled(cx: &mut CallCx, head: &Vec<Value>, rest: &Vec<Value>, slots: u64)
    ensures
        recorded(
            *old(cx),
            *final(cx),
            ReflectStash { args: final_args(*final(cx)), scope: None, slots: Some(slots) },
        ),
        old(cx).calls.fn_frames@.len() > 0 ==> final_args(*final(cx))@ == head@ + rest@,
{
    let mut args = duplicate_all(head);
    let mut tail = duplicate_all(rest);
    args.append(&mut tail);
    put_stash(cx, ReflectStash { args, scope: None, slots: Some(slots) });
}

/// Records the arguments and the parameter scope of the innermost frame.
pub fn stash_tree(cx: &mut CallCx, args: &Vec<Value>, scope: u64)
    ensures
        recorded(
            *old(cx),
            *final(cx),
            ReflectStash { args: final_args(*final(cx)), scope: Some(scope), slots: None },
        ),
        old(cx).calls.fn_frames@.len() > 0 ==> final_args(*final(cx))@ == args@,
{
    let copied = duplicate_all(args);
    put_stash(cx, ReflectStash { args: copied, scope: Some(scope), slots: None });
}

/// The recorded arguments of the innermost frame.
pub open spec fn final_args(cx: CallCx) -> Vec<Value> {
    cx.calls.fn_frames@.last().extra->0.reflect->0.args
}

/// The innermost frame has a record, and nothing else changed.
pub open spec fn recorded(before: CallCx, after: CallCx, s: ReflectStash) -> bool {
    let fs = before.calls.fn_frames@;
    if fs.len() == 0 {
        after == before
    } else {
        let script = match fs.last().extra {
            Some(x) => x.script,
            None => None,
        };
        &&& after.calls.fn_frames@ == fs.drop_last().push(
            FnFrame {
                extra: Some(FrameExtra { reflect: Some(s), script }),
                ..fs.last()
            },
        )
        &&& after == CallCx {
            calls: CallStack { fn_frames: after.calls.fn_frames, ..before.calls },
            ..before
        }
    }
}

fn put_stash(cx: &mut CallCx, stash: ReflectStash)
    ensures
        recorded(*old(cx), *final(cx), stash),
{
    if cx.calls.fn_frames.len() == 0 {
        return;
    }
    match cx.calls.fn_frames.pop() {
        None => {},
        Some(fr) => {
            let FnFrame { fn_ptr, coro, caller_site, strict, construct, extra } = fr;
            let script = match extra {
                Some(x) => x.script,
                None => None,
            };
            cx.calls.fn_frames.push(
                FnFrame {
                    fn_ptr,
                    coro,
                    caller_site,
                    strict,
                    construct,
                    extra: Some(FrameExtra { reflect: Some(stash), script }),
                },
            );
        },
    }
}

/// Takes the native's tag off the call site: the callee of a native that is not shown as a caller
/// sees the frame that called the native.
pub fn caller_transparent(cx: &mut CallCx)
    ensures
        *final(cx) == (CallCx { cur_site: pos_of_site(old(cx).cur_site), ..*old(cx) }),
{
    cx.cur_site = site_pos(cx.cur_site);
}

/// The same for a call adaptor, which has no frame of its own in a trace either.
pub fn native_transparent(cx: &mut CallCx)
    ensures
        final(cx).cur_site == pos_of_site(old(cx).cur_site),
        ({
            let ns = old(cx).natives@;
            final(cx).natives@ == if ns.len() == 0 {
                ns
            } else {
                ns.update(ns.len() - 1, NativeCtx { hidden: true, ..ns.last() })
            }
        }),
        *final(cx) == (CallCx {
            cur_site: final(cx).cur_site,
            natives: final(cx).natives,
            ..*old(cx)
        }),
{
    caller_transparent(cx);
    let n: usize = cx.natives.len();
    if n > 0 {
        cx.natives[n - 1].hidden = true;
        assert(cx.natives@ =~= old(cx).natives@.update(
            n - 1,
            NativeCtx { hidden: true, ..old(cx).natives@.last() },
        ));
    }
}

/// The own properties of a legacy function, `arguments` before `caller`, with the realm's getters
/// of them. None while the realm has no getters yet.
pub fn own_props(getters: Option<(u64, u64)>) -> (r: Option<[(&'static str, Property); 2]>)
    ensures
        match getters {
            Some((a, c)) => r matches Some(ps) && ps@[0].0@ == "arguments"@ && ps@[0].1
                == getter_only(a) && ps@[1].0@ == "caller"@ && ps@[1].1 == getter_only(c),
            None => r is None,
        },
{
    match getters {
        Some((a, c)) => Some(
            [
                (
                    "arguments",
                    Property::accessor_prop(Some(Value::Obj(a)), None, false, false),
                ),
                ("caller", Property::accessor_prop(Some(Value::Obj(c)), None, false, false)),
            ],
        ),
        None => None,
    }
}

/// An accessor property with a getter alone.
pub open spec fn getter_only(f: u64) -> Property {
    Property {
        kind: PropKind::Accessor { get: Some(Value::Obj(f)), set: None },
        writable: false,
        enumerable: false,
        configurable: false,
    }
}

proof fn lemma_last_call_absent(frames: Seq<FnFrame>, p: u64)
    requires
        forall|i: int| 0 <= i < frames.len() ==> (#[trigger] frames[i]).fn_ptr != p,
    ensures
        last_call(frames, p) is None,
    decreases frames.len(),
{
    if frames.len() > 0 {
        let d = frames.drop_last();
        assert forall|i: int| 0 <= i < d.len() implies (#[trigger] d[i]).fn_ptr != p by {
            assert(d[i] == frames[i]);
        }
        assert(frames[frames.len() - 1].fn_ptr != p);
        lemma_last_call_absent(d, p);
    }
}

/// Both legacy properties of a function that is not running read `null`.
pub proof fn lemma_idle_functions_read_null(
    frames: Seq<FnFrame>,
    scopes: Scopes,
    slots: SlotArrays,
    f: u64,
    code: FnTraits,
)
    requires
        forall|i: int| 0 <= i < frames.len() ==> (#[trigger] frames[i]).fn_ptr != f,
    ensures
        arguments_read(frames, scopes, slots, f, code) is None,
        caller_read(frames, f, code) == Value::Null,
{
    lemma_last_call_absent(frames, f);
}

/// A strict function is never shown as a caller.
pub proof fn lemma_strict_callers_are_hidden(frames: Seq<FnFrame>, k: int)
    requires
        0 <= k < frames.len(),
    ensures
        caller_of(frames, k) matches Some(c) ==> exists|j: int|
            0 <= j < k && (#[trigger] frames[j]).fn_ptr == c && !frames[j].strict && c != 0,
    decreases k,
{
    if k > 0 && !(frames[k].fn_ptr != 0 && tagged_native(frames[k].caller_site)) {
        if frames[k - 1].fn_ptr == 0 {
            lemma_strict_callers_are_hidden(frames, k - 1);
        }
    }
}

} // verus!
