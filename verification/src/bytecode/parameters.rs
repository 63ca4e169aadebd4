//! Default-parameter eligibility and initialization in local or captured bindings.

use super::compiler::{code_fits, rebased, Compiler};
use super::op::Op;
use crate::ast::{ArrayElem, ArrayPatElem, Expr, HoistOp, Pattern, PropDef, PropKey, PropPat};
use crate::text::{chars_of, is_letter_or_digit, letter_or_digit, same};
use vstd::prelude::*;

verus! {

// ---- which defaults are lowered -------------------------------------------------------------

/// Whether `name` is one of `names`.
pub open spec fn named(names: Seq<String>, name: Seq<char>) -> bool {
    exists|i: int| 0 <= i < names.len() && (#[trigger] names[i])@ == name
}

/// Whether a parameter default is in the compiler's lowerable subset: no reference to a banned
/// name (the parameter itself or a later one, which the parameter scope would report as
/// uninitialized), and no nested function or class. Unknown constructs are not in it.
pub open spec fn safe(e: Expr, banned: Seq<String>) -> bool
    decreases e,
{
    match e {
        Expr::Num(_) => true,
        Expr::BigInt(_) => true,
        Expr::Str(_) => true,
        Expr::Bool(_) => true,
        Expr::Null => true,
        Expr::Undefined => true,
        Expr::This => true,
        Expr::Regex { .. } => true,
        Expr::Ident(n) => !named(banned, n@),
        Expr::Paren(x) => safe(*x, banned),
        Expr::ToStr(x) => safe(*x, banned),
        Expr::Unary { op, arg } => safe(*arg, banned),
        Expr::Update { op, prefix, arg } => safe(*arg, banned),
        Expr::Binary { op, left, right } => safe(*left, banned) && safe(*right, banned),
        Expr::Logical { op, left, right } => safe(*left, banned) && safe(*right, banned),
        Expr::Cond { test, cons, alt } => safe(*test, banned) && safe(*cons, banned) && safe(
            *alt,
            banned,
        ),
        Expr::Member { obj, prop } => safe(*obj, banned),
        Expr::Index { obj, index } => safe(*obj, banned) && safe(*index, banned),
        Expr::Call { callee, args, pos } => safe(*callee, banned) && (forall|i: int|
            0 <= i < args@.len() ==> elem_safe(#[trigger] args@[i], banned)),
        Expr::New { callee, args, pos } => safe(*callee, banned) && (forall|i: int|
            0 <= i < args@.len() ==> elem_safe(#[trigger] args@[i], banned)),
        Expr::Array(elems) => forall|i: int|
            0 <= i < elems@.len() ==> elem_safe(#[trigger] elems@[i], banned),
        Expr::Object(props) => forall|i: int|
            0 <= i < props@.len() ==> prop_safe(#[trigger] props@[i], banned),
        _ => false,
    }
}

pub open spec fn elem_safe(a: ArrayElem, banned: Seq<String>) -> bool
    decreases a,
{
    match a {
        ArrayElem::Item(x) => safe(x, banned),
        ArrayElem::Spread(x) => safe(x, banned),
        ArrayElem::Hole => true,
    }
}

pub open spec fn prop_safe(p: PropDef, banned: Seq<String>) -> bool
    decreases p,
{
    match p {
        PropDef::KeyValue { key, value } => !(key is Computed) && safe(value, banned),
        PropDef::Other => false,
    }
}

fn is_named(names: &Vec<String>, name: &str) -> (r: bool)
    ensures
        r == named(names@, name@),
{
    let mut i: usize = 0;
    while i < names.len()
        invariant
            i <= names@.len(),
            forall|j: int| 0 <= j < i ==> (#[trigger] names@[j])@ != name@,
        decreases names@.len() - i,
    {
        if same(names[i].as_str(), name) {
            return true;
        }
        i = i + 1;
    }
    false
}

/// Whether a parameter default is in the compiler's lowerable subset (see [`safe`]).
pub fn default_expr_safe(e: &Expr, banned: &Vec<String>) -> (r: bool)
    ensures
        r == safe(*e, banned@),
    decreases e,
{
    match e {
        Expr::Num(_) => true,
        Expr::BigInt(_) => true,
        Expr::Str(_) => true,
        Expr::Bool(_) => true,
        Expr::Null => true,
        Expr::Undefined => true,
        Expr::This => true,
        Expr::Regex { .. } => true,
        Expr::Ident(n) => !is_named(banned, n.as_str()),
        Expr::Paren(x) => default_expr_safe(x, banned),
        Expr::ToStr(x) => default_expr_safe(x, banned),
        Expr::Unary { arg, .. } => default_expr_safe(arg, banned),
        Expr::Update { arg, .. } => default_expr_safe(arg, banned),
        Expr::Binary { left, right, .. } => default_expr_safe(left, banned) && default_expr_safe(
            right,
            banned,
        ),
        Expr::Logical { left, right, .. } => default_expr_safe(left, banned) && default_expr_safe(
            right,
            banned,
        ),
        Expr::Cond { test, cons, alt } => default_expr_safe(test, banned) && default_expr_safe(
            cons,
            banned,
        ) && default_expr_safe(alt, banned),
        Expr::Member { obj, .. } => default_expr_safe(obj, banned),
        Expr::Index { obj, index } => default_expr_safe(obj, banned) && default_expr_safe(
            index,
            banned,
        ),
        Expr::Call { callee, args, .. } => default_expr_safe(callee, banned) && elems_safe(
            args,
            banned,
        ),
        Expr::New { callee, args, .. } => default_expr_safe(callee, banned) && elems_safe(
            args,
            banned,
        ),
        Expr::Array(elems) => elems_safe(elems, banned),
        Expr::Object(props) => props_safe(props, banned),
        _ => false,
    }
}

fn elems_safe(elems: &Vec<ArrayElem>, banned: &Vec<String>) -> (r: bool)
    ensures
        r == forall|i: int| 0 <= i < elems@.len() ==> elem_safe(#[trigger] elems@[i], banned@),
    decreases elems,
{
    let mut i: usize = 0;
    while i < elems.len()
        invariant
            i <= elems@.len(),
            forall|j: int| 0 <= j < i ==> elem_safe(#[trigger] elems@[j], banned@),
        decreases elems@.len() - i,
    {
        let ok: bool = match &elems[i] {
            ArrayElem::Item(x) => default_expr_safe(x, banned),
            ArrayElem::Spread(x) => default_expr_safe(x, banned),
            ArrayElem::Hole => true,
        };
        if !ok {
            assert(!elem_safe(elems@[i as int], banned@));
            return false;
        }
        i = i + 1;
    }
    true
}

fn props_safe(props: &Vec<PropDef>, banned: &Vec<String>) -> (r: bool)
    ensures
        r == forall|i: int| 0 <= i < props@.len() ==> prop_safe(#[trigger] props@[i], banned@),
    decreases props,
{
    let mut i: usize = 0;
    while i < props.len()
        invariant
            i <= props@.len(),
            forall|j: int| 0 <= j < i ==> prop_safe(#[trigger] props@[j], banned@),
        decreases props@.len() - i,
    {
        let ok: bool = match &props[i] {
            PropDef::KeyValue { key, value } => match key {
                PropKey::Computed(_) => false,
                PropKey::Name(_) => default_expr_safe(value, banned),
            },
            PropDef::Other => false,
        };
        if !ok {
            assert(!prop_safe(props@[i as int], banned@));
            return false;
        }
        i = i + 1;
    }
    true
}

/// [`safe`] over every expression inside a destructuring parameter pattern (property defaults
/// and computed keys, nested patterns included).
pub open spec fn pattern_safe(p: Pattern, banned: Seq<String>) -> bool
    decreases p,
{
    match p {
        Pattern::Ident(_) => true,
        Pattern::Object(props) => forall|i: int|
            0 <= i < props@.len() ==> prop_pattern_safe(#[trigger] props@[i], banned),
        Pattern::Array(elems) => forall|i: int|
            0 <= i < elems@.len() ==> elem_pattern_safe(#[trigger] elems@[i], banned),
        Pattern::Member(_) => false,
    }
}

pub open spec fn prop_pattern_safe(p: PropPat, banned: Seq<String>) -> bool
    decreases p,
{
    &&& p.key matches PropKey::Computed(k) ==> safe(*k, banned)
    &&& p.default matches Some(d) ==> safe(d, banned)
    &&& pattern_safe(p.value, banned)
}

pub open spec fn elem_pattern_safe(e: ArrayPatElem, banned: Seq<String>) -> bool
    decreases e,
{
    match e {
        ArrayPatElem::Hole => true,
        ArrayPatElem::Elem { pattern, default } => (default matches Some(d) ==> safe(d, banned))
            && pattern_safe(pattern, banned),
        ArrayPatElem::Rest(p) => pattern_safe(p, banned),
    }
}

fn default_safe(d: &Option<Expr>, banned: &Vec<String>) -> (r: bool)
    ensures
        r == (*d matches Some(x) ==> safe(x, banned@)),
{
    match d {
        Some(x) => default_expr_safe(x, banned),
        None => true,
    }
}

/// Whether every expression inside a destructuring parameter pattern is in the lowerable subset.
pub fn pattern_exprs_safe(p: &Pattern, banned: &Vec<String>) -> (r: bool)
    ensures
        r == pattern_safe(*p, banned@),
    decreases p,
{
    match p {
        Pattern::Ident(_) => true,
        Pattern::Object(props) => prop_patterns_safe(props, banned),
        Pattern::Array(elems) => elem_patterns_safe(elems, banned),
        Pattern::Member(_) => false,
    }
}

fn prop_patterns_safe(props: &Vec<PropPat>, banned: &Vec<String>) -> (r: bool)
    ensures
        r == forall|i: int|
            0 <= i < props@.len() ==> prop_pattern_safe(#[trigger] props@[i], banned@),
    decreases props,
{
    let mut i: usize = 0;
    while i < props.len()
        invariant
            i <= props@.len(),
            forall|j: int| 0 <= j < i ==> prop_pattern_safe(#[trigger] props@[j], banned@),
        decreases props@.len() - i,
    {
        let q: &PropPat = &props[i];
        let key_ok: bool = match &q.key {
            PropKey::Computed(k) => default_expr_safe(k, banned),
            PropKey::Name(_) => true,
        };
        if !(key_ok && default_safe(&q.default, banned) && pattern_exprs_safe(&q.value, banned)) {
            assert(!prop_pattern_safe(props@[i as int], banned@));
            return false;
        }
        i = i + 1;
    }
    true
}

fn elem_patterns_safe(elems: &Vec<ArrayPatElem>, banned: &Vec<String>) -> (r: bool)
    ensures
        r == forall|i: int|
            0 <= i < elems@.len() ==> elem_pattern_safe(#[trigger] elems@[i], banned@),
    decreases elems,
{
    let mut i: usize = 0;
    while i < elems.len()
        invariant
            i <= elems@.len(),
            forall|j: int| 0 <= j < i ==> elem_pattern_safe(#[trigger] elems@[j], banned@),
        decreases elems@.len() - i,
    {
        let ok: bool = match &elems[i] {
            ArrayPatElem::Hole => true,
            ArrayPatElem::Elem { pattern, default } => default_safe(default, banned)
                && pattern_exprs_safe(pattern, banned),
            ArrayPatElem::Rest(q) => pattern_exprs_safe(q, banned),
        };
        if !ok {
            assert(!elem_pattern_safe(elems@[i as int], banned@));
            return false;
        }
        i = i + 1;
    }
    true
}

/// Hoisting binds a function to `name`.
pub open spec fn hoists_fn(op: HoistOp, name: Seq<char>) -> bool {
    match op {
        HoistOp::Fn(n, _) => n@ == name,
        HoistOp::AnnexB(n, _) => n@ == name,
        HoistOp::Var(_) => false,
    }
}

/// Whether parameter `name` of a function whose body hoists `hoists` may be captured and have a
/// default: hoisted functions are seeded into the activation before the body runs, and the
/// default must not overwrite one.
pub fn captured_default_safe(hoists: &Vec<HoistOp>, name: &str) -> (r: bool)
    ensures
        r == !(exists|i: int| 0 <= i < hoists@.len() && hoists_fn(#[trigger] hoists@[i], name@)),
{
    let mut i: usize = 0;
    while i < hoists.len()
        invariant
            i <= hoists@.len(),
            forall|j: int| 0 <= j < i ==> !hoists_fn(#[trigger] hoists@[j], name@),
        decreases hoists@.len() - i,
    {
        let hit: bool = match &hoists[i] {
            HoistOp::Fn(n, _) => same(n.as_str(), name),
            HoistOp::AnnexB(n, _) => same(n.as_str(), name),
            HoistOp::Var(_) => false,
        };
        if hit {
            assert(hoists_fn(hoists@[i as int], name@));
            return false;
        }
        i = i + 1;
    }
    true
}

// ---- lowering a default ---------------------------------------------------------------------

/// The code of a parameter default at op index `base`: when the parameter is `undefined`, the
/// default (whose own code is `code`) is stored into its slot, or into captured binding `cap`.
pub open spec fn default_ops(base: int, slot: u16, code: Seq<Op>, cap: Option<u32>) -> Seq<Op> {
    seq![
        Op::LoadLocal(slot),
        Op::Undef,
        Op::StrictEq,
        Op::JumpIfFalse((base + 5 + code.len()) as u32),
    ] + rebased(code, base + 4) + seq![
        match cap {
            Some(name) => Op::StoreCap(name),
            None => Op::StoreLocal(slot),
        },
    ]
}

impl Compiler {
    /// Lowers the default of the parameter in `slot`, whose expression compiles to `code`.
    pub fn parameter_default(&mut self, slot: u16, code: &Vec<Op>, cap: Option<u32>)
        requires
            code_fits(code@),
            old(self).ops@.len() + code@.len() + 5 <= super::compiler::MAX_OPS,
        ensures
            final(self).ops@ == old(self).ops@ + default_ops(
                old(self).ops@.len() as int,
                slot,
                code@,
                cap,
            ),
            super::compiler::same_but_ops(*final(self), *old(self)),
    {
        let ghost o0 = self.ops@;
        self.emit(Op::LoadLocal(slot));
        self.emit(Op::Undef);
        self.emit(Op::StrictEq);
        let skip: usize = self.emit(Op::JumpIfFalse(0));
        self.splice(code);
        self.emit(
            match cap {
                Some(name) => Op::StoreCap(name),
                None => Op::StoreLocal(slot),
            },
        );
        self.patch(skip);
        assert(self.ops@ =~= o0 + default_ops(o0.len() as int, slot, code@, cap));
    }
}

// ---- unused rest parameters -----------------------------------------------------------------

/// Whether `c` can continue an identifier.
pub open spec fn id_char(c: char) -> bool {
    letter_or_digit(c) || c == '_' || c == '$'
}

/// `name` stands in `src` at `at`.
pub open spec fn stands_at(src: Seq<char>, name: Seq<char>, at: int) -> bool {
    0 <= at && at + name.len() <= src.len() && src.subrange(at, at + name.len()) == name
}

/// `name` stands in `src` somewhere.
pub open spec fn occurs(src: Seq<char>, name: Seq<char>) -> bool {
    exists|at: int| #[trigger] stands_at(src, name, at)
}

/// The occurrence at `at` is a whole identifier.
pub open spec fn bounded_at(src: Seq<char>, name: Seq<char>, at: int) -> bool {
    !(at > 0 && id_char(src[at - 1])) && !(at + name.len() < src.len() && id_char(
        src[at + name.len()],
    ))
}

/// The whole-identifier mentions of `name` among its occurrences from `at` on (left to right,
/// not overlapping; the empty name occurs before every character and at the end).
pub open spec fn mentions(src: Seq<char>, name: Seq<char>, at: int) -> nat
    decreases src.len() + 1 - at,
{
    if at < 0 || at + name.len() > src.len() {
        0
    } else if stands_at(src, name, at) {
        (if bounded_at(src, name, at) {
            1nat
        } else {
            0
        }) + mentions(
            src,
            name,
            if name.len() == 0 {
                at + 1
            } else {
                at + name.len()
            },
        )
    } else {
        mentions(src, name, at + 1)
    }
}

fn is_id(c: char) -> (r: bool)
    ensures
        r == id_char(c),
{
    is_letter_or_digit(c) || c == '_' || c == '$'
}

fn is_at(src: &Vec<char>, name: &Vec<char>, at: usize) -> (r: bool)
    requires
        at <= src@.len(),
    ensures
        r == stands_at(src@, name@, at as int),
{
    let len: usize = src.len();
    if name.len() > len - at {
        return false;
    }
    let mut i: usize = 0;
    while i < name.len()
        invariant
            i <= name@.len(),
            at + name@.len() <= src@.len(),
            len == src@.len(),
            forall|j: int| 0 <= j < i ==> src@[at + j] == #[trigger] name@[j],
        decreases name@.len() - i,
    {
        if src[at + i] != name[i] {
            proof {
                assert(src@.subrange(at as int, at + name@.len())[i as int] != name@[i as int]);
            }
            return false;
        }
        i = i + 1;
    }
    assert(src@.subrange(at as int, at + name@.len()) =~= name@);
    true
}

fn contains(src: &Vec<char>, name: &Vec<char>) -> (r: bool)
    ensures
        r == occurs(src@, name@),
{
    let mut at: usize = 0;
    while at < src.len()
        invariant
            at <= src@.len(),
            forall|k: int| 0 <= k < at ==> !(#[trigger] stands_at(src@, name@, k)),
        decreases src@.len() - at,
    {
        if is_at(src, name, at) {
            return true;
        }
        at = at + 1;
    }
    let last: bool = is_at(src, name, at);
    last
}

/// Whether rest parameter `name` of a function with source text `source` is provably never read,
/// so its array need not be built: the only whole-identifier mention of the name is the
/// declaration itself, and nothing reaches it dynamically (no `eval` anywhere in the text, and
/// no `\\`, which could spell the name). `None` as the source (it is kept compressed, or there
/// is none) answers no.
pub fn rest_unused(source: Option<&str>, name: &str) -> (r: bool)
    ensures
        r == match source {
            None => false,
            Some(src) => !occurs(src@, "eval"@) && !occurs(src@, "\\"@) && mentions(
                src@,
                name@,
                0,
            ) == 1,
        },
{
    let src: Vec<char> = match source {
        None => {
            return false;
        },
        Some(s) => chars_of(s),
    };
    let id: Vec<char> = chars_of(name);
    let eval: Vec<char> = chars_of("eval");
    let escape: Vec<char> = chars_of("\\");
    if contains(&src, &eval) || contains(&src, &escape) {
        return false;
    }
    let step: usize = if id.len() == 0 {
        1
    } else {
        id.len()
    };
    let mut n: usize = 0;
    let mut at: usize = 0;
    let mut done: bool = false;
    while !done
        invariant
            at <= src@.len(),
            id@ == name@,
            step == if name@.len() == 0 {
                1
            } else {
                name@.len()
            },
            n <= 1,
            mentions(src@, name@, 0) == n + if done {
                0
            } else {
                mentions(src@, name@, at as int)
            },
            source matches Some(s) && src@ == s@ && !occurs(s@, "eval"@) && !occurs(s@, "\\"@),
        decreases src@.len() - at + if done { 0int } else { 1int },
    {
        if id.len() > src.len() - at {
            done = true;
        } else if is_at(&src, &id, at) {
            let end: usize = at + id.len();
            let before: bool = at > 0 && is_id(src[at - 1]);
            let after: bool = end < src.len() && is_id(src[end]);
            if !before && !after {
                n = n + 1;
                if n > 1 {
                    return false;
                }
            }
            if step > src.len() - at {
                assert(mentions(src@, name@, at + 1) == 0);
                done = true;
            } else {
                at = at + step;
            }
        } else {
            assert(id@.len() == 0 ==> src@.subrange(at as int, at as int) =~= name@);
            at = at + 1;
        }
    }
    n == 1
}

} // verus!
