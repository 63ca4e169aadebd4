//! Laws of parameter defaults: which are lowered, and when a rest array may be left out.

use super::parameters::{
    bounded_at, elem_pattern_safe, elem_safe, hoists_fn, id_char, mentions, named, pattern_safe,
    prop_pattern_safe, prop_safe, safe, stands_at,
};
use crate::ast::{ArrayElem, ArrayPatElem, Expr, HoistOp, Pattern, PropDef, PropKey, PropPat};
use vstd::prelude::*;

verus! {

// ---- the names that an expression may read ----------------------------------------------------

/// Whether evaluating an expression may read a name. What is not looked into (a function, a
/// class, a chain, a method) may read any name.
pub open spec fn may_read(e: Expr, n: Seq<char>) -> bool
    decreases e,
{
    match e {
        Expr::Ident(m) => m@ == n,
        Expr::Sequence(_) | Expr::OptionalChain(_) | Expr::Func(_) | Expr::Other => true,
        Expr::Paren(x) => may_read(*x, n),
        Expr::ToStr(x) => may_read(*x, n),
        Expr::Unary { op, arg } => may_read(*arg, n),
        Expr::Update { op, prefix, arg } => may_read(*arg, n),
        Expr::Binary { op, left, right } => may_read(*left, n) || may_read(*right, n),
        Expr::Logical { op, left, right } => may_read(*left, n) || may_read(*right, n),
        Expr::Cond { test, cons, alt } => may_read(*test, n) || may_read(*cons, n) || may_read(
            *alt,
            n,
        ),
        Expr::Member { obj, prop } => may_read(*obj, n),
        Expr::Index { obj, index } => may_read(*obj, n) || may_read(*index, n),
        Expr::Call { callee, args, pos } => may_read(*callee, n) || exists|i: int|
            0 <= i < args@.len() && elem_may_read(#[trigger] args@[i], n),
        Expr::New { callee, args, pos } => may_read(*callee, n) || exists|i: int|
            0 <= i < args@.len() && elem_may_read(#[trigger] args@[i], n),
        Expr::Array(elems) => exists|i: int|
            0 <= i < elems@.len() && elem_may_read(#[trigger] elems@[i], n),
        Expr::Object(props) => exists|i: int|
            0 <= i < props@.len() && prop_may_read(#[trigger] props@[i], n),
        Expr::Num(_)
        | Expr::BigInt(_)
        | Expr::Str(_)
        | Expr::Bool(_)
        | Expr::Null
        | Expr::Undefined
        | Expr::This
        | Expr::Regex { .. } => false,
    }
}

/// Whether an element may read a name.
pub open spec fn elem_may_read(a: ArrayElem, n: Seq<char>) -> bool
    decreases a,
{
    match a {
        ArrayElem::Item(x) => may_read(x, n),
        ArrayElem::Spread(x) => may_read(x, n),
        ArrayElem::Hole => false,
    }
}

/// Whether a property may read a name; one with a computed key is not looked into.
pub open spec fn prop_may_read(p: PropDef, n: Seq<char>) -> bool
    decreases p,
{
    match p {
        PropDef::KeyValue { key, value } => key is Computed || may_read(value, n),
        PropDef::Other => true,
    }
}

/// A default that is lowered reads no banned name: neither the parameter itself nor a later one,
/// which would not be initialised yet.
pub proof fn lemma_lowered_defaults_read_no_banned_name(
    e: Expr,
    banned: Seq<String>,
    n: Seq<char>,
)
    requires
        safe(e, banned),
        named(banned, n),
    ensures
        !may_read(e, n),
    decreases e,
{
    match e {
        Expr::Paren(x) => lemma_lowered_defaults_read_no_banned_name(*x, banned, n),
        Expr::ToStr(x) => lemma_lowered_defaults_read_no_banned_name(*x, banned, n),
        Expr::Unary { op, arg } => lemma_lowered_defaults_read_no_banned_name(*arg, banned, n),
        Expr::Update { op, prefix, arg } => lemma_lowered_defaults_read_no_banned_name(
            *arg,
            banned,
            n,
        ),
        Expr::Binary { op, left, right } => {
            lemma_lowered_defaults_read_no_banned_name(*left, banned, n);
            lemma_lowered_defaults_read_no_banned_name(*right, banned, n);
        },
        Expr::Logical { op, left, right } => {
            lemma_lowered_defaults_read_no_banned_name(*left, banned, n);
            lemma_lowered_defaults_read_no_banned_name(*right, banned, n);
        },
        Expr::Cond { test, cons, alt } => {
            lemma_lowered_defaults_read_no_banned_name(*test, banned, n);
            lemma_lowered_defaults_read_no_banned_name(*cons, banned, n);
            lemma_lowered_defaults_read_no_banned_name(*alt, banned, n);
        },
        Expr::Member { obj, prop } => lemma_lowered_defaults_read_no_banned_name(*obj, banned, n),
        Expr::Index { obj, index } => {
            lemma_lowered_defaults_read_no_banned_name(*obj, banned, n);
            lemma_lowered_defaults_read_no_banned_name(*index, banned, n);
        },
        Expr::Call { callee, args, pos } => {
            lemma_lowered_defaults_read_no_banned_name(*callee, banned, n);
            assert forall|i: int| 0 <= i < args@.len() implies !elem_may_read(
                #[trigger] args@[i],
                n,
            ) by {
                lemma_elem_reads_no_banned_name(args@[i], banned, n);
            }
        },
        Expr::New { callee, args, pos } => {
            lemma_lowered_defaults_read_no_banned_name(*callee, banned, n);
            assert forall|i: int| 0 <= i < args@.len() implies !elem_may_read(
                #[trigger] args@[i],
                n,
            ) by {
                lemma_elem_reads_no_banned_name(args@[i], banned, n);
            }
        },
        Expr::Array(elems) => {
            assert forall|i: int| 0 <= i < elems@.len() implies !elem_may_read(
                #[trigger] elems@[i],
                n,
            ) by {
                lemma_elem_reads_no_banned_name(elems@[i], banned, n);
            }
        },
        Expr::Object(props) => {
            assert forall|i: int| 0 <= i < props@.len() implies !prop_may_read(
                #[trigger] props@[i],
                n,
            ) by {
                lemma_prop_reads_no_banned_name(props@[i], banned, n);
            }
        },
        _ => {},
    }
}

proof fn lemma_elem_reads_no_banned_name(a: ArrayElem, banned: Seq<String>, n: Seq<char>)
    requires
        elem_safe(a, banned),
        named(banned, n),
    ensures
        !elem_may_read(a, n),
    decreases a,
{
    match a {
        ArrayElem::Item(x) => lemma_lowered_defaults_read_no_banned_name(x, banned, n),
        ArrayElem::Spread(x) => lemma_lowered_defaults_read_no_banned_name(x, banned, n),
        ArrayElem::Hole => {},
    }
}

proof fn lemma_prop_reads_no_banned_name(p: PropDef, banned: Seq<String>, n: Seq<char>)
    requires
        prop_safe(p, banned),
        named(banned, n),
    ensures
        !prop_may_read(p, n),
    decreases p,
{
    match p {
        PropDef::KeyValue { key, value } => lemma_lowered_defaults_read_no_banned_name(
            value,
            banned,
            n,
        ),
        PropDef::Other => {},
    }
}

/// A default that is not lowered, with some name banned, may read a banned name: every other
/// default is lowered.
pub proof fn lemma_other_defaults_may_read_a_banned_name(
    e: Expr,
    banned: Seq<String>,
) -> (n: Seq<char>)
    requires
        !safe(e, banned),
        banned.len() > 0,
    ensures
        named(banned, n),
        may_read(e, n),
    decreases e,
{
    assert(named(banned, banned[0]@));
    match e {
        Expr::Ident(m) => m@,
        Expr::Paren(x) => lemma_other_defaults_may_read_a_banned_name(*x, banned),
        Expr::ToStr(x) => lemma_other_defaults_may_read_a_banned_name(*x, banned),
        Expr::Unary { op, arg } => lemma_other_defaults_may_read_a_banned_name(*arg, banned),
        Expr::Update { op, prefix, arg } => lemma_other_defaults_may_read_a_banned_name(
            *arg,
            banned,
        ),
        Expr::Binary { op, left, right } => if !safe(*left, banned) {
            lemma_other_defaults_may_read_a_banned_name(*left, banned)
        } else {
            lemma_other_defaults_may_read_a_banned_name(*right, banned)
        },
        Expr::Logical { op, left, right } => if !safe(*left, banned) {
            lemma_other_defaults_may_read_a_banned_name(*left, banned)
        } else {
            lemma_other_defaults_may_read_a_banned_name(*right, banned)
        },
        Expr::Cond { test, cons, alt } => if !safe(*test, banned) {
            lemma_other_defaults_may_read_a_banned_name(*test, banned)
        } else if !safe(*cons, banned) {
            lemma_other_defaults_may_read_a_banned_name(*cons, banned)
        } else {
            lemma_other_defaults_may_read_a_banned_name(*alt, banned)
        },
        Expr::Member { obj, prop } => lemma_other_defaults_may_read_a_banned_name(*obj, banned),
        Expr::Index { obj, index } => if !safe(*obj, banned) {
            lemma_other_defaults_may_read_a_banned_name(*obj, banned)
        } else {
            lemma_other_defaults_may_read_a_banned_name(*index, banned)
        },
        Expr::Call { callee, args, pos } => if !safe(*callee, banned) {
            lemma_other_defaults_may_read_a_banned_name(*callee, banned)
        } else {
            let i = choose|i: int| 0 <= i < args@.len() && !elem_safe(#[trigger] args@[i], banned);
            lemma_elem_may_read_a_banned_name(args@[i], banned)
        },
        Expr::New { callee, args, pos } => if !safe(*callee, banned) {
            lemma_other_defaults_may_read_a_banned_name(*callee, banned)
        } else {
            let i = choose|i: int| 0 <= i < args@.len() && !elem_safe(#[trigger] args@[i], banned);
            lemma_elem_may_read_a_banned_name(args@[i], banned)
        },
        Expr::Array(elems) => {
            let i = choose|i: int| 0 <= i < elems@.len() && !elem_safe(#[trigger] elems@[i], banned);
            lemma_elem_may_read_a_banned_name(elems@[i], banned)
        },
        Expr::Object(props) => {
            let i = choose|i: int| 0 <= i < props@.len() && !prop_safe(#[trigger] props@[i], banned);
            lemma_prop_may_read_a_banned_name(props@[i], banned)
        },
        _ => banned[0]@,
    }
}

proof fn lemma_elem_may_read_a_banned_name(a: ArrayElem, banned: Seq<String>) -> (n: Seq<char>)
    requires
        !elem_safe(a, banned),
        banned.len() > 0,
    ensures
        named(banned, n),
        elem_may_read(a, n),
    decreases a,
{
    match a {
        ArrayElem::Item(x) => lemma_other_defaults_may_read_a_banned_name(x, banned),
        ArrayElem::Spread(x) => lemma_other_defaults_may_read_a_banned_name(x, banned),
        ArrayElem::Hole => banned[0]@,
    }
}

proof fn lemma_prop_may_read_a_banned_name(p: PropDef, banned: Seq<String>) -> (n: Seq<char>)
    requires
        !prop_safe(p, banned),
        banned.len() > 0,
    ensures
        named(banned, n),
        prop_may_read(p, n),
    decreases p,
{
    assert(named(banned, banned[0]@));
    match p {
        PropDef::KeyValue { key, value } => if key is Computed {
            banned[0]@
        } else {
            lemma_other_defaults_may_read_a_banned_name(value, banned)
        },
        PropDef::Other => banned[0]@,
    }
}

// ---- patterns ---------------------------------------------------------------------------------

/// Whether taking a value apart by a pattern may read a name. A pattern that assigns to a member
/// is not looked into.
pub open spec fn pattern_may_read(p: Pattern, n: Seq<char>) -> bool
    decreases p,
{
    match p {
        Pattern::Ident(_) => false,
        Pattern::Object(props) => exists|i: int|
            0 <= i < props@.len() && prop_pattern_may_read(#[trigger] props@[i], n),
        Pattern::Array(elems) => exists|i: int|
            0 <= i < elems@.len() && elem_pattern_may_read(#[trigger] elems@[i], n),
        Pattern::Member(_) => true,
    }
}

/// Whether a property of a pattern may read a name: in its key, its default or its own pattern.
pub open spec fn prop_pattern_may_read(p: PropPat, n: Seq<char>) -> bool
    decreases p,
{
    ||| p.key matches PropKey::Computed(k) && may_read(*k, n)
    ||| p.default matches Some(d) && may_read(d, n)
    ||| pattern_may_read(p.value, n)
}

/// Whether an element of a pattern may read a name.
pub open spec fn elem_pattern_may_read(e: ArrayPatElem, n: Seq<char>) -> bool
    decreases e,
{
    match e {
        ArrayPatElem::Hole => false,
        ArrayPatElem::Elem { pattern, default } => pattern_may_read(pattern, n) || (default matches
            Some(d) && may_read(d, n)),
        ArrayPatElem::Rest(p) => pattern_may_read(p, n),
    }
}

/// A pattern that is lowered reads no banned name.
pub proof fn lemma_lowered_patterns_read_no_banned_name(
    p: Pattern,
    banned: Seq<String>,
    n: Seq<char>,
)
    requires
        pattern_safe(p, banned),
        named(banned, n),
    ensures
        !pattern_may_read(p, n),
    decreases p,
{
    match p {
        Pattern::Object(props) => {
            assert forall|i: int| 0 <= i < props@.len() implies !prop_pattern_may_read(
                #[trigger] props@[i],
                n,
            ) by {
                lemma_prop_pattern_reads_none(props@[i], banned, n);
            }
        },
        Pattern::Array(elems) => {
            assert forall|i: int| 0 <= i < elems@.len() implies !elem_pattern_may_read(
                #[trigger] elems@[i],
                n,
            ) by {
                lemma_elem_pattern_reads_none(elems@[i], banned, n);
            }
        },
        _ => {},
    }
}

proof fn lemma_prop_pattern_reads_none(p: PropPat, banned: Seq<String>, n: Seq<char>)
    requires
        prop_pattern_safe(p, banned),
        named(banned, n),
    ensures
        !prop_pattern_may_read(p, n),
    decreases p,
{
    if let PropKey::Computed(k) = p.key {
        lemma_lowered_defaults_read_no_banned_name(*k, banned, n);
    }
    if let Some(d) = p.default {
        lemma_lowered_defaults_read_no_banned_name(d, banned, n);
    }
    lemma_lowered_patterns_read_no_banned_name(p.value, banned, n);
}

proof fn lemma_elem_pattern_reads_none(e: ArrayPatElem, banned: Seq<String>, n: Seq<char>)
    requires
        elem_pattern_safe(e, banned),
        named(banned, n),
    ensures
        !elem_pattern_may_read(e, n),
    decreases e,
{
    match e {
        ArrayPatElem::Hole => {},
        ArrayPatElem::Elem { pattern, default } => {
            if let Some(d) = default {
                lemma_lowered_defaults_read_no_banned_name(d, banned, n);
            }
            lemma_lowered_patterns_read_no_banned_name(pattern, banned, n);
        },
        ArrayPatElem::Rest(p) => lemma_lowered_patterns_read_no_banned_name(p, banned, n),
    }
}

/// A pattern that is not lowered, with some name banned, may read a banned name.
pub proof fn lemma_other_patterns_may_read_a_banned_name(
    p: Pattern,
    banned: Seq<String>,
) -> (n: Seq<char>)
    requires
        !pattern_safe(p, banned),
        banned.len() > 0,
    ensures
        named(banned, n),
        pattern_may_read(p, n),
    decreases p,
{
    assert(named(banned, banned[0]@));
    match p {
        Pattern::Object(props) => {
            let i = choose|i: int|
                0 <= i < props@.len() && !prop_pattern_safe(#[trigger] props@[i], banned);
            lemma_prop_pattern_may_read(props@[i], banned)
        },
        Pattern::Array(elems) => {
            let i = choose|i: int|
                0 <= i < elems@.len() && !elem_pattern_safe(#[trigger] elems@[i], banned);
            lemma_elem_pattern_may_read(elems@[i], banned)
        },
        _ => banned[0]@,
    }
}

proof fn lemma_prop_pattern_may_read(p: PropPat, banned: Seq<String>) -> (n: Seq<char>)
    requires
        !prop_pattern_safe(p, banned),
        banned.len() > 0,
    ensures
        named(banned, n),
        prop_pattern_may_read(p, n),
    decreases p,
{
    if !pattern_safe(p.value, banned) {
        lemma_other_patterns_may_read_a_banned_name(p.value, banned)
    } else if p.default is Some && !safe(p.default->0, banned) {
        lemma_other_defaults_may_read_a_banned_name(p.default->0, banned)
    } else {
        match p.key {
            PropKey::Computed(k) => lemma_other_defaults_may_read_a_banned_name(*k, banned),
            PropKey::Name(_) => banned[0]@,
        }
    }
}

proof fn lemma_elem_pattern_may_read(e: ArrayPatElem, banned: Seq<String>) -> (n: Seq<char>)
    requires
        !elem_pattern_safe(e, banned),
        banned.len() > 0,
    ensures
        named(banned, n),
        elem_pattern_may_read(e, n),
    decreases e,
{
    match e {
        ArrayPatElem::Hole => banned[0]@,
        ArrayPatElem::Elem { pattern, default } => if !pattern_safe(pattern, banned) {
            lemma_other_patterns_may_read_a_banned_name(pattern, banned)
        } else {
            lemma_other_defaults_may_read_a_banned_name(default->0, banned)
        },
        ArrayPatElem::Rest(p) => lemma_other_patterns_may_read_a_banned_name(p, banned),
    }
}

/// A hoisted declaration hoists a function exactly when it declares one of that name, at the
/// top or in a block.
pub proof fn lemma_hoisted_functions(op: HoistOp, name: Seq<char>)
    ensures
        op is Var ==> !hoists_fn(op, name),
        op matches HoistOp::Fn(n, _) ==> (hoists_fn(op, name) <==> n@ == name),
        op matches HoistOp::AnnexB(n, _) ==> (hoists_fn(op, name) <==> n@ == name),
{
}

// ---- mentions of a name -----------------------------------------------------------------------

/// How often a text stands from `at` on with no character of an identifier on either side.
pub open spec fn whole_words(src: Seq<char>, name: Seq<char>, at: int) -> nat
    decreases src.len() + 1 - at,
{
    if at < 0 || at > src.len() {
        0
    } else {
        (if stands_at(src, name, at) && (at == 0 || !id_char(src[at - 1])) && (at + name.len()
            == src.len() || !id_char(src[at + name.len()])) {
            1nat
        } else {
            0
        }) + whole_words(src, name, at + 1)
    }
}

proof fn lemma_no_words_within(src: Seq<char>, name: Seq<char>, at: int, from: int)
    requires
        name.len() > 0,
        forall|i: int| 0 <= i < name.len() ==> id_char(#[trigger] name[i]),
        stands_at(src, name, at),
        at < from <= at + name.len(),
    ensures
        whole_words(src, name, from) == whole_words(src, name, at + name.len()),
    decreases at + name.len() - from,
{
    if from < at + name.len() {
        assert(src[from - 1] == src.subrange(at, at + name.len())[from - 1 - at]);
        assert(id_char(name[from - 1 - at]));
        lemma_no_words_within(src, name, at, from + 1);
    }
}

proof fn lemma_no_room_for_words(src: Seq<char>, name: Seq<char>, at: int)
    requires
        0 <= at,
        at + name.len() > src.len(),
    ensures
        whole_words(src, name, at) == 0,
    decreases src.len() + 1 - at,
{
    if at <= src.len() {
        lemma_no_room_for_words(src, name, at + 1);
    }
}

/// The mentions of an identifier are the places where it stands as a whole word.
pub proof fn lemma_mentions_are_whole_words(src: Seq<char>, name: Seq<char>, at: int)
    requires
        0 <= at,
        name.len() > 0,
        forall|i: int| 0 <= i < name.len() ==> id_char(#[trigger] name[i]),
    ensures
        mentions(src, name, at) == whole_words(src, name, at),
    decreases src.len() + 1 - at,
{
    if at + name.len() > src.len() {
        lemma_no_room_for_words(src, name, at);
    } else if stands_at(src, name, at) {
        lemma_no_words_within(src, name, at, at + 1);
        lemma_mentions_are_whole_words(src, name, at + name.len());
        assert(bounded_at(src, name, at) == ((at == 0 || !id_char(src[at - 1])) && (at + name.len()
            == src.len() || !id_char(src[at + name.len()]))));
    } else {
        lemma_mentions_are_whole_words(src, name, at + 1);
    }
}

/// The underscore and the dollar sign stand in identifiers; blanks, brackets, dots and commas
/// end them.
pub proof fn lemma_identifier_characters()
    ensures
        id_char('_'),
        id_char('$'),
        !id_char(' '),
        !id_char('('),
        !id_char(')'),
        !id_char('.'),
        !id_char(','),
        !id_char(';'),
{
}

} // verus!
