//! The part of the syntax tree that the compiler's decisions look at.

use crate::bytecode::chunk::FnId;
use vstd::prelude::*;

verus! {

/// The position of a node that has none.
pub const NO_POS: u32 = 0xffff_ffff;

pub enum Expr {
    /// A Number literal, as its bit pattern.
    Num(u64),
    /// A BigInt literal's digits.
    BigInt(String),
    Str(String),
    Bool(bool),
    Null,
    Undefined,
    This,
    Regex { body: String, flags: String },
    Ident(String),
    Paren(Box<Expr>),
    /// A template part's conversion to a string.
    ToStr(Box<Expr>),
    Unary { op: String, arg: Box<Expr> },
    Update { op: String, prefix: bool, arg: Box<Expr> },
    Binary { op: String, left: Box<Expr>, right: Box<Expr> },
    Logical { op: String, left: Box<Expr>, right: Box<Expr> },
    Cond { test: Box<Expr>, cons: Box<Expr>, alt: Box<Expr> },
    Member { obj: Box<Expr>, prop: String },
    Index { obj: Box<Expr>, index: Box<Expr> },
    Call { callee: Box<Expr>, args: Vec<ArrayElem>, pos: u32 },
    New { callee: Box<Expr>, args: Vec<ArrayElem>, pos: u32 },
    Array(Vec<ArrayElem>),
    Object(Vec<PropDef>),
    Sequence(Vec<Expr>),
    OptionalChain(Box<Expr>),
    /// A function, arrow function or class expression.
    Func(FnId),
    /// Any other expression.
    Other,
}

/// An element of an array literal, or an argument.
pub enum ArrayElem {
    Item(Expr),
    Spread(Expr),
    Hole,
}

pub enum PropKey {
    Name(String),
    Computed(Box<Expr>),
}

/// A property of an object literal.
pub enum PropDef {
    KeyValue { key: PropKey, value: Expr },
    /// A method, accessor, shorthand or spread.
    Other,
}

pub enum Pattern {
    Ident(String),
    Object(Vec<PropPat>),
    Array(Vec<ArrayPatElem>),
    Member(Box<Expr>),
}

pub struct PropPat {
    pub key: PropKey,
    pub value: Pattern,
    pub default: Option<Expr>,
}

pub enum ArrayPatElem {
    Hole,
    Elem { pattern: Pattern, default: Option<Expr> },
    Rest(Pattern),
}

pub enum Stmt {
    Expr(Expr),
    FuncDecl(FnId),
    /// Any other statement.
    Other,
}

/// What hoisting does with a name.
pub enum HoistOp {
    Var(String),
    /// A function declaration.
    Fn(String, FnId),
    /// A function in a block, which sloppy code also binds outside it.
    AnnexB(String, FnId),
}

/// Whether a body opens with the directive `text`.
pub open spec fn opens_with(body: Seq<Stmt>, text: Seq<char>) -> bool {
    body.len() > 0 && (body[0] matches Stmt::Expr(Expr::Str(s)) && s@ == text)
}

/// Whether `body` opens with the directive `text`.
pub fn has_directive(body: &Vec<Stmt>, text: &str) -> (r: bool)
    ensures
        r == opens_with(body@, text@),
{
    if body.len() == 0 {
        return false;
    }
    match &body[0] {
        Stmt::Expr(Expr::Str(s)) => crate::text::same(s.as_str(), text),
        _ => false,
    }
}

} // verus!
