//! The methods that a call site has in scripts.

use crate::interpreter::trace_text::{CallSite, CallSiteView};
use crate::num::{from_int, integer_value};
use crate::value::Value;
use vstd::prelude::*;

verus! {

/// A method of a call site.
#[derive(Clone, Copy, Debug, PartialEq, Eq, Structural)]
pub enum SiteMethod {
    This,
    TypeName,
    Function,
    FunctionName,
    MethodName,
    FileName,
    ScriptName,
    ScriptHash,
    LineNumber,
    ColumnNumber,
    EnclosingLine,
    EnclosingColumn,
    Position,
    PromiseIndex,
    EvalOrigin,
    IsToplevel,
    IsEval,
    IsNative,
    IsConstructor,
    IsAsync,
    IsPromiseAll,
    Text,
}

/// The name that scripts call a method by.
pub open spec fn method_name(m: SiteMethod) -> Seq<char> {
    match m {
        SiteMethod::This => "getThis"@,
        SiteMethod::TypeName => "getTypeName"@,
        SiteMethod::Function => "getFunction"@,
        SiteMethod::FunctionName => "getFunctionName"@,
        SiteMethod::MethodName => "getMethodName"@,
        SiteMethod::FileName => "getFileName"@,
        SiteMethod::ScriptName => "getScriptNameOrSourceURL"@,
        SiteMethod::ScriptHash => "getScriptHash"@,
        SiteMethod::LineNumber => "getLineNumber"@,
        SiteMethod::ColumnNumber => "getColumnNumber"@,
        SiteMethod::EnclosingLine => "getEnclosingLineNumber"@,
        SiteMethod::EnclosingColumn => "getEnclosingColumnNumber"@,
        SiteMethod::Position => "getPosition"@,
        SiteMethod::PromiseIndex => "getPromiseIndex"@,
        SiteMethod::EvalOrigin => "getEvalOrigin"@,
        SiteMethod::IsToplevel => "isToplevel"@,
        SiteMethod::IsEval => "isEval"@,
        SiteMethod::IsNative => "isNative"@,
        SiteMethod::IsConstructor => "isConstructor"@,
        SiteMethod::IsAsync => "isAsync"@,
        SiteMethod::IsPromiseAll => "isPromiseAll"@,
        SiteMethod::Text => "toString"@,
    }
}

/// Whether a value is a text.
pub open spec fn is_text(v: Value, t: Seq<char>) -> bool {
    v matches Value::Str(s) && s@ == t
}

/// Whether a value is a number.
pub open spec fn is_integer(v: Value, n: int) -> bool {
    v matches Value::Num(b) && integer_value(b) == Some(n)
}

/// Whether a value is what a method gives: what is not recorded of a frame is `null`, `undefined`
/// or `false`.
pub open spec fn answers(c: CallSiteView, m: SiteMethod, v: Value) -> bool {
    match m {
        SiteMethod::This => v == Value::Undefined,
        SiteMethod::TypeName => if c.wrapper {
            is_text(v, "Object"@)
        } else {
            v == Value::Null
        },
        SiteMethod::Function => v == c.function,
        SiteMethod::FunctionName => match c.name {
            Some(n) => is_text(v, n),
            None => v == Value::Null,
        },
        SiteMethod::FileName | SiteMethod::ScriptName => match c.file {
            Some(f) => is_text(v, f),
            None => v == Value::Undefined,
        },
        SiteMethod::ScriptHash => is_text(v, ""@),
        SiteMethod::LineNumber => match c.line {
            Some((l, _)) => is_integer(v, l as int),
            None => v == Value::Null,
        },
        SiteMethod::ColumnNumber => match c.line {
            Some((_, k)) => is_integer(v, k as int),
            None => v == Value::Null,
        },
        SiteMethod::MethodName | SiteMethod::EnclosingLine | SiteMethod::EnclosingColumn
        | SiteMethod::PromiseIndex => v == Value::Null,
        SiteMethod::Position => is_integer(v, 0),
        SiteMethod::EvalOrigin => match (c.origin, c.file) {
            (Some(n), _) => is_text(v, n),
            (None, Some(n)) => is_text(v, n),
            (None, None) => v == Value::Undefined,
        },
        SiteMethod::IsToplevel => v == Value::Bool(c.top_level),
        SiteMethod::IsEval => v == Value::Bool(c.eval),
        SiteMethod::IsConstructor => v == Value::Bool(c.construct),
        SiteMethod::IsNative | SiteMethod::IsAsync | SiteMethod::IsPromiseAll => v == Value::Bool(
            false,
        ),
        SiteMethod::Text => is_text(v, c.text),
    }
}

impl SiteMethod {
    /// The name that scripts call the method by.
    pub fn name(self) -> (r: &'static str)
        ensures
            r@ == method_name(self),
    {
        match self {
            SiteMethod::This => "getThis",
            SiteMethod::TypeName => "getTypeName",
            SiteMethod::Function => "getFunction",
            SiteMethod::FunctionName => "getFunctionName",
            SiteMethod::MethodName => "getMethodName",
            SiteMethod::FileName => "getFileName",
            SiteMethod::ScriptName => "getScriptNameOrSourceURL",
            SiteMethod::ScriptHash => "getScriptHash",
            SiteMethod::LineNumber => "getLineNumber",
            SiteMethod::ColumnNumber => "getColumnNumber",
            SiteMethod::EnclosingLine => "getEnclosingLineNumber",
            SiteMethod::EnclosingColumn => "getEnclosingColumnNumber",
            SiteMethod::Position => "getPosition",
            SiteMethod::PromiseIndex => "getPromiseIndex",
            SiteMethod::EvalOrigin => "getEvalOrigin",
            SiteMethod::IsToplevel => "isToplevel",
            SiteMethod::IsEval => "isEval",
            SiteMethod::IsNative => "isNative",
            SiteMethod::IsConstructor => "isConstructor",
            SiteMethod::IsAsync => "isAsync",
            SiteMethod::IsPromiseAll => "isPromiseAll",
            SiteMethod::Text => "toString",
        }
    }

    /// What the method gives of a call site.
    pub fn answer(self, c: &CallSite) -> (r: Value)
        ensures
            answers(c@, self, r),
    {
        match self {
            SiteMethod::This => Value::Undefined,
            SiteMethod::TypeName => c.get_type_name(),
            SiteMethod::Function => c.get_function(),
            SiteMethod::FunctionName => c.get_function_name(),
            SiteMethod::FileName | SiteMethod::ScriptName => c.get_file_name(),
            SiteMethod::ScriptHash => Value::Str("".to_owned()),
            SiteMethod::LineNumber => c.get_line_number(),
            SiteMethod::ColumnNumber => c.get_column_number(),
            SiteMethod::MethodName | SiteMethod::EnclosingLine | SiteMethod::EnclosingColumn
            | SiteMethod::PromiseIndex => Value::Null,
            SiteMethod::Position => Value::Num(from_int(0)),
            SiteMethod::EvalOrigin => c.get_eval_origin(),
            SiteMethod::IsToplevel => Value::Bool(c.is_toplevel()),
            SiteMethod::IsEval => Value::Bool(c.is_eval()),
            SiteMethod::IsConstructor => Value::Bool(c.is_constructor()),
            SiteMethod::IsNative | SiteMethod::IsAsync | SiteMethod::IsPromiseAll => Value::Bool(
                false,
            ),
            SiteMethod::Text => Value::Str(c.text()),
        }
    }
}

/// The methods of a call site, in the order in which the prototype of call sites has them.
pub fn callsite_proto() -> (r: Vec<SiteMethod>)
    ensures
        r@ == seq![
            SiteMethod::This,
            SiteMethod::TypeName,
            SiteMethod::Function,
            SiteMethod::FunctionName,
            SiteMethod::MethodName,
            SiteMethod::FileName,
            SiteMethod::ScriptName,
            SiteMethod::ScriptHash,
            SiteMethod::LineNumber,
            SiteMethod::ColumnNumber,
            SiteMethod::EnclosingLine,
            SiteMethod::EnclosingColumn,
            SiteMethod::Position,
            SiteMethod::PromiseIndex,
            SiteMethod::EvalOrigin,
            SiteMethod::IsToplevel,
            SiteMethod::IsEval,
            SiteMethod::IsNative,
            SiteMethod::IsConstructor,
            SiteMethod::IsAsync,
            SiteMethod::IsPromiseAll,
            SiteMethod::Text,
        ],
{
    let mut out: Vec<SiteMethod> = Vec::new();
    out.push(SiteMethod::This);
    out.push(SiteMethod::TypeName);
    out.push(SiteMethod::Function);
    out.push(SiteMethod::FunctionName);
    out.push(SiteMethod::MethodName);
    out.push(SiteMethod::FileName);
    out.push(SiteMethod::ScriptName);
    out.push(SiteMethod::ScriptHash);
    out.push(SiteMethod::LineNumber);
    out.push(SiteMethod::ColumnNumber);
    out.push(SiteMethod::EnclosingLine);
    out.push(SiteMethod::EnclosingColumn);
    out.push(SiteMethod::Position);
    out.push(SiteMethod::PromiseIndex);
    out.push(SiteMethod::EvalOrigin);
    out.push(SiteMethod::IsToplevel);
    out.push(SiteMethod::IsEval);
    out.push(SiteMethod::IsNative);
    out.push(SiteMethod::IsConstructor);
    out.push(SiteMethod::IsAsync);
    out.push(SiteMethod::IsPromiseAll);
    out.push(SiteMethod::Text);
    out
}

} // verus!
