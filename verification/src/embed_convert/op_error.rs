//! Op failures.

use crate::object::{only_props_changed, put, Heap, Property};
use crate::value::Value;
use vstd::prelude::*;

verus! {

/// What an op failure is.
pub enum OpErrorRepr {
    New { class: String, message: String, code: Option<String> },
    Thrown(Value),
}

/// An op failure: a new error, with an optional Node-style code, or a thrown value that is passed
/// on.
pub struct OpError(pub OpErrorRepr);

/// An op failure, by its texts.
pub enum OpErrorView {
    New { class: Seq<char>, message: Seq<char>, code: Option<Seq<char>> },
    Thrown(Value),
}

impl View for OpError {
    type V = OpErrorView;

    open spec fn view(&self) -> OpErrorView {
        match self.0 {
            OpErrorRepr::New { class, message, code } => OpErrorView::New {
                class: class@,
                message: message@,
                code: match code {
                    Some(c) => Some(c@),
                    None => None,
                },
            },
            OpErrorRepr::Thrown(v) => OpErrorView::Thrown(v),
        }
    }
}

/// A new error without a code.
pub open spec fn new_error(class: Seq<char>, message: Seq<char>) -> OpErrorView {
    OpErrorView::New { class, message, code: None }
}

/// What an op may fail with.
pub trait IntoOpError: Sized {
    spec fn failure(self) -> OpErrorView;

    fn into_op_error(self) -> (r: OpError)
        ensures
            r@ == self.failure(),
    ;
}

impl IntoOpError for OpError {
    open spec fn failure(self) -> OpErrorView {
        self@
    }

    fn into_op_error(self) -> (r: OpError) {
        self
    }
}

/// A value is thrown as it is.
impl IntoOpError for Value {
    open spec fn failure(self) -> OpErrorView {
        OpErrorView::Thrown(self)
    }

    fn into_op_error(self) -> (r: OpError) {
        OpError::thrown(self)
    }
}

/// A text is the message of an `Error`.
impl IntoOpError for String {
    open spec fn failure(self) -> OpErrorView {
        new_error("Error"@, self@)
    }

    fn into_op_error(self) -> (r: OpError) {
        OpError::error(self.as_str())
    }
}

/// A text is the message of an `Error`.
impl IntoOpError for &str {
    open spec fn failure(self) -> OpErrorView {
        new_error("Error"@, self@)
    }

    fn into_op_error(self) -> (r: OpError) {
        OpError::error(self)
    }
}

impl OpError {
    /// A new error of a class.
    pub fn new(class: &str, message: &str) -> (r: OpError)
        ensures
            r@ == new_error(class@, message@),
    {
        OpError(
            OpErrorRepr::New { class: class.to_owned(), message: message.to_owned(), code: None },
        )
    }

    pub fn error(message: &str) -> (r: OpError)
        ensures
            r@ == new_error("Error"@, message@),
    {
        OpError::new("Error", message)
    }

    pub fn type_error(message: &str) -> (r: OpError)
        ensures
            r@ == new_error("TypeError"@, message@),
    {
        OpError::new("TypeError", message)
    }

    pub fn range_error(message: &str) -> (r: OpError)
        ensures
            r@ == new_error("RangeError"@, message@),
    {
        OpError::new("RangeError", message)
    }

    pub fn syntax_error(message: &str) -> (r: OpError)
        ensures
            r@ == new_error("SyntaxError"@, message@),
    {
        OpError::new("SyntaxError", message)
    }

    /// Passes a thrown value on.
    pub fn thrown(v: Value) -> (r: OpError)
        ensures
            r@ == OpErrorView::Thrown(v),
    {
        OpError(OpErrorRepr::Thrown(v))
    }

    /// Attaches a code; a passed-on value keeps none.
    pub fn with_code(self, c: &str) -> (r: OpError)
        ensures
            r@ == match self@ {
                OpErrorView::New { class, message, .. } => OpErrorView::New {
                    class,
                    message,
                    code: Some(c@),
                },
                OpErrorView::Thrown(v) => OpErrorView::Thrown(v),
            },
    {
        match self.0 {
            OpErrorRepr::New { class, message, .. } => OpError(
                OpErrorRepr::New { class, message, code: Some(c.to_owned()) },
            ),
            OpErrorRepr::Thrown(v) => OpError(OpErrorRepr::Thrown(v)),
        }
    }

    /// The error class; `Thrown` for a passed-on value.
    pub fn class(&self) -> (r: &str)
        ensures
            r@ == match self@ {
                OpErrorView::New { class, .. } => class,
                OpErrorView::Thrown(_) => "Thrown"@,
            },
    {
        match &self.0 {
            OpErrorRepr::New { class, .. } => class.as_str(),
            OpErrorRepr::Thrown(_) => "Thrown",
        }
    }

    /// The message; empty for a passed-on value.
    pub fn message(&self) -> (r: &str)
        ensures
            r@ == match self@ {
                OpErrorView::New { message, .. } => message,
                OpErrorView::Thrown(_) => ""@,
            },
    {
        match &self.0 {
            OpErrorRepr::New { message, .. } => message.as_str(),
            OpErrorRepr::Thrown(_) => "",
        }
    }

    /// The value to throw. `made` is the error object of the class and message, which a passed-on
    /// value does not need; a code becomes its property.
    pub fn to_value(self, heap: &mut Heap, made: Value) -> (r: Value)
        requires
            made matches Value::Obj(o) ==> old(heap).has(o),
        ensures
            match self@ {
                OpErrorView::Thrown(v) => r == v && *final(heap) == *old(heap),
                OpErrorView::New { code, .. } => {
                    &&& r == made
                    &&& match (code, made) {
                        (Some(c), Value::Obj(o)) => exists|v: Value|
                            #![trigger Property::spec_data(v, true, true, true)]
                            (v matches Value::Str(s) && s@ == c) && only_props_changed(
                                *old(heap),
                                *final(heap),
                                o,
                                put(
                                    old(heap).at(o).props@,
                                    "code"@,
                                    Property::spec_data(v, true, true, true),
                                ),
                            ),
                        _ => *final(heap) == *old(heap),
                    }
                },
            },
    {
        match self.0 {
            OpErrorRepr::Thrown(v) => v,
            OpErrorRepr::New { code, .. } => {
                if let Some(c) = code {
                    if let Value::Obj(o) = &made {
                        let v = Value::Str(c);
                        let p = Property::plain(v);
                        heap.set_prop(*o, "code", p);
                    }
                }
                made
            },
        }
    }

    /// `class: message`, or a note that a value was thrown.
    pub fn text(&self) -> (r: String)
        ensures
            r@ == match self@ {
                OpErrorView::New { class, message, .. } => class + ": "@ + message,
                OpErrorView::Thrown(_) => "<thrown JS value>"@,
            },
    {
        match &self.0 {
            OpErrorRepr::New { class, message, .. } => {
                let mut out = class.clone();
                out.append(": ");
                out.append(message.as_str());
                out
            },
            OpErrorRepr::Thrown(_) => "<thrown JS value>".to_owned(),
        }
    }
}

/// The kinds of I/O failure that have a code.
#[derive(Clone, Copy, Debug, PartialEq, Eq, Structural)]
pub enum IoKind {
    NotFound,
    PermissionDenied,
    AlreadyExists,
    ConnectionRefused,
    ConnectionReset,
    ConnectionAborted,
    TimedOut,
    BrokenPipe,
    InvalidInput,
    AddrInUse,
    WouldBlock,
    Interrupted,
    Unsupported,
    DirectoryNotEmpty,
    IsADirectory,
    NotADirectory,
    /// Any other kind.
    Other,
}

/// The Node-style code of a kind of I/O failure.
pub open spec fn code_text(k: IoKind) -> Option<Seq<char>> {
    match k {
        IoKind::NotFound => Some("ENOENT"@),
        IoKind::PermissionDenied => Some("EACCES"@),
        IoKind::AlreadyExists => Some("EEXIST"@),
        IoKind::ConnectionRefused => Some("ECONNREFUSED"@),
        IoKind::ConnectionReset => Some("ECONNRESET"@),
        IoKind::ConnectionAborted => Some("ECONNABORTED"@),
        IoKind::TimedOut => Some("ETIMEDOUT"@),
        IoKind::BrokenPipe => Some("EPIPE"@),
        IoKind::InvalidInput => Some("EINVAL"@),
        IoKind::AddrInUse => Some("EADDRINUSE"@),
        IoKind::WouldBlock => Some("EAGAIN"@),
        IoKind::Interrupted => Some("EINTR"@),
        IoKind::Unsupported => Some("ENOTSUP"@),
        IoKind::DirectoryNotEmpty => Some("ENOTEMPTY"@),
        IoKind::IsADirectory => Some("EISDIR"@),
        IoKind::NotADirectory => Some("ENOTDIR"@),
        IoKind::Other => None,
    }
}

fn io_code(k: IoKind) -> (r: Option<&'static str>)
    ensures
        match r {
            Some(s) => code_text(k) == Some(s@),
            None => code_text(k) is None,
        },
{
    match k {
        IoKind::NotFound => Some("ENOENT"),
        IoKind::PermissionDenied => Some("EACCES"),
        IoKind::AlreadyExists => Some("EEXIST"),
        IoKind::ConnectionRefused => Some("ECONNREFUSED"),
        IoKind::ConnectionReset => Some("ECONNRESET"),
        IoKind::ConnectionAborted => Some("ECONNABORTED"),
        IoKind::TimedOut => Some("ETIMEDOUT"),
        IoKind::BrokenPipe => Some("EPIPE"),
        IoKind::InvalidInput => Some("EINVAL"),
        IoKind::AddrInUse => Some("EADDRINUSE"),
        IoKind::WouldBlock => Some("EAGAIN"),
        IoKind::Interrupted => Some("EINTR"),
        IoKind::Unsupported => Some("ENOTSUP"),
        IoKind::DirectoryNotEmpty => Some("ENOTEMPTY"),
        IoKind::IsADirectory => Some("EISDIR"),
        IoKind::NotADirectory => Some("ENOTDIR"),
        IoKind::Other => None,
    }
}

/// A failure of the standard library that is no I/O failure.
#[derive(Clone, Copy, Debug, PartialEq, Eq, Structural)]
pub enum StdFailure {
    /// A text could not be written.
    Fmt,
    /// A text is no integer.
    ParseInt,
    /// A text is no number.
    ParseFloat,
    /// An integer does not fit.
    TryFromInt,
    /// Bytes are no text.
    Utf8,
    /// Any other failure.
    Other,
}

/// The class of the error that a failure becomes.
pub open spec fn failure_class(f: StdFailure) -> Seq<char> {
    match f {
        StdFailure::Fmt | StdFailure::Other => "Error"@,
        StdFailure::ParseInt | StdFailure::ParseFloat => "SyntaxError"@,
        StdFailure::TryFromInt => "RangeError"@,
        StdFailure::Utf8 => "TypeError"@,
    }
}

/// The error of a failure with its text.
pub fn from_std(f: StdFailure, text: &str) -> (r: OpError)
    ensures
        r@ == new_error(failure_class(f), text@),
{
    match f {
        StdFailure::Fmt | StdFailure::Other => OpError::error(text),
        StdFailure::ParseInt | StdFailure::ParseFloat => OpError::syntax_error(text),
        StdFailure::TryFromInt => OpError::range_error(text),
        StdFailure::Utf8 => OpError::type_error(text),
    }
}

/// The error of an I/O failure: its text, and a code when the kind has one.
pub fn from_io(kind: IoKind, text: &str) -> (r: OpError)
    ensures
        r@ == (OpErrorView::New { class: "Error"@, message: text@, code: code_text(kind) }),
{
    let err = OpError::error(text);
    match io_code(kind) {
        Some(c) => err.with_code(c),
        None => err,
    }
}

} // verus!
