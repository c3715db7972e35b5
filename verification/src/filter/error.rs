//! Why a filter text does not compile.
use vstd::prelude::*;
use vstd::string::StringExecFns;

verus! {

/// What a compile error is.
pub enum CompileErrorView {
    /// A comparison was expected and the text holds no operator.
    Syntax(Seq<char>),
    /// A comparison names a column that the table lacks.
    UnknownColumn(Seq<char>),
}

/// The reason for which a filter text was rejected.
#[derive(Debug, PartialEq, Eq)]
pub enum CompileError {
    /// A comparison was expected and the text, which the error carries,
    /// holds no operator.
    Syntax(String),
    /// A comparison names a column, which the error carries, that the table
    /// lacks.
    UnknownColumn(String),
}

impl View for CompileError {
    type V = CompileErrorView;

    open spec fn view(&self) -> CompileErrorView {
        match self {
            CompileError::Syntax(text) => CompileErrorView::Syntax(text@),
            CompileError::UnknownColumn(name) => CompileErrorView::UnknownColumn(name@),
        }
    }
}

impl CompileErrorView {
    /// The message that describes the error: its kind, then the text that
    /// caused it.
    pub open spec fn message(self) -> Seq<char> {
        match self {
            CompileErrorView::Syntax(text) => "expected comparison operator: "@ + text,
            CompileErrorView::UnknownColumn(name) => "unknown column: "@ + name,
        }
    }
}

impl CompileError {
    /// The message that describes the error.
    pub fn message(&self) -> (r: String)
        ensures
            r@ == self@.message(),
    {
        match self {
            CompileError::Syntax(text) => {
                String::from_str("expected comparison operator: ").concat(text.as_str())
            },
            CompileError::UnknownColumn(name) => {
                String::from_str("unknown column: ").concat(name.as_str())
            },
        }
    }
}

} // verus!
