use vstd::prelude::*;
use proc_macro2::Span;

verus! {

/// The source position that errors point at (`proc_macro2::Span`), carried through opaquely.
#[verifier::external_type_specification]
#[verifier::external_body]
pub struct ExSpan(Span);

/// What went wrong.
#[derive(Clone, Copy, PartialEq, Eq, Structural, Debug)]
pub enum Fault {
    /// `${` without a closing `}`.
    Unmatched,
    /// `$` not followed by an identifier.
    Missing,
    /// `$` followed by something that is not an identifier.
    Invalid,
    /// A placeholder naming no known parameter.
    Unknown,
    /// An attribute that is not used.
    Unused,
    /// Two attributes that exclude each other.
    Conflicting,
    /// Attributes whose meaning together is unclear.
    Ambiguous,
    /// An attribute value given twice.
    Duplicate,
    /// A query that cannot be completed.
    Incomplete,
    /// A reference that resolves to nothing.
    Unresolved,
}

/// What a specification gives for an error: its fault and its message.
pub type Failure = (Fault, Seq<char>);

/// An error at a source position, with its message.
#[derive(Debug)]
pub struct Error {
    pub span: Span,
    pub fault: Fault,
    pub message: String,
}

impl Error {
    /// Builds an error.
    pub fn new(span: Span, fault: Fault, message: String) -> (e: Error)
        ensures
            e.span == span,
            e.fault == fault,
            e.message == message,
    {
        Error { span, fault, message }
    }
}

/// The span of the macro call site (`proc_macro2::Span::call_site`).
#[verifier::external_body]
pub(crate) fn call_site() -> Span {
    Span::call_site()
}

} // verus!
