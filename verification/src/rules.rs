use vstd::prelude::*;
use proc_macro2::Span;

verus! {

/// A value together with the source position it was written at.
pub struct Info<T> {
    pub span: Span,
    pub data: T,
}

impl<T> Info<T> {
    /// Pairs a value with its position.
    pub fn new(data: T, span: Span) -> (r: Self)
        ensures
            r.data == data,
            r.span == span,
    {
        Info { span, data }
    }
}

/// An attribute value without data.
pub struct Void;

} // verus!
