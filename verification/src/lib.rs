use vstd::prelude::*;

pub mod text;
pub mod escape;
pub mod write;
pub mod ident;
pub mod error;
pub mod rules;
pub mod params;
pub mod attrs;
pub mod rename;
pub mod table;
pub mod types;
pub mod builder;
pub mod query;
pub mod delete;
pub mod insert;
pub mod select;
pub mod update;
pub mod validate;
pub mod construct;
pub mod search;
pub mod returning;
pub mod form;
pub mod local;
pub mod dynamic;
pub mod occur;
pub mod laws;
pub mod query_laws;

verus! {
} // verus!
