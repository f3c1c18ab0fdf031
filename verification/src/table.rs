use vstd::prelude::*;
use proc_macro2::Span;
use crate::attrs::{Types, Skips, Keys, Optionals, Rename, Structs, spec_skips, spec_skip_type, spec_key_type, kind_name};
use crate::error::{Error, Fault, call_site};
use crate::rules::Info;
use crate::text::push_str;

verus! {

/// The fields a `returning` attribute names, and the table they come from.
pub struct Returning {
    /// The path of the table struct, as its identifier, if one is named.
    pub table: Option<String>,
    /// The names of the returned fields.
    pub fields: Vec<String>,
}

/// A join target: a field identifier or a column name.
pub enum Named {
    String(String),
    Ident(String),
}

/// The struct attributes of `#[derive(Table)]`, as plain values.
///
/// Presence-only attributes are the span they were written at; attributes with a
/// value keep it with its span. Derive paths and visibilities are kept by their spans.
pub struct QueryTableAttr {
    pub table: String,
    pub rename: Option<Rename>,
    pub from_row: Option<Span>,
    pub from_flat: Option<Span>,
    pub try_from_flat: Option<Span>,
    pub flat_row: Option<Span>,
    pub flat: Option<Info<Option<String>>>,
    pub delete: Option<Info<Option<String>>>,
    pub insert: Option<Info<Option<String>>>,
    pub select: Option<Info<Option<String>>>,
    pub update: Option<Info<Option<String>>>,
    pub flat_derive: Vec<Span>,
    pub query_derive: Vec<Span>,
    pub delete_derive: Vec<Span>,
    pub insert_derive: Vec<Span>,
    pub select_derive: Vec<Span>,
    pub update_derive: Vec<Span>,
    pub flat_visibility: Option<Span>,
    pub query_visibility: Option<Span>,
    pub delete_visibility: Option<Span>,
    pub insert_visibility: Option<Span>,
    pub select_visibility: Option<Span>,
    pub update_visibility: Option<Span>,
    pub filter: Vec<Info<String>>,
    pub delete_filter: Vec<Info<String>>,
    pub select_filter: Vec<Info<String>>,
    pub update_filter: Vec<Info<String>>,
    pub dynamic: Option<Span>,
    pub optional: Option<Info<Option<Optionals>>>,
    pub delete_optional: Option<Info<Option<Optionals>>>,
    pub insert_optional: Option<Info<Option<Optionals>>>,
    pub select_optional: Option<Info<Option<Optionals>>>,
    pub update_optional: Option<Info<Option<Optionals>>>,
    pub serde_double_option: Option<Span>,
    pub returning: Option<Info<Option<Returning>>>,
    pub delete_returning: Option<Info<Option<Returning>>>,
    pub insert_returning: Option<Info<Option<Returning>>>,
    pub update_returning: Option<Info<Option<Returning>>>,
    pub unchecked: Option<Span>,
    pub print: Option<Span>,
    pub debug: Option<Span>,
}

/// The field attributes of `#[derive(Table)]`, as plain values.
pub struct QueryFieldAttr {
    pub column: Option<Info<String>>,
    pub rename: Option<Rename>,
    pub select: Vec<Info<String>>,
    pub insert: Vec<Info<String>>,
    pub update: Vec<Info<String>>,
    pub filter: Vec<Info<String>>,
    pub delete_filter: Vec<Info<String>>,
    pub select_filter: Vec<Info<String>>,
    pub update_filter: Vec<Info<String>>,
    pub optional: Option<Info<Option<bool>>>,
    pub delete_optional: Option<Info<Option<bool>>>,
    pub insert_optional: Option<Info<Option<bool>>>,
    pub select_optional: Option<Info<Option<bool>>>,
    pub update_optional: Option<Info<Option<bool>>>,
    pub value: Option<Span>,
    pub infer: Option<Span>,
    /// The span of the first `foreign` attribute, if any.
    pub foreign: Option<Span>,
    /// The SQL join clauses given to `foreign`.
    pub joins: Vec<Info<String>>,
    pub target: Option<Info<Named>>,
    pub named: Option<Info<String>>,
    pub typed: Option<Span>,
    pub from: Option<Span>,
    pub default: Option<Span>,
    /// Whether `default` comes with an expression.
    pub default_given: bool,
    pub skip: Option<Info<Vec<Info<Skips>>>>,
    pub key: Option<Info<Vec<Info<Keys>>>>,
}

/// A field of a `#[derive(Table)]` struct.
pub struct QueryField {
    /// The field name, without any `r#`.
    pub ident: String,
    pub span: Span,
    /// Whether the field's type (or its `from` type) is an `Option`.
    pub option: bool,
    /// The identifier of the struct that the field's type (inside any `Option`) names,
    /// if the type is a path.
    pub path: Option<String>,
    pub attr: QueryFieldAttr,
}

/// A `#[derive(Table)]` struct.
pub struct QueryTable {
    /// The struct name, without any `r#`.
    pub ident: String,
    pub fields: Vec<QueryField>,
    pub attr: QueryTableAttr,
}

/// The span of the first item of a list.
pub open spec fn spany<T>(v: Seq<Info<T>>) -> Option<Span> {
    if v.len() == 0 { None } else { Some(v[0].span) }
}

/// The span of the first item of a list.
pub fn first_span<T>(v: &Vec<Info<T>>) -> (r: Option<Span>)
    ensures
        r == spany(v@),
{
    if v.len() == 0 { None } else { Some(v[0].span) }
}

/// The span of the first item of a list of spans.
pub fn first_of(v: &Vec<Span>) -> (r: Option<Span>)
    ensures
        r == (if v@.len() == 0 { None } else { Some(v@[0]) }),
{
    if v.len() == 0 { None } else { Some(v[0]) }
}

impl QueryTable {
    /// The attribute generating the struct of a query type.
    pub open spec fn type_attr(&self, t: Types) -> Option<Info<Option<String>>> {
        match t {
            Types::Delete => self.attr.delete,
            Types::Insert => self.attr.insert,
            Types::Select => self.attr.select,
            Types::Update => self.attr.update,
        }
    }

    /// The query types whose struct is generated, in the order delete, insert, select, update.
    pub open spec fn spec_types(&self) -> Seq<Types> {
        (if self.attr.delete is Some { seq![Types::Delete] } else { Seq::empty() })
            + (if self.attr.insert is Some { seq![Types::Insert] } else { Seq::empty() })
            + (if self.attr.select is Some { seq![Types::Select] } else { Seq::empty() })
            + (if self.attr.update is Some { seq![Types::Update] } else { Seq::empty() })
    }

    /// The query types whose struct is generated.
    pub fn types(&self) -> (r: Vec<Types>)
        ensures
            r@ == self.spec_types(),
    {
        let mut r = Vec::new();
        if self.attr.delete.is_some() { r.push(Types::Delete); }
        if self.attr.insert.is_some() { r.push(Types::Insert); }
        if self.attr.select.is_some() { r.push(Types::Select); }
        if self.attr.update.is_some() { r.push(Types::Update); }
        proof {
            assert(r@ =~= self.spec_types());
        }
        r
    }

    /// Whether a field is skipped for an operation: `skip` with no values skips it everywhere.
    pub open spec fn spec_skipped(&self, field: QueryField, t: Skips) -> bool {
        match field.attr.skip {
            None => false,
            Some(arr) => arr.data@.len() == 0 || exists|i: int| 0 <= i < arr.data@.len() && arr.data@[i].data == t,
        }
    }

    /// Whether a field is skipped for an operation.
    pub fn skipped(&self, field: &QueryField, t: Skips) -> (b: bool)
        ensures
            b == self.spec_skipped(*field, t),
    {
        match &field.attr.skip {
            None => false,
            Some(arr) => {
                if arr.data.len() == 0 {
                    return true;
                }
                let mut i: usize = 0;
                while i < arr.data.len()
                    invariant
                        i <= arr.data@.len(),
                        field.attr.skip == Some(*arr),
                        forall|j: int| 0 <= j < i ==> arr.data@[j].data != t,
                    decreases arr.data@.len() - i,
                {
                    if arr.data[i].data == t {
                        assert(arr.data@[i as int].data == t);
                        return true;
                    }
                    i = i + 1;
                }
                false
            }
        }
    }

    /// Whether a field is a key for a query type: `key` with no values makes it a key everywhere.
    pub open spec fn spec_keyed(&self, field: QueryField, t: Types) -> bool {
        match field.attr.key {
            None => false,
            Some(arr) => arr.data@.len() == 0
                || exists|i: int| 0 <= i < arr.data@.len() && spec_key_type(arr.data@[i].data) == t,
        }
    }

    /// Whether a field is a key for a query type.
    pub fn keyed(&self, field: &QueryField, t: Types) -> (b: bool)
        ensures
            b == self.spec_keyed(*field, t),
    {
        match &field.attr.key {
            None => false,
            Some(arr) => {
                if arr.data.len() == 0 {
                    return true;
                }
                let mut i: usize = 0;
                while i < arr.data.len()
                    invariant
                        i <= arr.data@.len(),
                        field.attr.key == Some(*arr),
                        forall|j: int| 0 <= j < i ==> spec_key_type(arr.data@[j].data) != t,
                    decreases arr.data@.len() - i,
                {
                    if arr.data[i].data.types() == t {
                        assert(spec_key_type(arr.data@[i as int].data) == t);
                        return true;
                    }
                    i = i + 1;
                }
                false
            }
        }
    }

    /// Whether a field appears in the struct generated for a query type: unless
    /// skipped, delete and select structs hold the keys, insert and update structs all fields.
    pub open spec fn spec_fielded(&self, field: QueryField, t: Types) -> bool {
        !self.spec_skipped(field, spec_skips(t)) && match t {
            Types::Delete => self.spec_keyed(field, t),
            Types::Select => self.spec_keyed(field, t),
            Types::Insert => true,
            Types::Update => true,
        }
    }

    /// Whether a field appears in the struct generated for a query type.
    pub fn fielded(&self, field: &QueryField, t: Types) -> (b: bool)
        ensures
            b == self.spec_fielded(*field, t),
    {
        !self.skipped(field, t.skips()) && match t {
            Types::Delete => self.keyed(field, t),
            Types::Select => self.keyed(field, t),
            Types::Insert => true,
            Types::Update => true,
        }
    }

    /// The field's `optional` attribute for a query type, else its general one.
    pub open spec fn field_optional(field: QueryField, t: Types) -> Option<Info<Option<bool>>> {
        let typed = match t {
            Types::Delete => field.attr.delete_optional,
            Types::Insert => field.attr.insert_optional,
            Types::Select => field.attr.select_optional,
            Types::Update => field.attr.update_optional,
        };
        if typed is Some { typed } else { field.attr.optional }
    }

    /// The struct's `optional` attribute for a query type, else its general one.
    pub open spec fn table_optional(&self, t: Types) -> Option<Info<Option<Optionals>>> {
        let typed = match t {
            Types::Delete => self.attr.delete_optional,
            Types::Insert => self.attr.insert_optional,
            Types::Select => self.attr.select_optional,
            Types::Update => self.attr.update_optional,
        };
        if typed is Some { typed } else { self.attr.optional }
    }

    /// Where a field is optional in a query type: a field attribute decides
    /// (`optional = false` turns it off); otherwise a struct attribute applies to
    /// all fields, to the keys, or to the values.
    pub open spec fn spec_optional(&self, field: QueryField, t: Types) -> Option<Span> {
        match Self::field_optional(field, t) {
            Some(opt) => if opt.data matches Some(b) && !b { None } else { Some(opt.span) },
            None => match self.table_optional(t) {
                Some(opt) => {
                    let on = match opt.data {
                        Some(Optionals::Values) => !self.spec_keyed(field, t),
                        Some(Optionals::Keys) => self.spec_keyed(field, t),
                        None => true,
                    };
                    if on { Some(opt.span) } else { None }
                }
                None => None,
            },
        }
    }

    /// Where a field is optional in a query type.
    pub fn optional(&self, field: &QueryField, t: Types) -> (r: Option<Span>)
        ensures
            r == self.spec_optional(*field, t),
    {
        let typed = match t {
            Types::Delete => &field.attr.delete_optional,
            Types::Insert => &field.attr.insert_optional,
            Types::Select => &field.attr.select_optional,
            Types::Update => &field.attr.update_optional,
        };
        let fo = if typed.is_some() { typed } else { &field.attr.optional };
        if let Some(opt) = fo {
            return match opt.data {
                Some(b) => if b { Some(opt.span) } else { None },
                None => Some(opt.span),
            };
        }
        let typed = match t {
            Types::Delete => &self.attr.delete_optional,
            Types::Insert => &self.attr.insert_optional,
            Types::Select => &self.attr.select_optional,
            Types::Update => &self.attr.update_optional,
        };
        let to = if typed.is_some() { typed } else { &self.attr.optional };
        if let Some(opt) = to {
            let on = match opt.data {
                Some(Optionals::Values) => !self.keyed(field, t),
                Some(Optionals::Keys) => self.keyed(field, t),
                None => true,
            };
            return if on { Some(opt.span) } else { None };
        }
        None
    }

    /// Whether the struct generated for a query type is dynamic: where `dynamic`
    /// is given and one of the fields it holds is optional.
    pub open spec fn spec_dynamic_for(&self, t: Types) -> bool {
        &&& self.attr.dynamic is Some
        &&& exists|i: int| 0 <= i < self.fields@.len()
            && self.spec_fielded(#[trigger] self.fields@[i], t)
            && self.spec_optional(self.fields@[i], t) is Some
    }

    /// Whether the struct generated for a query type is dynamic.
    pub fn dynamic_for(&self, t: Types) -> (b: bool)
        ensures
            b == self.spec_dynamic_for(t),
    {
        if self.attr.dynamic.is_none() {
            return false;
        }
        let mut i: usize = 0;
        while i < self.fields.len()
            invariant
                i <= self.fields@.len(),
                self.attr.dynamic is Some,
                forall|j: int| 0 <= j < i ==> !(self.spec_fielded(#[trigger] self.fields@[j], t)
                    && self.spec_optional(self.fields@[j], t) is Some),
            decreases self.fields@.len() - i,
        {
            if self.fielded(&self.fields[i], t) && self.optional(&self.fields[i], t).is_some() {
                assert(self.spec_fielded(self.fields@[i as int], t));
                return true;
            }
            i = i + 1;
        }
        false
    }

    /// Whether the struct can be built from a row: with `from_row`, or when a select struct is generated.
    pub fn formable(&self) -> (b: bool)
        ensures
            b == (self.attr.from_row is Some || self.attr.select is Some),
    {
        self.attr.from_row.is_some() || self.attr.select.is_some()
    }
}

} // verus!
