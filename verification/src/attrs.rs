use vstd::prelude::*;

verus! {

/// The structs that `#[derive(Table)]` can generate.
#[derive(Clone, Copy, PartialEq, Eq, Structural, Debug)]
pub enum Structs {
    Flat,
    Delete,
    Insert,
    Select,
    Update,
}

/// The operations a field can be skipped in.
#[derive(Clone, Copy, PartialEq, Eq, Structural, Debug)]
pub enum Skips {
    Delete,
    Insert,
    Select,
    Update,
    FromRow,
}

/// The query types.
#[derive(Clone, Copy, PartialEq, Eq, Structural, Debug)]
pub enum Types {
    Delete,
    Insert,
    Select,
    Update,
}

/// The query types a field can be a key in.
#[derive(Clone, Copy, PartialEq, Eq, Structural, Debug)]
pub enum Keys {
    Delete,
    Select,
    Update,
}

/// Which fields a struct-level `optional` applies to.
#[derive(Clone, Copy, PartialEq, Eq, Structural, Debug)]
pub enum Optionals {
    Keys,
    Values,
}

/// The case conventions a name can be renamed to.
#[derive(Clone, Copy, PartialEq, Eq, Structural, Debug)]
pub enum Rename {
    Unchanged,
    LowerCase,
    UpperCase,
    CamelCase,
    PascalCase,
    SnakeCase,
    KebabCase,
    UpperSnakeCase,
    UpperKebabCase,
}

impl Types {
    /// The struct generated for this query type.
    pub fn structs(self) -> (s: Structs)
        ensures
            s == spec_structs(self),
    {
        match self {
            Types::Delete => Structs::Delete,
            Types::Insert => Structs::Insert,
            Types::Select => Structs::Select,
            Types::Update => Structs::Update,
        }
    }

    /// The skip value naming this query type.
    pub fn skips(self) -> (s: Skips)
        ensures
            s == spec_skips(self),
    {
        match self {
            Types::Delete => Skips::Delete,
            Types::Insert => Skips::Insert,
            Types::Select => Skips::Select,
            Types::Update => Skips::Update,
        }
    }

    /// The query type a skip value names, if it names one.
    pub fn from_skips(s: Skips) -> (t: Option<Types>)
        ensures
            t == spec_skip_type(s),
    {
        match s {
            Skips::Delete => Some(Types::Delete),
            Skips::Insert => Some(Types::Insert),
            Skips::Select => Some(Types::Select),
            Skips::Update => Some(Types::Update),
            Skips::FromRow => None,
        }
    }

    /// The attribute name of this query type.
    pub fn name(self) -> (s: &'static str)
        ensures
            s@ == kind_name(self),
    {
        match self {
            Types::Delete => "delete",
            Types::Insert => "insert",
            Types::Select => "select",
            Types::Update => "update",
        }
    }
}

impl Keys {
    /// The query type this key value names.
    pub fn types(self) -> (t: Types)
        ensures
            t == spec_key_type(self),
    {
        match self {
            Keys::Delete => Types::Delete,
            Keys::Select => Types::Select,
            Keys::Update => Types::Update,
        }
    }
}

/// The struct generated for a query type.
pub open spec fn spec_structs(t: Types) -> Structs {
    match t {
        Types::Delete => Structs::Delete,
        Types::Insert => Structs::Insert,
        Types::Select => Structs::Select,
        Types::Update => Structs::Update,
    }
}

/// The skip value naming a query type.
pub open spec fn spec_skips(t: Types) -> Skips {
    match t {
        Types::Delete => Skips::Delete,
        Types::Insert => Skips::Insert,
        Types::Select => Skips::Select,
        Types::Update => Skips::Update,
    }
}

/// The query type a skip value names.
pub open spec fn spec_skip_type(s: Skips) -> Option<Types> {
    match s {
        Skips::Delete => Some(Types::Delete),
        Skips::Insert => Some(Types::Insert),
        Skips::Select => Some(Types::Select),
        Skips::Update => Some(Types::Update),
        Skips::FromRow => None,
    }
}

/// The query type a key value names.
pub open spec fn spec_key_type(k: Keys) -> Types {
    match k {
        Keys::Delete => Types::Delete,
        Keys::Select => Types::Select,
        Keys::Update => Types::Update,
    }
}

/// The attribute name of a query type.
pub open spec fn kind_name(t: Types) -> Seq<char> {
    match t {
        Types::Delete => "delete"@,
        Types::Insert => "insert"@,
        Types::Select => "select"@,
        Types::Update => "update"@,
    }
}

/// The attributes of a table struct that its generated query struct of type `t`
/// takes over (of a field, for `field`): for each, the name it is written under
/// on the query struct, the name given for that query type alone, and the name
/// given for all; those given for the type alone are taken over, else those given
/// for all.
pub open spec fn forwarded_names(t: Types, field: bool) -> Seq<(Seq<char>, Seq<char>, Seq<char>)> {
    if field {
        seq![("column"@, "column"@, "column"@), ("rename"@, "rename"@, "rename"@),
            ("infer"@, "infer"@, "infer"@), ("value"@, "value"@, "value"@)]
        + match t {
            Types::Delete => seq![("filter"@, "delete_filter"@, "filter"@)],
            Types::Insert => seq![("insert"@, "insert"@, "insert"@)],
            Types::Select => seq![("filter"@, "select_filter"@, "filter"@)],
            Types::Update => seq![("filter"@, "update_filter"@, "filter"@), ("update"@, "update"@, "update"@)],
        }
    } else {
        match t {
            Types::Delete => seq![("filter"@, "delete_filter"@, "filter"@), ("returning"@, "delete_returning"@, "returning"@)],
            Types::Insert => seq![("returning"@, "insert_returning"@, "returning"@)],
            Types::Select => seq![("filter"@, "select_filter"@, "filter"@)],
            Types::Update => seq![("filter"@, "update_filter"@, "filter"@), ("returning"@, "update_returning"@, "returning"@)],
        }
    }
}

/// The views of a list of name triples.
pub open spec fn name_views(v: Seq<(&'static str, &'static str, &'static str)>) -> Seq<(Seq<char>, Seq<char>, Seq<char>)> {
    v.map_values(|x: (&'static str, &'static str, &'static str)| (x.0@, x.1@, x.2@))
}

/// The attributes a generated query struct, or one of its fields, takes over
/// (see `forwarded_names`).
pub fn forwarded(t: Types, field: bool) -> (r: Vec<(&'static str, &'static str, &'static str)>)
    ensures
        name_views(r@) == forwarded_names(t, field),
{
    let mut r: Vec<(&'static str, &'static str, &'static str)> = Vec::new();
    if field {
        r.push(("column", "column", "column"));
        r.push(("rename", "rename", "rename"));
        r.push(("infer", "infer", "infer"));
        r.push(("value", "value", "value"));
        match t {
            Types::Delete => r.push(("filter", "delete_filter", "filter")),
            Types::Insert => r.push(("insert", "insert", "insert")),
            Types::Select => r.push(("filter", "select_filter", "filter")),
            Types::Update => {
                r.push(("filter", "update_filter", "filter"));
                r.push(("update", "update", "update"));
            }
        }
    } else {
        match t {
            Types::Delete => {
                r.push(("filter", "delete_filter", "filter"));
                r.push(("returning", "delete_returning", "returning"));
            }
            Types::Insert => r.push(("returning", "insert_returning", "returning")),
            Types::Select => r.push(("filter", "select_filter", "filter")),
            Types::Update => {
                r.push(("filter", "update_filter", "filter"));
                r.push(("returning", "update_returning", "returning"));
            }
        }
    }
    assert(name_views(r@) =~= forwarded_names(t, field));
    r
}

/// The values taken over: those given for the query type alone, else those given for all.
pub fn preferred<T>(own: Vec<T>, general: Vec<T>) -> (r: Vec<T>)
    ensures
        r@ == if own@.len() > 0 { own@ } else { general@ },
{
    if own.len() > 0 { own } else { general }
}

} // verus!
