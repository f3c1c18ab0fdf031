use vstd::prelude::*;
use crate::error::{Error, Fault, Failure};
use crate::params::{Params, Param, Value, Run, outputted, lines};
use crate::query::{info_lines, infos};
use crate::rules::Info;
use crate::table::{QueryTable, QueryField};
use crate::types::{declare, declared, Derived};
use crate::text::push_str;
use crate::attrs::Skips;
use crate::construct::{Code, Foreign, Nullable};

verus! {

/// Who reads a query: the compile-time check macro, or the generated function.
#[derive(Clone, Copy, PartialEq, Eq, Structural)]
pub enum Target {
    Macro,
    Function,
}

/// A type annotation as the target reads it: the check macro keeps it, the
/// generated function drops it.
pub open spec fn modified(m: Seq<char>, target: Target) -> Seq<char> {
    if target == Target::Macro { m } else { Seq::empty() }
}

/// The parameters a select expression may name: `$table` and `$column`.
pub open spec fn select_map(table: Seq<char>, column: Seq<char>) -> Map<Seq<char>, Param> {
    Map::<Seq<char>, Param>::empty().insert("table"@, Param::Text(table)).insert("column"@, Param::Text(column))
}

/// The text `q` followed by one selected column: the given expression lines, or
/// the qualified column, named by its alias where it differs.
pub open spec fn selected(
    q: Seq<char>,
    ls: Seq<Seq<char>>,
    table: Seq<char>,
    column: Seq<char>,
    alias: Seq<char>,
    modifier: Seq<char>,
) -> Result<Seq<char>, Failure> {
    if ls.len() > 0 {
        match outputted::<String>(
            select_map(table, column),
            Run { text: q + "\t"@, noted: Seq::empty(), cells: Seq::empty(), state: Seq::empty() },
            ls,
        ) {
            Ok(r) => Ok(r.text + " AS \""@ + alias + modifier + "\",\n"@),
            Err((f, _)) => Err(f),
        }
    } else if column == alias && modifier.len() == 0 {
        Ok(q + "\t\""@ + table + "\".\""@ + column + "\",\n"@)
    } else {
        Ok(q + "\t\""@ + table + "\".\""@ + column + "\" AS \""@ + alias + modifier + "\",\n"@)
    }
}

/// Appends one selected column to a query: the expression lines with `$table` and
/// `$column` replaced, or the qualified column; named by `alias` and the modifier
/// where the target keeps it.
pub fn selector(
    query: &mut String,
    list: &[&Info<String>],
    table: &str,
    column: &str,
    alias: &str,
    modifier: &str,
    target: Target,
) -> (r: Result<(), Error>)
    ensures
        match selected(old(query)@, lines(list@), table@, column@, alias@, modified(modifier@, target)) {
            Ok(t) => r is Ok && final(query)@ == t,
            Err(f) => r matches Err(e) && e.fault == f.0 && e.message@ == f.1,
        },
{
    let modifier = match target {
        Target::Macro => modifier,
        Target::Function => "",
    };
    proof {
        reveal_strlit("");
        assert(""@ =~= Seq::<char>::empty());
    }
    assert(modifier@ == modified(modifier@, target) || target == Target::Macro);
    if list.len() > 0 {
        push_str(query, "\t");
        let mut params = Params::default();
        params.put("table", Value::Text(table.to_owned()));
        params.put("column", Value::Text(column.to_owned()));
        assert(params.map() =~= select_map(table@, column@));
        assert(params.cells@ =~= Seq::<crate::params::Dollar<crate::params::Index>>::empty());
        assert(params.state@ =~= Seq::<usize>::empty());
        params.output(query, list)?;
        push_str(query, " AS \"");
        push_str(query, alias);
        push_str(query, modifier);
        push_str(query, "\",\n");
    } else if column.to_owned() == alias.to_owned() && modifier.is_empty() {
        push_str(query, "\t\"");
        push_str(query, table);
        push_str(query, "\".\"");
        push_str(query, column);
        push_str(query, "\",\n");
    } else {
        push_str(query, "\t\"");
        push_str(query, table);
        push_str(query, "\".\"");
        push_str(query, column);
        push_str(query, "\" AS \"");
        push_str(query, alias);
        push_str(query, modifier);
        push_str(query, "\",\n");
    }
    Ok(())
}

/// `q` less a last `,\n`, if it ends with one.
pub open spec fn trimmed_comma(q: Seq<char>) -> Seq<char> {
    if q.len() >= 2 && q.skip(q.len() - 2) == ",\n"@ { q.take(q.len() - 2) } else { q }
}

/// Takes a last `,\n` off the query.
pub fn trim_comma(query: &mut String)
    ensures
        final(query)@ == trimmed_comma(old(query)@),
{
    let mut cuts: Vec<&str> = Vec::new();
    cuts.push(",\n");
    let ghost q = query@;
    proof {
        reveal_strlit(",\n");
        let v = crate::builder::views(cuts@);
        assert(v =~= seq![",\n"@]);
        assert(v.drop_first() =~= Seq::<Seq<char>>::empty());
        assert(crate::builder::cut_suffix(q, v.drop_first()) is None);
    }
    let _ = crate::builder::cut_string(query, cuts.as_slice());
}

/// How the flat struct converts into the table struct: `TryFrom` or `From`.
#[derive(Clone, Copy, PartialEq, Eq, Structural, Debug)]
pub enum Conversion {
    Fallible,
    Infallible,
}

impl QueryTable {
    /// The column name and type annotation of a field.
    pub open spec fn spec_declaration(&self, field: QueryField) -> (Seq<char>, Seq<char>) {
        declared(
            match field.attr.column { Some(c) => Some(c.data@), None => None },
            field.attr.infer is Some,
            if field.attr.rename is Some { field.attr.rename } else { self.attr.rename },
            field.ident@,
        )
    }

    /// The column name and type annotation of a field.
    pub fn declaration(&self, field: &QueryField) -> (r: (String, String))
        ensures
            (r.0@, r.1@) == self.spec_declaration(*field),
    {
        let rename = if field.attr.rename.is_some() { field.attr.rename } else { self.attr.rename };
        let column = match &field.attr.column {
            Some(c) => Some(&c.data),
            None => None,
        };
        declare(column, field.attr.infer.is_some(), rename, field.ident.as_str())
    }

    /// How a field may be absent: by its `default`, or by an `Option` type.
    pub open spec fn spec_nullable(&self, field: QueryField) -> Option<Nullable> {
        match field.attr.default {
            Some(span) => Some(Nullable::Default(span)),
            None => if field.option { Some(Nullable::Option) } else { None },
        }
    }

    /// How a field may be absent.
    pub fn nullable(&self, field: &QueryField) -> (r: Option<Nullable>)
        ensures
            r == self.spec_nullable(*field),
    {
        match field.attr.default {
            Some(span) => Some(Nullable::Default(span)),
            None => if field.option { Some(Nullable::Option) } else { None },
        }
    }

    /// How a field is read: skipped from rows, joined where `foreign` is given (its
    /// type must name a struct), else selected.
    pub open spec fn spec_code(&self, field: QueryField) -> Result<Code<Foreign>, Failure> {
        if self.spec_skipped(field, Skips::FromRow) {
            Ok(Code::Skip)
        } else if field.attr.foreign is Some {
            match field.path {
                Some(path) => Ok(Code::Foreign(Foreign { path, nullable: self.spec_nullable(field) })),
                None => Err((Fault::Invalid, "invalid type: expected path\nnote: expected due to #[sqly(foreign)] attribute"@)),
            }
        } else {
            Ok(Code::Query)
        }
    }

    /// How a field is read.
    pub fn code(&self, field: &QueryField) -> (r: Result<Code<Foreign>, Error>)
        ensures
            match self.spec_code(*field) {
                Ok(c) => r == Ok::<Code<Foreign>, Error>(c),
                Err(f) => r matches Err(e) && e.fault == f.0 && e.message@ == f.1,
            },
    {
        if self.skipped(field, Skips::FromRow) {
            Ok(Code::Skip)
        } else if let Some(span) = field.attr.foreign {
            match &field.path {
                Some(path) => Ok(Code::Foreign(Foreign { path: path.clone(), nullable: self.nullable(field) })),
                None => Err(Error::new(span, Fault::Invalid,
                    "invalid type: expected path\nnote: expected due to #[sqly(foreign)] attribute".to_owned())),
            }
        } else {
            Ok(Code::Query)
        }
    }

    /// The positions of the fields selected from rows, in order, where every field can be read.
    pub open spec fn spec_flats(&self, n: int) -> Result<Seq<usize>, Failure>
        decreases n,
    {
        if n <= 0 {
            Ok(Seq::empty())
        } else {
            match self.spec_flats(n - 1) {
                Err(f) => Err(f),
                Ok(v) => match self.spec_code(self.fields@[n - 1]) {
                    Err(f) => Err(f),
                    Ok(Code::Query) => Ok(v.push((n - 1) as usize)),
                    Ok(_) => Ok(v),
                },
            }
        }
    }

    /// The fields of the table struct's flat struct: those selected from rows.
    pub fn flats(&self) -> (r: Result<Vec<usize>, Error>)
        ensures
            match self.spec_flats(self.fields@.len() as int) {
                Ok(v) => r matches Ok(x) && x@ == v,
                Err(f) => r matches Err(e) && e.fault == f.0 && e.message@ == f.1,
            },
    {
        let mut r: Vec<usize> = Vec::new();
        let mut i: usize = 0;
        while i < self.fields.len()
            invariant
                i <= self.fields@.len(),
                self.spec_flats(i as int) == Ok::<Seq<usize>, Failure>(r@),
            decreases self.fields@.len() - i,
        {
            match self.code(&self.fields[i]) {
                Err(e) => {
                    proof { self.lemma_flats_err(i + 1, self.fields@.len() as int); }
                    return Err(e);
                }
                Ok(Code::Query) => { r.push(i); }
                Ok(_) => {}
            }
            i = i + 1;
        }
        Ok(r)
    }

    /// The conversion from the flat struct into the table struct: fallible with
    /// `try_from_flat`, else infallible with `from_flat`, else none.
    pub open spec fn spec_flat_conversion(&self) -> Option<Conversion> {
        if self.attr.try_from_flat is Some {
            Some(Conversion::Fallible)
        } else if self.attr.from_flat is Some {
            Some(Conversion::Infallible)
        } else {
            None
        }
    }

    /// The conversion from the flat struct into the table struct (see `spec_flat_conversion`).
    pub fn flat_conversion(&self) -> (r: Option<Conversion>)
        ensures
            r == self.spec_flat_conversion(),
    {
        if self.attr.try_from_flat.is_some() {
            Some(Conversion::Fallible)
        } else if self.attr.from_flat.is_some() {
            Some(Conversion::Infallible)
        } else {
            None
        }
    }

    /// How field `i` is typed in the flat struct: its position, whether it is read
    /// as its `from` type (else as its own type), and whether that type is wrapped
    /// in an `Option` (it has a `default`).
    pub open spec fn flat_typing(&self, i: usize) -> (usize, bool, bool) {
        (i, self.fields@[i as int].attr.from is Some, self.fields@[i as int].attr.default is Some)
    }

    /// The fields of the flat struct (see `flats`), each with how it is typed.
    pub fn flat_types(&self) -> (r: Result<Vec<(usize, bool, bool)>, Error>)
        ensures
            match self.spec_flats(self.fields@.len() as int) {
                Ok(v) => r matches Ok(x) && x@ == v.map_values(|i: usize| self.flat_typing(i)),
                Err(f) => r matches Err(e) && e.fault == f.0 && e.message@ == f.1,
            },
    {
        let mut out: Vec<(usize, bool, bool)> = Vec::new();
        let ghost mut idx: Seq<usize> = Seq::empty();
        let mut i: usize = 0;
        while i < self.fields.len()
            invariant
                i <= self.fields@.len(),
                self.spec_flats(i as int) == Ok::<Seq<usize>, Failure>(idx),
                out@ == idx.map_values(|k: usize| self.flat_typing(k)),
            decreases self.fields@.len() - i,
        {
            let field = &self.fields[i];
            match self.code(field) {
                Err(e) => {
                    proof { self.lemma_flats_err(i + 1, self.fields@.len() as int); }
                    return Err(e);
                }
                Ok(Code::Query) => {
                    out.push((i, field.attr.from.is_some(), field.attr.default.is_some()));
                    proof {
                        idx = idx.push(i);
                        assert(out@ =~= idx.map_values(|k: usize| self.flat_typing(k)));
                    }
                }
                Ok(_) => {}
            }
            i = i + 1;
        }
        Ok(out)
    }

    /// A field that cannot be read fails the whole list.
    pub proof fn lemma_flats_err(&self, i: int, n: int)
        requires
            0 <= i <= n,
            self.spec_flats(i) is Err,
        ensures
            self.spec_flats(n) == self.spec_flats(i),
        decreases n - i,
    {
        if n > i {
            self.lemma_flats_err(i, n - 1);
        }
    }

    /// The selected columns of the first `n` fields, appended to `q`.
    pub open spec fn spec_listed(&self, q: Seq<char>, target: Target, n: int) -> Result<Seq<char>, Failure>
        decreases n,
    {
        if n <= 0 {
            Ok(q)
        } else {
            match self.spec_listed(q, target, n - 1) {
                Err(f) => Err(f),
                Ok(q1) => {
                    let field = self.fields@[n - 1];
                    match self.spec_code(field) {
                        Err(f) => Err(f),
                        Ok(Code::Query) => {
                            let (column, modifier) = self.spec_declaration(field);
                            selected(q1, info_lines(field.attr.select@), "self"@, column, field.ident@, modified(modifier, target))
                        },
                        Ok(_) => Ok(q1),
                    }
                }
            }
        }
    }

    /// Appends the selected columns of the table: its fields read from rows, each
    /// as `selector` writes it, less the last `,\n`.
    pub fn listed(&self, query: &mut String, target: Target) -> (r: Result<(), Error>)
        ensures
            match self.spec_listed(old(query)@, target, self.fields@.len() as int) {
                Ok(q) => r is Ok && final(query)@ == trimmed_comma(q),
                Err(f) => r matches Err(e) && e.fault == f.0 && e.message@ == f.1,
            },
    {
        let mut i: usize = 0;
        while i < self.fields.len()
            invariant
                i <= self.fields@.len(),
                self.spec_listed(old(query)@, target, i as int) == Ok::<Seq<char>, Failure>(query@),
            decreases self.fields@.len() - i,
        {
            let field = &self.fields[i];
            let code = match self.code(field) {
                Ok(c) => c,
                Err(e) => {
                    proof { self.lemma_listed_err(old(query)@, target, i + 1, self.fields@.len() as int); }
                    return Err(e);
                }
            };
            if let Code::Query = code {
                let (column, modifier) = self.declaration(field);
                let list = infos(&field.attr.select);
                match selector(query, list.as_slice(), "self", column.as_str(), field.ident.as_str(), modifier.as_str(), target) {
                    Ok(()) => {}
                    Err(e) => {
                        proof { self.lemma_listed_err(old(query)@, target, i + 1, self.fields@.len() as int); }
                        return Err(e);
                    }
                }
            }
            i = i + 1;
        }
        trim_comma(query);
        Ok(())
    }

    /// A failing field fails the whole list.
    pub proof fn lemma_listed_err(&self, q: Seq<char>, target: Target, i: int, n: int)
        requires
            0 <= i <= n,
            self.spec_listed(q, target, i) is Err,
        ensures
            self.spec_listed(q, target, n) == self.spec_listed(q, target, i),
        decreases n - i,
    {
        if n > i {
            self.lemma_listed_err(q, target, i, n - 1);
        }
    }

    /// The select query of the table, without joins: its selected columns from
    /// its table, named `self`.
    pub fn query(&self, target: Target) -> (r: Result<String, Error>)
        ensures
            match self.spec_listed("SELECT\n"@, target, self.fields@.len() as int) {
                Ok(q) => r matches Ok(s) && s@ == trimmed_comma(q) + "\nFROM "@ + self.attr.table@ + " AS \"self\""@,
                Err(f) => r matches Err(e) && e.fault == f.0 && e.message@ == f.1,
            },
    {
        let mut query = String::new();
        push_str(&mut query, "SELECT\n");
        assert(query@ =~= "SELECT\n"@);
        self.listed(&mut query, target)?;
        push_str(&mut query, "\nFROM ");
        push_str(&mut query, self.attr.table.as_str());
        push_str(&mut query, " AS \"self\"");
        Ok(query)
    }
}


/// A returned field: one of the struct's own fields, or of its table struct.
pub enum Scalar<'c, K> {
    Table(&'c Derived<K>, usize),
    Paved(&'c QueryTable, usize),
}

/// What a query returns: nothing, one field, several fields, or the columns of a table struct.
pub enum Returns<'c, K> {
    /// Nothing is returned.
    Nothing,
    Scalar(Scalar<'c, K>),
    Tuple(Vec<Scalar<'c, K>>),
    /// A table struct, by its path, with its definition.
    Table(String, &'c QueryTable),
}

impl<'c, K> Scalar<'c, K> {
    /// The field exists.
    pub open spec fn valid(&self) -> bool {
        match self {
            Scalar::Table(t, f) => *f < t.fields@.len(),
            Scalar::Paved(t, f) => *f < t.fields@.len(),
        }
    }

    /// The field's name.
    pub open spec fn spec_alias(&self) -> Seq<char> {
        match self {
            Scalar::Table(t, f) => t.fields@[*f as int].ident@,
            Scalar::Paved(t, f) => t.fields@[*f as int].ident@,
        }
    }

    /// The field's column name and type annotation.
    pub open spec fn spec_declaration(&self) -> (Seq<char>, Seq<char>) {
        match self {
            Scalar::Table(t, f) => t.spec_declaration(t.fields@[*f as int]),
            Scalar::Paved(t, f) => t.spec_declaration(t.fields@[*f as int]),
        }
    }

    /// The `select` expression lines of a table struct's field; none for the struct's own.
    pub open spec fn spec_lines(&self) -> Seq<Seq<char>> {
        match self {
            Scalar::Table(_, _) => Seq::empty(),
            Scalar::Paved(t, f) => info_lines(t.fields@[*f as int].attr.select@),
        }
    }

    /// The field's name.
    pub fn alias(&self) -> (r: String)
        requires
            self.valid(),
        ensures
            r@ == self.spec_alias(),
    {
        match self {
            Scalar::Table(t, f) => t.fields[*f].ident.clone(),
            Scalar::Paved(t, f) => t.fields[*f].ident.clone(),
        }
    }

    /// The field's column name and type annotation.
    pub fn declaration(&self) -> (r: (String, String))
        requires
            self.valid(),
        ensures
            (r.0@, r.1@) == self.spec_declaration(),
    {
        match self {
            Scalar::Table(t, f) => t.declaration(&t.fields[*f]),
            Scalar::Paved(t, f) => t.declaration(&t.fields[*f]),
        }
    }

    /// Appends the field as a returned column of the row written, named `self`.
    pub fn select_into(&self, query: &mut String, target: Target) -> (r: Result<(), Error>)
        requires
            self.valid(),
        ensures
            match scalar_selected(old(query)@, *self, target) {
                Ok(t) => r is Ok && final(query)@ == t,
                Err(f) => r matches Err(e) && e.fault == f.0 && e.message@ == f.1,
            },
    {
        let alias = self.alias();
        let (column, modifier) = self.declaration();
        let list = match self {
            Scalar::Table(_, _) => Vec::new(),
            Scalar::Paved(t, f) => infos(&t.fields[*f].attr.select),
        };
        proof {
            if self is Table {
                assert(lines(list@) =~= Seq::<Seq<char>>::empty());
            }
        }
        selector(query, list.as_slice(), "self", column.as_str(), alias.as_str(), modifier.as_str(), target)
    }
}

/// The text `q` followed by a returned field.
pub open spec fn scalar_selected<K>(q: Seq<char>, s: Scalar<K>, target: Target) -> Result<Seq<char>, Failure> {
    selected(q, s.spec_lines(), "self"@, s.spec_declaration().0, s.spec_alias(), modified(s.spec_declaration().1, target))
}

/// The text `q` followed by the first `n` returned fields.
pub open spec fn scalars_selected<K>(q: Seq<char>, v: Seq<Scalar<K>>, target: Target, n: int) -> Result<Seq<char>, Failure>
    decreases n,
{
    if n <= 0 {
        Ok(q)
    } else {
        match scalars_selected(q, v, target, n - 1) {
            Err(f) => Err(f),
            Ok(q1) => scalar_selected(q1, v[n - 1], target),
        }
    }
}

/// A failing field fails the whole list.
pub proof fn lemma_scalars_err<K>(q: Seq<char>, v: Seq<Scalar<K>>, target: Target, i: int, n: int)
    requires
        0 <= i <= n,
        scalars_selected(q, v, target, i) is Err,
    ensures
        scalars_selected(q, v, target, n) == scalars_selected(q, v, target, i),
    decreases n - i,
{
    if n > i {
        lemma_scalars_err(q, v, target, i, n - 1);
    }
}

impl<'c, K> Returns<'c, K> {
    /// Every returned field exists.
    pub open spec fn valid(&self) -> bool {
        match self {
            Returns::Scalar(s) => s.valid(),
            Returns::Tuple(v) => forall|i: int| 0 <= i < v@.len() ==> (#[trigger] v@[i]).valid(),
            _ => true,
        }
    }

    /// The `RETURNING` clause: nothing without returned fields; otherwise each
    /// field, or each column of the table struct, as selected, less the last `,\n`.
    pub open spec fn spec_returned(&self, target: Target) -> Result<Seq<char>, Failure> {
        match self {
            Returns::Nothing => Ok(Seq::empty()),
            Returns::Table(_, t) => match t.spec_listed("\nRETURNING\n"@, target, t.fields@.len() as int) {
                Ok(q) => Ok(trimmed_comma(q)),
                Err(f) => Err(f),
            },
            Returns::Scalar(s) => match scalar_selected("\nRETURNING\n"@, *s, target) {
                Ok(q) => Ok(trimmed_comma(q)),
                Err(f) => Err(f),
            },
            Returns::Tuple(v) => match scalars_selected("\nRETURNING\n"@, v@, target, v@.len() as int) {
                Ok(q) => Ok(trimmed_comma(q)),
                Err(f) => Err(f),
            },
        }
    }

    /// Writes the `RETURNING` clause for the target.
    pub fn returned(&self, target: Target) -> (r: Result<String, Error>)
        requires
            self.valid(),
        ensures
            match self.spec_returned(target) {
                Ok(q) => r matches Ok(s) && s@ == q,
                Err(f) => r matches Err(e) && e.fault == f.0 && e.message@ == f.1,
            },
    {
        let mut query = String::new();
        match self {
            Returns::Nothing => return Ok(query),
            _ => {}
        }
        push_str(&mut query, "\nRETURNING\n");
        assert(query@ =~= "\nRETURNING\n"@);
        match self {
            Returns::Nothing => {}
            Returns::Table(_, t) => {
                t.listed(&mut query, target)?;
            }
            Returns::Scalar(s) => {
                s.select_into(&mut query, target)?;
                trim_comma(&mut query);
            }
            Returns::Tuple(v) => {
                let ghost q0 = query@;
                let mut i: usize = 0;
                while i < v.len()
                    invariant
                        i <= v@.len(),
                        forall|j: int| 0 <= j < v@.len() ==> (#[trigger] v@[j]).valid(),
                        scalars_selected(q0, v@, target, i as int) == Ok::<Seq<char>, Failure>(query@),
                        q0 == "\nRETURNING\n"@,
                        *self matches Returns::Tuple(w) && w@ == v@,
                    decreases v@.len() - i,
                {
                    assert(v@[i as int].valid());
                    match v[i].select_into(&mut query, target) {
                        Ok(()) => {}
                        Err(e) => {
                            proof { lemma_scalars_err(q0, v@, target, i + 1, v@.len() as int); }
                            return Err(e);
                        }
                    }
                    i = i + 1;
                }
                trim_comma(&mut query);
            }
        }
        Ok(query)
    }
}

} // verus!
