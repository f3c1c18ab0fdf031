use vstd::prelude::*;
use proc_macro2::Span;
use crate::error::{Error, Fault, Failure};
use crate::rename::{snake, to_snake};
use crate::table::{QueryTable, QueryField, Named};
use crate::text::push_str;
use crate::params::{Params, Param, Value, Run, outputted};
use crate::query::{info_lines, infos};
use crate::select::{Target, selected, selector, modified, trimmed_comma, trim_comma};
use crate::query::displaced_map;

verus! {

/// How a `foreign` field may be absent: by its `default` value, or by an `Option` type.
#[derive(Clone, Copy)]
pub enum Nullable {
    Default(Span),
    Option,
}

/// The struct a `foreign` field joins, by path, and how the field may be absent.
pub struct Foreign {
    pub path: String,
    pub nullable: Option<Nullable>,
}

/// How a field is read from a row: from what it joins (`C`), selected, or not at all.
pub enum Code<C> {
    Foreign(C),
    Query,
    Skip,
}

/// A field of a table struct within a construct, with its unique alias.
pub struct Column<'c> {
    pub unique: String,
    pub table: &'c QueryTable,
    pub field: &'c QueryField,
    pub code: Code<Construct<'c>>,
}

/// A table struct together with the structs its `foreign` fields join, each with
/// a unique name.
pub struct Construct<'c> {
    pub table: &'c QueryTable,
    pub fields: Vec<Column<'c>>,
    /// How this struct is joined, for all but the outermost.
    pub foreign: Option<Foreign>,
    pub unique: String,
}

/// What a `foreign` field joins on: a column given by name that no field of the
/// joined struct declares, or a field of the joined struct, by position.
pub enum Resolved {
    Attr(String),
    Field(usize),
}

impl<'c> Column<'c> {
    /// The field of the column.
    pub open spec fn spec_field(&self) -> QueryField {
        *self.field
    }
}

/// The name a column goes by: its `named` attribute; for a joined field its
/// `column` attribute in snake case, or else its name, an underscore, and what it
/// joins on (a column name in snake case, or the joined field's identifier); for
/// other fields its name.
pub open spec fn spec_renamed<'c>(col: Column<'c>) -> Result<Seq<char>, Failure>
    decreases col, 1int, 0int,
{
    let field = col.spec_field();
    match field.attr.named {
        Some(n) => Ok(n.data@),
        None => match col.code {
            Code::Foreign(c) => match field.attr.column {
                Some(column) => Ok(snake(column.data@)),
                None => match spec_correlate(c, col) {
                    Err(f) => Err(f),
                    Ok(Resolved::Attr(s)) => Ok(field.ident@ + "_"@ + snake(s@)),
                    Ok(Resolved::Field(i)) => {
                        if 0 <= i < c.fields@.len() {
                            Ok(field.ident@ + "_"@ + c.fields@[i as int].spec_field().ident@)
                        } else {
                            Err((Fault::Unresolved, "unresolved target"@))
                        }
                    },
                },
            },
            _ => Ok(field.ident@),
        },
    }
}

/// The column name of a column: declared from its name (see `spec_renamed`).
pub open spec fn spec_column<'c>(col: Column<'c>) -> Result<Seq<char>, Failure>
    decreases col, 2int, 0int,
{
    match spec_renamed(col) {
        Err(f) => Err(f),
        Ok(named) => {
            let field = col.spec_field();
            Ok(crate::types::declared(
                match field.attr.column { Some(c) => Some(c.data@), None => None },
                field.attr.infer is Some,
                if field.attr.rename is Some { field.attr.rename } else { col.table.attr.rename },
                named,
            ).0)
        },
    }
}

/// Whether column `x` of a joined struct matches the target of the joining column:
/// the field named by an identifier, the column named by a string, or else a key.
pub open spec fn matches_target<'c>(x: Column<'c>, target: Option<Named>) -> bool
    decreases x, 3int, 0int,
{
    match target {
        Some(Named::Ident(id)) => x.spec_field().ident@ == id@,
        Some(Named::String(s)) => spec_column(x) matches Ok(c) && c == s@,
        None => x.spec_field().attr.key is Some,
    }
}

/// The target of a column's `target` attribute.
pub open spec fn target_of<'c>(col: Column<'c>) -> Option<Named> {
    match col.spec_field().attr.target {
        Some(t) => Some(t.data),
        None => None,
    }
}

/// The position of the first column from `from` on that matches the target.
pub open spec fn first_match<'c>(c: Construct<'c>, target: Option<Named>, from: int) -> Option<int>
    decreases c, 4int, c.fields@.len() - from,
{
    if from < 0 || from >= c.fields@.len() {
        None
    } else if matches_target(c.fields@[from], target) {
        Some(from)
    } else {
        first_match(c, target, from + 1)
    }
}

/// What a joining column resolves to in the joined struct `c`: the one column that
/// matches its target; else, for a string target, that column name; else an error
/// (no key or several keys; an unknown or ambiguous target).
pub open spec fn spec_correlate<'c>(c: Construct<'c>, col: Column<'c>) -> Result<Resolved, Failure>
    decreases c, 5int, 0int,
{
    let target = target_of(col);
    let first = first_match(c, target, 0);
    let second = match first { Some(i) => first_match(c, target, i + 1), None => None };
    match (first, second) {
        (Some(i), None) => Ok(Resolved::Field(i as usize)),
        _ => match target {
            Some(Named::String(s)) => Ok(Resolved::Attr(s)),
            Some(_) => if first is None { Err((Fault::Unknown, correlate_message(c, col))) } else { Err((Fault::Ambiguous, correlate_message(c, col))) },
            None => if first is None { Err((Fault::Missing, correlate_message(c, col))) } else { Err((Fault::Ambiguous, correlate_message(c, col))) },
        },
    }
}


/// The message of a failed `correlate`: an identifier target that matches no
/// field or several, or, without a target, no key or several keys in the joined
/// struct, with a hint on the `target` attribute.
pub open spec fn correlate_message<'c>(c: Construct<'c>, col: Column<'c>) -> Seq<char>
    decreases c, 4int, c.fields@.len() + 1,
{
    let none = first_match(c, target_of(col), 0) is None;
    let ident = c.table.ident@;
    match target_of(col) {
        Some(Named::Ident(s)) => if none {
            "unknown target: "@ + s@ + " has no matches in "@ + ident
                + "\nhelp: use #[sqly(target = \"column_name\")] to join arbitrary columns"@
        } else {
            "ambiguous target: "@ + s@ + " has multiple matches in "@ + ident
                + "\nhelp: use #[sqly(target = field_ident)] to disambiguate matched fields"@
        },
        _ => if none {
            "missing target: no keys in "@ + ident + "\nhelp: use #[sqly(target)] to disambiguate"@
        } else {
            "ambiguous target: multiple keys in "@ + ident + "\nhelp: use #[sqly(target)] to disambiguate"@
        },
    }
}

impl<'c> Column<'c> {
    /// The name the column goes by (see `spec_renamed`).
    pub fn renamed(&self) -> (r: Result<String, Error>)
        ensures
            match spec_renamed(*self) {
                Ok(s) => r matches Ok(t) && t@ == s,
                Err(f) => r matches Err(e) && e.fault == f.0 && e.message@ == f.1,
            },
        decreases *self, 1int, 0int,
    {
        let field = self.field;
        if let Some(n) = &field.attr.named {
            return Ok(n.data.clone());
        }
        match &self.code {
            Code::Foreign(c) => {
                if let Some(column) = &field.attr.column {
                    return Ok(to_snake(column.data.as_str()));
                }
                match c.correlate(self)? {
                    Resolved::Attr(s) => {
                        let mut r = field.ident.clone();
                        push_str(&mut r, "_");
                        let sn = to_snake(s.as_str());
                        push_str(&mut r, sn.as_str());
                        Ok(r)
                    }
                    Resolved::Field(i) => {
                        if i < c.fields.len() {
                            let mut r = field.ident.clone();
                            push_str(&mut r, "_");
                            push_str(&mut r, c.fields[i].field.ident.as_str());
                            Ok(r)
                        } else {
                            Err(Error::new(field.span, Fault::Unresolved, "unresolved target".to_owned()))
                        }
                    }
                }
            }
            _ => Ok(field.ident.clone()),
        }
    }

    /// The column name of the column (see `spec_column`).
    pub fn column(&self) -> (r: Result<String, Error>)
        ensures
            match spec_column(*self) {
                Ok(s) => r matches Ok(t) && t@ == s,
                Err(f) => r matches Err(e) && e.fault == f.0 && e.message@ == f.1,
            },
        decreases *self, 2int, 0int,
    {
        let named = self.renamed()?;
        let field = self.field;
        let rename = if field.attr.rename.is_some() { field.attr.rename } else { self.table.attr.rename };
        let column = match &field.attr.column {
            Some(c) => Some(&c.data),
            None => None,
        };
        Ok(crate::types::declare(column, field.attr.infer.is_some(), rename, named.as_str()).0)
    }

    /// Whether the column matches a target (see `matches_target`).
    fn matches(&self, target: &Option<Named>) -> (b: bool)
        ensures
            b == matches_target(*self, *target),
        decreases *self, 3int, 0int,
    {
        let field = self.field;
        match target {
            Some(Named::Ident(id)) => field.ident == *id,
            Some(Named::String(s)) => match self.column() {
                Ok(c) => c == *s,
                Err(_) => false,
            },
            None => field.attr.key.is_some(),
        }
    }
}

/// The target of a column's `target` attribute.
fn target(col: &Column) -> (r: Option<Named>)
    ensures
        r == target_of(*col),
{
    match &col.field.attr.target {
        Some(t) => Some(match &t.data {
            Named::String(s) => Named::String(s.clone()),
            Named::Ident(s) => Named::Ident(s.clone()),
        }),
        None => None,
    }
}

impl<'c> Construct<'c> {
    /// The position of the first column from `from` on that matches the target.
    fn first_match(&self, target: &Option<Named>, from: usize) -> (r: Option<usize>)
        ensures
            match first_match(*self, *target, from as int) {
                Some(i) => r == Some(i as usize),
                None => r is None,
            },
            r matches Some(i) ==> from <= i < self.fields@.len(),
            first_match(*self, *target, from as int) matches Some(i) ==> from <= i < self.fields@.len(),
        decreases *self, 4int, self.fields@.len() - from,
    {
        if from >= self.fields.len() {
            None
        } else {
            if self.fields[from].matches(target) {
                Some(from)
            } else {
                self.first_match(target, from + 1)
            }
        }
    }

    /// What a joining column resolves to in this struct (see `spec_correlate`).
    pub fn correlate(&self, col: &Column<'c>) -> (r: Result<Resolved, Error>)
        ensures
            match spec_correlate(*self, *col) {
                Ok(Resolved::Field(i)) => r matches Ok(Resolved::Field(j)) && i == j,
                Ok(Resolved::Attr(s)) => r matches Ok(Resolved::Attr(t)) && s@ == t@,
                Err(f) => r matches Err(e) && e.fault == f.0 && e.message@ == f.1,
            },
        decreases *self, 5int, 0int,
    {
        let target = target(col);
        let _n = self.fields.len();
        let first = self.first_match(&target, 0);
        let second = match first {
            Some(i) => self.first_match(&target, i + 1),
            None => None,
        };
        if let Some(i) = first {
            if second.is_none() {
                return Ok(Resolved::Field(i));
            }
        }
        let field = col.field;
        let ident = self.table.ident.as_str();
        match &target {
            Some(Named::String(s)) => Ok(Resolved::Attr(s.clone())),
            Some(Named::Ident(s)) => {
                let span = match &field.attr.target { Some(t) => t.span, None => field.span };
                if first.is_none() {
                    Err(target_error(span, Fault::Unknown, "unknown target: ", s.as_str(), " has no matches in ", ident,
                        "\nhelp: use #[sqly(target = \"column_name\")] to join arbitrary columns"))
                } else {
                    Err(target_error(span, Fault::Ambiguous, "ambiguous target: ", s.as_str(), " has multiple matches in ", ident,
                        "\nhelp: use #[sqly(target = field_ident)] to disambiguate matched fields"))
                }
            }
            None => {
                let span = match field.attr.foreign { Some(s) => s, None => field.span };
                proof { reveal_strlit(""); }
                if first.is_none() {
                    Err(target_error(span, Fault::Missing, "missing target: no keys in ", ident, "", "",
                        "\nhelp: use #[sqly(target)] to disambiguate"))
                } else {
                    Err(target_error(span, Fault::Ambiguous, "ambiguous target: multiple keys in ", ident, "", "",
                        "\nhelp: use #[sqly(target)] to disambiguate"))
                }
            }
        }
    }
}

/// An error whose message is made of the given pieces.
fn target_error(span: Span, fault: Fault, a: &str, b: &str, c: &str, d: &str, e: &str) -> (r: Error)
    ensures
        r.fault == fault,
        r.span == span,
        r.message@ == a@ + b@ + c@ + d@ + e@,
{
    let mut msg = String::new();
    push_str(&mut msg, a);
    push_str(&mut msg, b);
    push_str(&mut msg, c);
    push_str(&mut msg, d);
    push_str(&mut msg, e);
    Error::new(span, fault, msg)
}



impl<'c> Construct<'c> {
    /// How this struct may be absent where it is joined.
    pub open spec fn spec_nullable(&self) -> Option<Nullable> {
        match self.foreign {
            Some(f) => f.nullable,
            None => None,
        }
    }

    /// How this struct may be absent where it is joined.
    pub fn nullable(&self) -> (r: Option<Nullable>)
        ensures
            r == self.spec_nullable(),
    {
        match &self.foreign {
            Some(f) => f.nullable,
            None => None,
        }
    }
}

/// How well a column identifies a row of its struct: a selected field that is
/// never absent ranks first as a key of every query, then as a key of some,
/// then as any other field.
pub open spec fn rank<'c>(col: Column<'c>) -> Option<int> {
    if col.code is Query && col.table.spec_nullable(*col.field) is None {
        match col.field.attr.key {
            Some(k) => if k.data@.len() == 0 { Some(0) } else { Some(1) },
            None => Some(2),
        }
    } else {
        None
    }
}

/// The position of the first column from `from` on of the given rank.
pub open spec fn first_rank<'c>(c: Construct<'c>, r: int, from: int) -> Option<int>
    decreases c.fields@.len() - from,
{
    if from < 0 || from >= c.fields@.len() {
        None
    } else if rank(c.fields@[from]) == Some(r) {
        Some(from)
    } else {
        first_rank(c, r, from + 1)
    }
}

/// A column that identifies whether a joined struct is present: the best ranked
/// column of the struct; else, among the structs it joins that are never absent,
/// the first such column found.
pub open spec fn spec_constitute<'c>(c: Construct<'c>) -> Option<Column<'c>>
    decreases c, 1int, 0int,
{
    match first_rank(c, 0, 0) {
        Some(i) => Some(c.fields@[i]),
        None => match first_rank(c, 1, 0) {
            Some(i) => Some(c.fields@[i]),
            None => match first_rank(c, 2, 0) {
                Some(i) => Some(c.fields@[i]),
                None => nested_constitute(c, 0),
            },
        },
    }
}

/// The column found among the joined structs from column `from` on.
pub open spec fn nested_constitute<'c>(c: Construct<'c>, from: int) -> Option<Column<'c>>
    decreases c, 0int, c.fields@.len() - from,
{
    if from < 0 || from >= c.fields@.len() {
        None
    } else {
        match c.fields@[from].code {
            Code::Foreign(d) => if d.spec_nullable() is None && spec_constitute(d) is Some {
                spec_constitute(d)
            } else {
                nested_constitute(c, from + 1)
            },
            _ => nested_constitute(c, from + 1),
        }
    }
}

impl<'c> Column<'c> {
    /// The rank of the column (see `rank`).
    fn ranked(&self) -> (r: Option<usize>)
        ensures
            match rank(*self) { Some(k) => r == Some(k as usize), None => r is None },
    {
        match &self.code {
            Code::Query => {
                if self.table.nullable(self.field).is_none() {
                    match &self.field.attr.key {
                        Some(k) => if k.data.len() == 0 { Some(0) } else { Some(1) },
                        None => Some(2),
                    }
                } else {
                    None
                }
            }
            _ => None,
        }
    }
}

impl<'c> Construct<'c> {
    /// The first column of the given rank.
    fn first_ranked(&self, r: usize) -> (x: Option<usize>)
        ensures
            match first_rank(*self, r as int, 0) { Some(i) => x == Some(i as usize), None => x is None },
            x matches Some(i) ==> i < self.fields@.len(),
            first_rank(*self, r as int, 0) matches Some(i) ==> 0 <= i < self.fields@.len(),
    {
        let mut i: usize = 0;
        while i < self.fields.len()
            invariant
                i <= self.fields@.len(),
                first_rank(*self, r as int, 0) == first_rank(*self, r as int, i as int),
            decreases self.fields@.len() - i,
        {
            if self.fields[i].ranked() == Some(r) {
                return Some(i);
            }
            i = i + 1;
        }
        None
    }

    /// A column that identifies whether this struct is present (see `spec_constitute`).
    pub fn constitute(&self) -> (r: Option<&Column<'c>>)
        ensures
            match spec_constitute(*self) { Some(x) => r matches Some(y) && *y == x, None => r is None },
        decreases *self, 1int, 0int,
    {
        let _n = self.fields.len();
        if let Some(i) = self.first_ranked(0) {
            return Some(&self.fields[i]);
        }
        if let Some(i) = self.first_ranked(1) {
            return Some(&self.fields[i]);
        }
        if let Some(i) = self.first_ranked(2) {
            return Some(&self.fields[i]);
        }
        self.nested(0)
    }

    /// The column found among the joined structs from column `from` on.
    fn nested(&self, from: usize) -> (r: Option<&Column<'c>>)
        ensures
            match nested_constitute(*self, from as int) { Some(x) => r matches Some(y) && *y == x, None => r is None },
        decreases *self, 0int, self.fields@.len() - from,
    {
        if from >= self.fields.len() {
            return None;
        }
        match &self.fields[from].code {
            Code::Foreign(d) => {
                if d.nullable().is_none() {
                    if let Some(x) = d.constitute() {
                        return Some(x);
                    }
                }
                self.nested(from + 1)
            }
            _ => self.nested(from + 1),
        }
    }
}


/// The text of each part of a path.
pub open spec fn path_view(p: Seq<String>) -> Seq<Seq<char>> {
    p.map_values(|s: String| s@)
}

/// The text of each path of a list, with the unique name of the struct it leads to.
pub open spec fn paved_view(v: Seq<(Vec<String>, String)>) -> Seq<(Seq<Seq<char>>, Seq<char>)> {
    v.map_values(|e: (Vec<String>, String)| (path_view(e.0@), e.1@))
}

/// The structs of a construct, each by the path of `foreign` field names that
/// leads to it from the struct at `prefix`, with its unique name: every joined
/// struct before the struct joining it, in field order.
pub open spec fn spec_paved<'c>(c: Construct<'c>, prefix: Seq<Seq<char>>) -> Seq<(Seq<Seq<char>>, Seq<char>)>
    decreases c, 1int, 0int,
{
    paved_from(c, prefix, c.fields@.len() as int).push((prefix, c.unique@))
}

/// The joined structs of the first `n` columns.
pub open spec fn paved_from<'c>(c: Construct<'c>, prefix: Seq<Seq<char>>, n: int) -> Seq<(Seq<Seq<char>>, Seq<char>)>
    decreases c, 0int, n,
{
    if n <= 0 || n > c.fields@.len() {
        Seq::empty()
    } else {
        paved_from(c, prefix, n - 1) + match c.fields@[n - 1].code {
            Code::Foreign(d) => spec_paved(d, prefix.push(c.fields@[n - 1].field.ident@)),
            _ => Seq::empty(),
        }
    }
}

impl<'c> Construct<'c> {
    /// Appends the structs of this construct, by path from the struct at `prefix`
    /// (see `spec_paved`).
    pub fn pave(&self, prefix: &Vec<String>, list: &mut Vec<(Vec<String>, String)>)
        ensures
            paved_view(final(list)@) == paved_view(old(list)@) + spec_paved(*self, path_view(prefix@)),
        decreases *self, 1int, 0int,
    {
        let mut i: usize = 0;
        while i < self.fields.len()
            invariant
                i <= self.fields@.len(),
                paved_view(list@) == paved_view(old(list)@) + paved_from(*self, path_view(prefix@), i as int),
            decreases self.fields@.len() - i,
        {
            let ghost before = list@;
            match &self.fields[i].code {
                Code::Foreign(d) => {
                    let mut p = prefix.clone();
                    p.push(self.fields[i].field.ident.clone());
                    assert(path_view(p@) =~= path_view(prefix@).push(self.fields@[i as int].field.ident@));
                    d.pave(&p, list);
                }
                _ => {}
            }
            proof {
                assert(paved_from(*self, path_view(prefix@), i + 1) == paved_from(*self, path_view(prefix@), i as int) + match self.fields@[i as int].code {
                    Code::Foreign(d) => spec_paved(d, path_view(prefix@).push(self.fields@[i as int].field.ident@)),
                    _ => Seq::empty(),
                });
            }
            i = i + 1;
        }
        let ghost before = list@;
        list.push((prefix.clone(), self.unique.clone()));
        proof {
            assert(paved_view(list@) =~= paved_view(before).push((path_view(prefix@), self.unique@)));
        }
    }
}


/// Whether path `q` ends with the last `j` parts of path `p`.
pub open spec fn agree(q: Seq<Seq<char>>, p: Seq<Seq<char>>, j: int) -> bool {
    &&& 0 <= j <= q.len()
    &&& j <= p.len()
    &&& q.subrange(q.len() - j, q.len() as int) == p.subrange(p.len() - j, p.len() as int)
}

/// How many paths of the list end with the last `j` parts of `p`.
pub open spec fn agreeing(all: Seq<(Seq<Seq<char>>, Seq<char>)>, p: Seq<Seq<char>>, j: int) -> nat
    decreases all.len(),
{
    if all.len() == 0 {
        0
    } else {
        agreeing(all.drop_last(), p, j) + if agree(all.last().0, p, j) { 1nat } else { 0nat }
    }
}

/// The parts among the last `j` of `p` that tell it apart from the other paths:
/// the last part, and each earlier part that some of the paths still sharing the
/// parts after it do not share, while more than one shares them.
pub open spec fn picked(all: Seq<(Seq<Seq<char>>, Seq<char>)>, p: Seq<Seq<char>>, j: int) -> Seq<Seq<char>>
    decreases j,
{
    if j <= 1 {
        if p.len() > 0 { seq![p.last()] } else { Seq::empty() }
    } else if agreeing(all, p, j - 1) > 1 && agreeing(all, p, j) < agreeing(all, p, j - 1) {
        seq![p[p.len() - j]] + picked(all, p, j - 1)
    } else {
        picked(all, p, j - 1)
    }
}

/// The shortened path of `p`: the parts that tell it apart, from the outermost.
pub open spec fn contracted(all: Seq<(Seq<Seq<char>>, Seq<char>)>, p: Seq<Seq<char>>) -> Seq<Seq<char>> {
    if p.len() == 0 { Seq::empty() } else { picked(all, p, p.len() as int) }
}

/// Parts joined by `__`.
pub open spec fn joined(parts: Seq<Seq<char>>) -> Seq<char>
    decreases parts.len(),
{
    if parts.len() == 0 {
        Seq::empty()
    } else if parts.len() == 1 {
        parts[0]
    } else {
        joined(parts.drop_last()) + "__"@ + parts.last()
    }
}

/// Whether two strings are equal.
fn same(a: &String, b: &String) -> (r: bool)
    ensures
        r == (a@ == b@),
{
    *a == *b
}

/// Whether path `q` ends with the last `j` parts of path `p` (see `agree`).
fn agrees(q: &Vec<String>, p: &Vec<String>, j: usize) -> (r: bool)
    ensures
        r == agree(path_view(q@), path_view(p@), j as int),
{
    if j > q.len() || j > p.len() {
        return false;
    }
    let mut k: usize = 0;
    while k < j
        invariant
            j <= q@.len(),
            j <= p@.len(),
            k <= j,
            path_view(q@).subrange(q@.len() - j, q@.len() - j + k) == path_view(p@).subrange(p@.len() - j, p@.len() - j + k),
        decreases j - k,
    {
        if !same(&q[q.len() - j + k], &p[p.len() - j + k]) {
            assert(path_view(q@).subrange(q@.len() - j, q@.len() as int)[k as int] != path_view(p@).subrange(p@.len() - j, p@.len() as int)[k as int]);
            return false;
        }
        assert(path_view(q@).subrange(q@.len() - j, q@.len() - j + k + 1) =~= path_view(q@).subrange(q@.len() - j, q@.len() - j + k).push(path_view(q@)[q@.len() - j + k]));
        assert(path_view(p@).subrange(p@.len() - j, p@.len() - j + k + 1) =~= path_view(p@).subrange(p@.len() - j, p@.len() - j + k).push(path_view(p@)[p@.len() - j + k]));
        k = k + 1;
    }
    assert(path_view(q@).subrange(q@.len() - j, q@.len() as int) =~= path_view(p@).subrange(p@.len() - j, p@.len() as int));
    true
}

/// How many paths of the list end with the last `j` parts of `p` (see `agreeing`).
fn count_agreeing(all: &Vec<(Vec<String>, String)>, p: &Vec<String>, j: usize) -> (r: usize)
    ensures
        r == agreeing(paved_view(all@), path_view(p@), j as int),
{
    let mut n: usize = 0;
    let mut i: usize = 0;
    while i < all.len()
        invariant
            i <= all@.len(),
            n <= i,
            n == agreeing(paved_view(all@).take(i as int), path_view(p@), j as int),
        decreases all@.len() - i,
    {
        assert(paved_view(all@).take(i + 1).drop_last() =~= paved_view(all@).take(i as int));
        if agrees(&all[i].0, p, j) {
            n = n + 1;
        }
        i = i + 1;
    }
    assert(paved_view(all@).take(all@.len() as int) =~= paved_view(all@));
    n
}

/// The shortened path of `p` among the paths of the list (see `contracted`).
pub fn contract_path(all: &Vec<(Vec<String>, String)>, p: &Vec<String>) -> (r: Vec<String>)
    ensures
        path_view(r@) == contracted(paved_view(all@), path_view(p@)),
{
    let mut res: Vec<String> = Vec::new();
    if p.len() == 0 {
        assert(path_view(res@) =~= Seq::<Seq<char>>::empty());
        return res;
    }
    res.push(p[p.len() - 1].clone());
    assert(path_view(res@) =~= picked(paved_view(all@), path_view(p@), 1));
    let mut k: usize = 1;
    while k < p.len()
        invariant
            1 <= k <= p@.len(),
            path_view(res@) == picked(paved_view(all@), path_view(p@), k as int),
        decreases p@.len() - k,
    {
        let j = k + 1;
        let before = count_agreeing(all, p, k);
        let after = count_agreeing(all, p, j);
        if before > 1 && after < before {
            let ghost r0 = res@;
            res.insert(0, p[p.len() - j].clone());
            assert(path_view(res@) =~= seq![path_view(p@)[p@.len() - j]] + path_view(r0));
        }
        k = k + 1;
    }
    res
}

/// Parts joined by `__` (see `joined`).
pub fn join_parts(parts: &Vec<String>) -> (r: String)
    ensures
        r@ == joined(path_view(parts@)),
{
    let mut r = String::new();
    let mut i: usize = 0;
    while i < parts.len()
        invariant
            i <= parts@.len(),
            r@ == joined(path_view(parts@).take(i as int)),
        decreases parts@.len() - i,
    {
        assert(path_view(parts@).take(i + 1).drop_last() =~= path_view(parts@).take(i as int));
        if i > 0 {
            push_str(&mut r, "__");
        }
        push_str(&mut r, parts[i].as_str());
        proof {
            if i == 0 {
                assert(r@ =~= path_view(parts@).take(1)[0]);
            }
        }
        i = i + 1;
    }
    assert(path_view(parts@).take(parts@.len() as int) =~= path_view(parts@));
    r
}


/// The name of the struct at path `p`: `self` for the outermost, else its
/// shortened path joined by `__`.
pub open spec fn unique_name(all: Seq<(Seq<Seq<char>>, Seq<char>)>, p: Seq<Seq<char>>) -> Seq<char> {
    if p.len() == 0 { "self"@ } else { joined(contracted(all, p)) }
}

/// The parameters naming the joined structs of the first `n` paths of the list:
/// each by its shortened path joined by `__`, standing for its unique name.
pub open spec fn params_of(all: Seq<(Seq<Seq<char>>, Seq<char>)>, n: int) -> Map<Seq<char>, Param>
    decreases n,
{
    if n <= 0 || n > all.len() {
        Map::empty()
    } else {
        let m = params_of(all, n - 1);
        let path = contracted(all, all[n - 1].0);
        if path.len() == 0 { m } else { m.insert(joined(path), Param::Text(all[n - 1].1)) }
    }
}

/// The parameters of a construct's join clauses: each joined struct by its
/// shortened path, and `$table` for the construct itself.
pub open spec fn spec_params<'c>(c: Construct<'c>) -> Map<Seq<char>, Param> {
    let all = spec_paved(c, Seq::empty());
    displaced_map(params_of(all, all.len() as int), "table"@, Param::Text(c.unique@))
}

/// The parameters of a `foreign` field's join clauses, joining `other` from the
/// construct `c`: its parameters, `$left`, `$LEFT`, `$inner` and `$INNER` (the
/// last two a left join where the field's struct may be absent), and `$other`.
pub open spec fn spec_foreigns<'c>(c: Construct<'c>, other: Construct<'c>, nullable: bool) -> Map<Seq<char>, Param> {
    let m1 = displaced_map(spec_params(c), "left"@, Param::Text("left"@));
    let m2 = displaced_map(m1, "LEFT"@, Param::Text("LEFT"@));
    let m3 = displaced_map(m2, "inner"@, Param::Text(if nullable { "left"@ } else { "inner"@ }));
    let m4 = displaced_map(m3, "INNER"@, Param::Text(if nullable { "LEFT"@ } else { "INNER"@ }));
    displaced_map(m4, "other"@, Param::Text(other.unique@))
}

impl<'c> Construct<'c> {
    /// The parameters of the construct's join clauses (see `spec_params`).
    pub fn params(&self) -> (p: Params)
        ensures
            p.wf(),
            p.cells@.len() == 0,
            p.state@.len() == 0,
            p.map() == spec_params(*self),
    {
        let mut list: Vec<(Vec<String>, String)> = Vec::new();
        let empty: Vec<String> = Vec::new();
        self.pave(&empty, &mut list);
        assert(path_view(empty@) =~= Seq::<Seq<char>>::empty());
        assert(paved_view(list@) =~= spec_paved(*self, Seq::empty()));
        let mut params = Params::default();
        let mut i: usize = 0;
        while i < list.len()
            invariant
                i <= list@.len(),
                params.wf(),
                params.cells@.len() == 0,
                params.state@.len() == 0,
                paved_view(list@) == spec_paved(*self, Seq::empty()),
                params.map() == params_of(paved_view(list@), i as int),
            decreases list@.len() - i,
        {
            let path = contract_path(&list, &list[i].0);
            if path.len() > 0 {
                let local = join_parts(&path);
                params.put(local.as_str(), Value::Text(list[i].1.clone()));
            }
            i = i + 1;
        }
        params.set("table", Value::Text(self.unique.clone()));
        params
    }
}

/// The parameters of a `foreign` field's join clauses (see `spec_foreigns`).
pub fn foreigns<'c>(c: &Construct<'c>, other: &Construct<'c>, nullable: bool) -> (p: Params)
    ensures
        p.wf(),
        p.cells@.len() == 0,
        p.state@.len() == 0,
        p.map() == spec_foreigns(*c, *other, nullable),
{
    let mut params = c.params();
    params.set("left", Value::Text("left".to_owned()));
    params.set("LEFT", Value::Text("LEFT".to_owned()));
    params.set("inner", Value::Text(if nullable { "left".to_owned() } else { "inner".to_owned() }));
    params.set("INNER", Value::Text(if nullable { "LEFT".to_owned() } else { "INNER".to_owned() }));
    params.set("other", Value::Text(other.unique.clone()));
    params
}


/// A column of a construct in reading order, with the construct it belongs to and
/// how it may be absent (the nearest enclosing joined struct that may be).
pub struct Flattened<'a, 'c> {
    pub construct: &'a Construct<'c>,
    pub column: &'a Column<'c>,
    pub nullable: Option<Nullable>,
}

/// `a`, or else `b`.
pub open spec fn or_else(a: Option<Nullable>, b: Option<Nullable>) -> Option<Nullable> {
    if a is Some { a } else { b }
}

/// The columns of a construct in reading order: each column, followed by the
/// columns of the struct it joins, if any.
#[verifier::opaque]
pub open spec fn spec_flat<'c>(c: Construct<'c>, opt: Option<Nullable>) -> Seq<(Construct<'c>, Column<'c>, Option<Nullable>)>
    decreases c, 1int, 0int,
{
    flat_from(c, opt, c.fields@.len() as int)
}

/// The columns in reading order of the first `k` columns.
pub open spec fn flat_from<'c>(c: Construct<'c>, opt: Option<Nullable>, k: int) -> Seq<(Construct<'c>, Column<'c>, Option<Nullable>)>
    decreases c, 0int, k,
{
    if k <= 0 || k > c.fields@.len() {
        Seq::empty()
    } else {
        let col = c.fields@[k - 1];
        flat_from(c, opt, k - 1).push((c, col, opt)) + match col.code {
            Code::Foreign(d) => spec_flat(d, or_else(d.spec_nullable(), opt)),
            _ => Seq::empty(),
        }
    }
}

/// The view of flattened columns.
pub open spec fn flat_view<'a, 'c>(v: Seq<Flattened<'a, 'c>>) -> Seq<(Construct<'c>, Column<'c>, Option<Nullable>)> {
    v.map_values(|f: Flattened<'a, 'c>| (*f.construct, *f.column, f.nullable))
}

impl<'c> Construct<'c> {
    /// Appends the columns of the construct in reading order (see `spec_flat`).
    pub fn flattened<'a>(&'a self, opt: Option<Nullable>, out: &mut Vec<Flattened<'a, 'c>>)
        ensures
            flat_view(final(out)@) == flat_view(old(out)@) + spec_flat(*self, opt),
        decreases *self, 1int, 0int,
    {
        proof { reveal(spec_flat); }
        let mut i: usize = 0;
        while i < self.fields.len()
            invariant
                i <= self.fields@.len(),
                flat_view(out@) == flat_view(old(out)@) + flat_from(*self, opt, i as int),
            decreases self.fields@.len() - i,
        {
            let col = &self.fields[i];
            let ghost before = out@;
            out.push(Flattened { construct: self, column: col, nullable: opt });
            assert(flat_view(out@) =~= flat_view(before).push((*self, *col, opt)));
            match &col.code {
                Code::Foreign(d) => {
                    let o = match d.nullable() { Some(n) => Some(n), None => opt };
                    d.flattened(o, out);
                }
                _ => {}
            }
            proof {
                reveal(spec_flat);
                assert(flat_from(*self, opt, i + 1) == flat_from(*self, opt, i as int).push((*self, *col, opt)) + match col.code {
                    Code::Foreign(d) => spec_flat(d, or_else(d.spec_nullable(), opt)),
                    _ => Seq::empty(),
                });
            }
            i = i + 1;
        }
    }
}

/// The column name that a join resolves to: the given column name, or the
/// joined field's column.
pub open spec fn resolved_column<'c>(d: Construct<'c>, res: Resolved) -> Result<Seq<char>, Failure> {
    match res {
        Resolved::Attr(s) => Ok(s@),
        Resolved::Field(i) => if i < d.fields@.len() { spec_column(d.fields@[i as int]) } else { Err((Fault::Unresolved, "unresolved target"@)) },
    }
}

/// What follows the keyword in a join line: the joined table and its name, and
/// the two columns compared.
pub open spec fn join_rest<'c>(c: Construct<'c>, d: Construct<'c>, foreign: Seq<char>, column: Seq<char>) -> Seq<char> {
    " \""@ + d.table.attr.table@ + "\" AS \""@ + d.unique@
        + "\" ON \""@ + d.unique@ + "\".\""@ + foreign + "\" = \""@ + c.unique@ + "\".\""@ + column + "\""@
}

/// The select list and the joins after one more column: a selected column is
/// selected from its struct by its alias; a joined struct is joined by its
/// `foreign` clauses, or else on the column it resolves to.
#[verifier::opaque]
pub open spec fn flat_step<'c>(
    q: Seq<char>,
    joins: Seq<char>,
    f: (Construct<'c>, Column<'c>, Option<Nullable>),
    target: Target,
) -> Result<(Seq<char>, Seq<char>), Failure> {
    let (c, col, opt) = f;
    match col.code {
        Code::Skip => Ok((q, joins)),
        Code::Query => match spec_column(col) {
            Err(e) => Err(e),
            Ok(column) => match selected(q, info_lines(col.field.attr.select@), c.unique@, column, col.unique@, modified("!: _"@, target)) {
                Ok(q2) => Ok((q2, joins)),
                Err(e) => Err(e),
            },
        },
        Code::Foreign(d) => {
            let ls = info_lines(col.field.attr.joins@);
            if ls.len() > 0 {
                match outputted::<String>(
                    spec_foreigns(c, d, opt is Some),
                    Run { text: joins + "\n"@, noted: Seq::empty(), cells: Seq::empty(), state: Seq::empty() },
                    ls,
                ) {
                    Ok(r) => Ok((q, r.text)),
                    Err((e, _)) => Err(e),
                }
            } else {
                match spec_correlate(d, col) {
                    Err(e) => Err(e),
                    Ok(res) => match spec_column(col) {
                        Err(e) => Err(e),
                        Ok(column) => match resolved_column(d, res) {
                            Err(e) => Err(e),
                            Ok(foreign) => {
                                let join = if d.spec_nullable() is Some || opt is Some { "LEFT JOIN"@ } else { "INNER JOIN"@ };
                                Ok((q, joins + "\n"@ + join + join_rest(c, d, foreign, column)))
                            },
                        },
                    },
                }
            }
        },
    }
}

/// The select list and the joins after the first `n` flattened columns.
pub open spec fn flat_steps<'c>(fs: Seq<(Construct<'c>, Column<'c>, Option<Nullable>)>, target: Target, n: int) -> Result<(Seq<char>, Seq<char>), Failure>
    decreases n,
{
    if n <= 0 {
        Ok(("SELECT\n"@, Seq::empty()))
    } else {
        match flat_steps(fs, target, n - 1) {
            Err(e) => Err(e),
            Ok((q, j)) => flat_step(q, j, fs[n - 1], target),
        }
    }
}

/// The select query of a construct: its columns read in order from their
/// structs, the outermost struct named by its unique name, then the joins.
pub open spec fn construct_query<'c>(c: Construct<'c>, target: Target) -> Result<Seq<char>, Failure> {
    let fs = spec_flat(c, None);
    match flat_steps(fs, target, fs.len() as int) {
        Err(e) => Err(e),
        Ok((q, joins)) => Ok(trimmed_comma(q) + "\nFROM "@ + c.table.attr.table@ + " AS \""@ + c.unique@ + "\""@ + joins),
    }
}

/// A failing column fails the whole query.
pub proof fn lemma_flat_steps_err<'c>(fs: Seq<(Construct<'c>, Column<'c>, Option<Nullable>)>, target: Target, i: int, n: int)
    requires
        0 <= i <= n,
        flat_steps(fs, target, i) is Err,
    ensures
        flat_steps(fs, target, n) == flat_steps(fs, target, i),
    decreases n - i,
{
    if n > i {
        lemma_flat_steps_err(fs, target, i, n - 1);
    }
}

impl Resolved {
    /// The column name that a join resolves to (see `resolved_column`).
    pub fn column<'c>(&self, d: &Construct<'c>) -> (r: Result<String, Error>)
        ensures
            match resolved_column(*d, *self) {
                Ok(s) => r matches Ok(t) && t@ == s,
                Err(f) => r matches Err(e) && e.fault == f.0 && e.message@ == f.1,
            },
    {
        match self {
            Resolved::Attr(s) => Ok(s.clone()),
            Resolved::Field(i) => if *i < d.fields.len() {
                d.fields[*i].column()
            } else {
                Err(Error::new(crate::error::call_site(), Fault::Unresolved, "unresolved target".to_owned()))
            },
        }
    }
}

/// Appends one flattened column's part to the select list or the joins.
fn flat_into<'a, 'c>(query: &mut String, joins: &mut String, f: &Flattened<'a, 'c>, target: Target) -> (r: Result<(), Error>)
    ensures
        match flat_step(old(query)@, old(joins)@, (*f.construct, *f.column, f.nullable), target) {
            Ok((q, j)) => r is Ok && final(query)@ == q && final(joins)@ == j,
            Err(e) => r matches Err(x) && x.fault == e.0 && x.message@ == e.1,
        },
{
    proof { reveal(flat_step); }
    let col = f.column;
    let c = f.construct;
    match &col.code {
        Code::Skip => Ok(()),
        Code::Query => {
            let column = col.column()?;
            let list = infos(&col.field.attr.select);
            selector(query, list.as_slice(), c.unique.as_str(), column.as_str(), col.unique.as_str(), "!: _", target)
        }
        Code::Foreign(d) => {
            let list = infos(&col.field.attr.joins);
            if list.len() > 0 {
                push_str(joins, "\n");
                let mut params = foreigns(c, d, f.nullable.is_some());
                assert(params.cells@ =~= Seq::<crate::params::Dollar<crate::params::Index>>::empty());
                assert(params.state@ =~= Seq::<usize>::empty());
                params.output(joins, list.as_slice())
            } else {
                let res = d.correlate(col)?;
                let column = col.column()?;
                let foreign = res.column(d)?;
                let join = if d.nullable().is_some() || f.nullable.is_some() { "LEFT JOIN" } else { "INNER JOIN" };
                let mut rest = String::new();
                push_str(&mut rest, " \"");
                push_str(&mut rest, d.table.attr.table.as_str());
                push_str(&mut rest, "\" AS \"");
                push_str(&mut rest, d.unique.as_str());
                push_str(&mut rest, "\" ON \"");
                push_str(&mut rest, d.unique.as_str());
                push_str(&mut rest, "\".\"");
                push_str(&mut rest, foreign.as_str());
                push_str(&mut rest, "\" = \"");
                push_str(&mut rest, c.unique.as_str());
                push_str(&mut rest, "\".\"");
                push_str(&mut rest, column.as_str());
                push_str(&mut rest, "\"");
                assert(rest@ =~= join_rest(*c, *d, foreign@, column@));
                push_str(joins, "\n");
                push_str(joins, join);
                push_str(joins, rest.as_str());
                Ok(())
            }
        }
    }
}

/// Ends a select list: the last `,\n` taken off, then the outermost table by its
/// name, then the joins.
fn select_from(query: &mut String, joins: &String, table: &str, unique: &str)
    ensures
        final(query)@ == trimmed_comma(old(query)@) + "\nFROM "@ + table@ + " AS \""@ + unique@ + "\""@ + joins@,
{
    trim_comma(query);
    push_str(query, "\nFROM ");
    push_str(query, table);
    push_str(query, " AS \"");
    push_str(query, unique);
    push_str(query, "\"");
    push_str(query, joins.as_str());
}

impl<'c> Construct<'c> {
    /// The columns of the construct in reading order (see `spec_flat`).
    pub fn flatten<'a>(&'a self) -> (r: Vec<Flattened<'a, 'c>>)
        ensures
            flat_view(r@) == spec_flat(*self, None),
    {
        let mut fs: Vec<Flattened> = Vec::new();
        self.flattened(None, &mut fs);
        assert(flat_view(Seq::<Flattened>::empty()) =~= Seq::empty());
        assert(flat_view(Seq::<Flattened>::empty()) + spec_flat(*self, None) =~= spec_flat(*self, None));
        fs
    }

    /// The select query of the construct (see `construct_query`).
    pub fn query(&self, target: Target) -> (r: Result<String, Error>)
        ensures
            match construct_query(*self, target) {
                Ok(q) => r matches Ok(s) && s@ == q,
                Err(f) => r matches Err(e) && e.fault == f.0 && e.message@ == f.1,
            },
    {
        let fs = self.flatten();
        let mut query = String::new();
        let mut joins = String::new();
        push_str(&mut query, "SELECT\n");
        assert(query@ =~= "SELECT\n"@);
        assert(joins@ =~= Seq::<char>::empty());
        let mut i: usize = 0;
        while i < fs.len()
            invariant
                i <= fs@.len(),
                flat_view(fs@) == spec_flat(*self, None),
                flat_steps(flat_view(fs@), target, i as int) == Ok::<(Seq<char>, Seq<char>), Failure>((query@, joins@)),
            decreases fs@.len() - i,
        {
            match flat_into(&mut query, &mut joins, &fs[i], target) {
                Ok(()) => {}
                Err(e) => {
                    proof { lemma_flat_steps_err(flat_view(fs@), target, i + 1, fs@.len() as int); }
                    return Err(e);
                }
            }
            i = i + 1;
        }
        select_from(&mut query, &joins, self.table.attr.table.as_str(), self.unique.as_str());
        Ok(query)
    }
}


/// The alias of a field of the struct at path `p`: the field's name where the
/// construct is a single struct; else the struct's unique name, `__` and the
/// field's name.
pub open spec fn column_name(all: Seq<(Seq<Seq<char>>, Seq<char>)>, p: Seq<Seq<char>>, ident: Seq<char>) -> Seq<char> {
    if all.len() <= 1 { ident } else { unique_name(all, p) + "__"@ + ident }
}

/// Whether the struct at path `p`, its columns, and the structs they join carry
/// their unique names among the paths `all`.
pub open spec fn named<'c>(c: Construct<'c>, p: Seq<Seq<char>>, all: Seq<(Seq<Seq<char>>, Seq<char>)>) -> bool
    decreases c, 1int, 0int,
{
    c.unique@ == unique_name(all, p) && named_from(c, p, all, c.fields@.len() as int)
}

/// Whether the first `n` columns carry their unique names.
pub open spec fn named_from<'c>(c: Construct<'c>, p: Seq<Seq<char>>, all: Seq<(Seq<Seq<char>>, Seq<char>)>, n: int) -> bool
    decreases c, 0int, n,
{
    if n <= 0 || n > c.fields@.len() {
        true
    } else {
        let col = c.fields@[n - 1];
        &&& named_from(c, p, all, n - 1)
        &&& col.unique@ == column_name(all, p, col.field.ident@)
        &&& match col.code {
            Code::Foreign(d) => named(d, p.push(col.field.ident@), all),
            _ => true,
        }
    }
}

/// Whether two constructs are the same but for their unique names.
pub open spec fn shaped<'c>(a: Construct<'c>, b: Construct<'c>) -> bool
    decreases a, 1int, 0int,
{
    &&& a.table == b.table
    &&& a.foreign == b.foreign
    &&& a.fields@.len() == b.fields@.len()
    &&& shaped_from(a, b, a.fields@.len() as int)
}

/// Whether the first `n` columns are the same but for their unique names.
pub open spec fn shaped_from<'c>(a: Construct<'c>, b: Construct<'c>, n: int) -> bool
    decreases a, 0int, n,
{
    if n <= 0 || n > a.fields@.len() || n > b.fields@.len() {
        true
    } else {
        let x = a.fields@[n - 1];
        let y = b.fields@[n - 1];
        &&& shaped_from(a, b, n - 1)
        &&& x.table == y.table
        &&& x.field == y.field
        &&& match (x.code, y.code) {
            (Code::Foreign(c), Code::Foreign(d)) => shaped(c, d),
            (Code::Query, Code::Query) => true,
            (Code::Skip, Code::Skip) => true,
            _ => false,
        }
    }
}

/// Whether columns are named depends only on those columns.
pub proof fn lemma_named_from<'c>(a: Construct<'c>, b: Construct<'c>, p: Seq<Seq<char>>, all: Seq<(Seq<Seq<char>>, Seq<char>)>, n: int)
    requires
        0 <= n <= a.fields@.len(),
        n <= b.fields@.len(),
        a.fields@.take(n) == b.fields@.take(n),
    ensures
        named_from(a, p, all, n) == named_from(b, p, all, n),
    decreases n,
{
    if n > 0 {
        assert(a.fields@.take(n - 1) =~= a.fields@.take(n).take(n - 1));
        assert(b.fields@.take(n - 1) =~= b.fields@.take(n).take(n - 1));
        assert(a.fields@[n - 1] == a.fields@.take(n)[n - 1]);
        assert(b.fields@[n - 1] == b.fields@.take(n)[n - 1]);
        lemma_named_from(a, b, p, all, n - 1);
    }
}

/// Whether columns are the same depends only on those columns.
pub proof fn lemma_shaped_from<'c>(a: Construct<'c>, b: Construct<'c>, c: Construct<'c>, n: int)
    requires
        0 <= n <= a.fields@.len(),
        n <= b.fields@.len(),
        n <= c.fields@.len(),
        b.fields@.take(n) == c.fields@.take(n),
    ensures
        shaped_from(a, b, n) == shaped_from(a, c, n),
    decreases n,
{
    if n > 0 {
        assert(b.fields@.take(n - 1) =~= b.fields@.take(n).take(n - 1));
        assert(c.fields@.take(n - 1) =~= c.fields@.take(n).take(n - 1));
        assert(b.fields@[n - 1] == b.fields@.take(n)[n - 1]);
        assert(c.fields@[n - 1] == c.fields@.take(n)[n - 1]);
        lemma_shaped_from(a, b, c, n - 1);
    }
}

impl<'c> Construct<'c> {
    /// The construct with every struct and column named: the struct at path
    /// `prefix` and what it joins, among the paths `all`.
    pub fn assigned(self, prefix: &Vec<String>, all: &Vec<(Vec<String>, String)>) -> (r: Construct<'c>)
        ensures
            named(r, path_view(prefix@), paved_view(all@)),
            shaped(self, r),
        decreases self, 1int, 0int,
    {
        let ghost orig = self;
        let name = if prefix.len() == 0 {
            proof { reveal_strlit("self"); }
            "self".to_owned()
        } else {
            join_parts(&contract_path(all, prefix))
        };
        assert(name@ == unique_name(paved_view(all@), path_view(prefix@)));
        let Construct { table, fields, foreign, unique: _ } = self;
        let mut rest = fields;
        let mut out: Vec<Column<'c>> = Vec::new();
        let mut i: usize = 0;
        let n = rest.len();
        while i < n
            invariant
                i <= n,
                n == orig.fields@.len(),
                orig == self,
                rest@ == orig.fields@.skip(i as int),
                out@.len() == i,
                name@ == unique_name(paved_view(all@), path_view(prefix@)),
                named_from(Construct { table, fields: out, foreign, unique: name }, path_view(prefix@), paved_view(all@), i as int),
                shaped_from(orig, Construct { table, fields: out, foreign, unique: name }, i as int),
            decreases n - i,
        {
            let col = rest.remove(0);
            assert(col == orig.fields@[i as int]);
            let Column { unique: _, table: t, field, code } = col;
            let alias = if all.len() <= 1 {
                field.ident.clone()
            } else {
                let mut a = name.clone();
                push_str(&mut a, "__");
                push_str(&mut a, field.ident.as_str());
                a
            };
            let code = match code {
                Code::Foreign(d) => {
                    let mut p = prefix.clone();
                    p.push(field.ident.clone());
                    assert(path_view(p@) =~= path_view(prefix@).push(field.ident@));
                    assert(decreases_to!(orig => d)) by {
                        assert(decreases_to!(orig => orig.fields));
                        assert(decreases_to!(orig.fields => orig.fields@));
                        assert(decreases_to!(orig.fields@ => orig.fields@[i as int]));
                        assert(decreases_to!(orig.fields@[i as int] => orig.fields@[i as int].code));
                        assert(decreases_to!(orig.fields@[i as int].code => d));
                    }
                    assert(decreases_to!(orig, 1int, 0int => d, 1int, 0int));
                    Code::Foreign(d.assigned(&p, all))
                }
                Code::Query => Code::Query,
                Code::Skip => Code::Skip,
            };
            let ghost before = out@;
            let ghost c_old = Construct { table, fields: out, foreign, unique: name };
            out.push(Column { unique: alias, table: t, field, code });
            proof {
                let c_new = Construct { table, fields: out, foreign, unique: name };
                assert(out@.take(i as int) =~= before);
                assert(c_old.fields@.take(i as int) =~= before);
                lemma_named_from(c_old, c_new, path_view(prefix@), paved_view(all@), i as int);
                lemma_shaped_from(orig, c_old, c_new, i as int);
                assert(rest@ =~= orig.fields@.skip(i + 1));
            }
            i = i + 1;
        }
        Construct { table, fields: out, foreign, unique: name }
    }

    /// Names every struct of the construct and every column uniquely: a joined
    /// struct by the shortest tail of its path of `foreign` fields that tells it
    /// apart, the outermost as `self`; a column by its struct's name and its own.
    pub fn contract(self) -> (r: Construct<'c>)
        ensures
            named(r, Seq::empty(), spec_paved(self, Seq::empty())),
            shaped(self, r),
    {
        let mut list: Vec<(Vec<String>, String)> = Vec::new();
        let empty: Vec<String> = Vec::new();
        self.pave(&empty, &mut list);
        assert(path_view(empty@) =~= Seq::<Seq<char>>::empty());
        assert(paved_view(list@) =~= spec_paved(self, Seq::empty()));
        self.assigned(&empty, &list)
    }
}


/// The fields of a flat struct, from the first `n` flattened columns: each
/// selected column, made optional where an enclosing joined struct may be absent
/// and the column itself cannot.
pub open spec fn spec_flats<'c>(fs: Seq<(Construct<'c>, Column<'c>, Option<Nullable>)>, n: int) -> Seq<(Column<'c>, bool)>
    decreases n,
{
    if n <= 0 || n > fs.len() {
        Seq::empty()
    } else {
        let (_, col, opt) = fs[n - 1];
        let before = spec_flats(fs, n - 1);
        if col.code is Query {
            before.push((col, opt is Some && col.table.spec_nullable(*col.field) is None))
        } else {
            before
        }
    }
}

impl<'c> Construct<'c> {
    /// The fields of the construct's flat struct (see `spec_flats`).
    pub fn flats<'a>(&'a self) -> (r: Vec<(&'a Column<'c>, bool)>)
        ensures
            r@.map_values(|e: (&'a Column<'c>, bool)| (*e.0, e.1)) == spec_flats(spec_flat(*self, None), spec_flat(*self, None).len() as int),
    {
        let fs = self.flatten();
        let mut r: Vec<(&'a Column<'c>, bool)> = Vec::new();
        let mut i: usize = 0;
        while i < fs.len()
            invariant
                i <= fs@.len(),
                flat_view(fs@) == spec_flat(*self, None),
                r@.map_values(|e: (&'a Column<'c>, bool)| (*e.0, e.1)) == spec_flats(flat_view(fs@), i as int),
            decreases fs@.len() - i,
        {
            let f = &fs[i];
            let ghost before = r@;
            if let Code::Query = f.column.code {
                let wrap = f.nullable.is_some() && f.column.table.nullable(f.column.field).is_none();
                r.push((f.column, wrap));
                assert(r@.map_values(|e: (&'a Column<'c>, bool)| (*e.0, e.1)) =~= before.map_values(|e: (&'a Column<'c>, bool)| (*e.0, e.1)).push((*f.column, wrap)));
            }
            i = i + 1;
        }
        r
    }
}

} // verus!
