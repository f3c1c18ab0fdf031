use vstd::prelude::*;
use crate::construct::{Code, Column, Construct, Nullable, spec_constitute};
use crate::error::{Error, Fault};
use crate::text::push_str;

verus! {

/// Where a row value comes from: a field of the flat struct, or a column of the row.
#[derive(Clone, Copy, PartialEq, Eq, Structural)]
pub enum Source {
    Field,
    Column,
}

/// A joined struct that may be absent: the column whose value tells whether it is
/// present (`target`), the column joining it (`source`), how it may be absent, and
/// the name under which the target's value is handed on.
pub struct Former<'a, 'c> {
    pub target: &'a Column<'c>,
    pub source: &'a Column<'c>,
    pub option: Nullable,
    pub gifted: String,
}

/// How a field of the built struct gets its value.
#[derive(Clone, Copy, PartialEq, Eq, Structural, Debug)]
pub enum Kind {
    /// A skipped field without a `default` expression: the type's default value.
    Default,
    /// A skipped field with a `default` expression: that expression.
    Given,
    /// The row value as it is.
    Plain,
    /// The row value, or its default where absent.
    Defaulted,
    /// The row value; where absent, the whole joined struct is absent.
    Break,
    /// The value handed on by the enclosing joined struct.
    Gifted,
    /// A joined struct, built from its own fields (which follow).
    Joined,
}

/// A step of building a struct from a row, in reading order.
pub struct Formed<'a, 'c> {
    pub column: &'a Column<'c>,
    pub kind: Kind,
    /// For a joined struct that may be absent, how; otherwise the nearest
    /// enclosing one, if any.
    pub former: Option<Former<'a, 'c>>,
}

/// The view of a former: target, source, how absent, and the name handed on.
pub open spec fn former_view<'a, 'c>(f: Option<Former<'a, 'c>>) -> Option<(Column<'c>, Column<'c>, Nullable, Seq<char>)> {
    match f {
        Some(x) => Some((*x.target, *x.source, x.option, x.gifted@)),
        None => None,
    }
}

/// The view of the steps.
pub open spec fn formed_view<'a, 'c>(v: Seq<Formed<'a, 'c>>) -> Seq<(Column<'c>, Kind, Option<(Column<'c>, Column<'c>, Nullable, Seq<char>)>)> {
    v.map_values(|f: Formed<'a, 'c>| (*f.column, f.kind, former_view(f.former)))
}

/// The name of a column in generated code: its field name, unless its alias differs.
pub open spec fn ident_of<'c>(col: Column<'c>) -> Seq<char> {
    col.unique@
}

/// How a skipped column gets its value: its `default` expression where it has one,
/// else the type's default value.
pub open spec fn skip_kind<'c>(col: Column<'c>) -> Kind {
    if col.field.attr.default is Some && col.field.attr.default_given { Kind::Given } else { Kind::Default }
}

/// How a selected column gets its value.
pub open spec fn query_kind<'c>(col: Column<'c>, source: Source, former: Option<(Column<'c>, Column<'c>, Nullable, Seq<char>)>) -> Kind {
    let nullable = col.table.spec_nullable(*col.field);
    match source {
        Source::Field => if former is Some && nullable is None {
            Kind::Break
        } else if nullable matches Some(Nullable::Default(_)) {
            Kind::Defaulted
        } else {
            Kind::Plain
        },
        Source::Column => if former matches Some(f) && f.3 == ident_of(col) {
            Kind::Gifted
        } else if col.field.attr.default is Some {
            Kind::Defaulted
        } else {
            Kind::Plain
        },
    }
}

/// The steps of building a construct's struct from a row: one per column, a
/// joined struct followed by its own steps. A joined struct that may be absent
/// needs a column telling whether it is present; the error names the first
/// joined struct without one.
pub open spec fn spec_formed<'c>(c: Construct<'c>, former: Option<(Column<'c>, Column<'c>, Nullable, Seq<char>)>, source: Source)
    -> Result<Seq<(Column<'c>, Kind, Option<(Column<'c>, Column<'c>, Nullable, Seq<char>)>)>, Seq<char>>
    decreases c, 1int, 0int,
{
    formed_from(c, former, source, c.fields@.len() as int)
}

/// The steps of the first `n` columns.
pub open spec fn formed_from<'c>(c: Construct<'c>, former: Option<(Column<'c>, Column<'c>, Nullable, Seq<char>)>, source: Source, n: int)
    -> Result<Seq<(Column<'c>, Kind, Option<(Column<'c>, Column<'c>, Nullable, Seq<char>)>)>, Seq<char>>
    decreases c, 0int, n,
{
    if n <= 0 || n > c.fields@.len() {
        Ok(Seq::empty())
    } else {
        match formed_from(c, former, source, n - 1) {
            Err(e) => Err(e),
            Ok(v) => {
                let col = c.fields@[n - 1];
                match col.code {
                    Code::Skip => Ok(v.push((col, skip_kind(col), former))),
                    Code::Query => Ok(v.push((col, query_kind(col, source, former), former))),
                    Code::Foreign(d) => {
                        let own = match d.spec_nullable() {
                            None => Ok(None),
                            Some(option) => match spec_constitute(d) {
                                None => Err(d.table.ident@),
                                Some(t) => Ok(Some((t, col, option, ident_of(t)))),
                            },
                        };
                        match own {
                            Err(e) => Err(e),
                            Ok(o) => {
                                let inner = if o is Some { o } else { former };
                                match spec_formed(d, inner, source) {
                                    Err(e) => Err(e),
                                    Ok(w) => Ok(v.push((col, Kind::Joined, o)) + w),
                                }
                            },
                        }
                    },
                }
            },
        }
    }
}

/// A failing column fails the whole struct.
pub proof fn lemma_formed_err<'c>(c: Construct<'c>, former: Option<(Column<'c>, Column<'c>, Nullable, Seq<char>)>, source: Source, i: int, n: int)
    requires
        0 <= i <= n <= c.fields@.len(),
        formed_from(c, former, source, i) is Err,
    ensures
        formed_from(c, former, source, n) == formed_from(c, former, source, i),
    decreases n - i,
{
    if n > i {
        lemma_formed_err(c, former, source, i, n - 1);
    }
}

/// A copy of a former.
fn copy_former<'a, 'c>(f: &Option<Former<'a, 'c>>) -> (r: Option<Former<'a, 'c>>)
    ensures
        former_view(r) == former_view(*f),
{
    match f {
        Some(x) => Some(Former { target: x.target, source: x.source, option: x.option, gifted: x.gifted.clone() }),
        None => None,
    }
}

impl<'c> Construct<'c> {
    /// Appends the steps of building this construct's struct from a row (see
    /// `spec_formed`), with the nearest enclosing joined struct that may be absent.
    pub fn formed<'a>(&'a self, former: Option<Former<'a, 'c>>, source: Source, out: &mut Vec<Formed<'a, 'c>>) -> (r: Result<(), Error>)
        ensures
            match spec_formed(*self, former_view(former), source) {
                Ok(v) => r is Ok && formed_view(final(out)@) == formed_view(old(out)@) + v,
                Err(x) => r matches Err(e) && e.fault == Fault::Ambiguous
                    && e.message@ == "ambiguous left join on "@ + x + ": all fetched fields are nullable"@,
            },
        decreases *self, 1int, 0int,
    {
        let ghost fv = former_view(former);
        let mut i: usize = 0;
        while i < self.fields.len()
            invariant
                i <= self.fields@.len(),
                fv == former_view(former),
                formed_from(*self, fv, source, i as int) matches Ok(v) && formed_view(out@) == formed_view(old(out)@) + v,
            decreases self.fields@.len() - i,
        {
            let col = &self.fields[i];
            let ghost before = out@;
            let ghost v0 = formed_from(*self, fv, source, i as int)->Ok_0;
            match &col.code {
                Code::Skip => {
                    let kind = if col.field.attr.default.is_some() && col.field.attr.default_given { Kind::Given } else { Kind::Default };
                    out.push(Formed { column: col, kind, former: copy_former(&former) });
                    assert(formed_view(out@) =~= formed_view(before).push((*col, skip_kind(*col), fv)));
                }
                Code::Query => {
                    let nullable = col.table.nullable(col.field);
                    let kind = match source {
                        Source::Field => {
                            if former.is_some() && nullable.is_none() {
                                Kind::Break
                            } else if let Some(Nullable::Default(_)) = nullable {
                                Kind::Defaulted
                            } else {
                                Kind::Plain
                            }
                        }
                        Source::Column => {
                            let gifted = match &former {
                                Some(f) => f.gifted == col.unique,
                                None => false,
                            };
                            if gifted {
                                Kind::Gifted
                            } else if col.field.attr.default.is_some() {
                                Kind::Defaulted
                            } else {
                                Kind::Plain
                            }
                        }
                    };
                    assert(kind == query_kind(*col, source, fv));
                    out.push(Formed { column: col, kind, former: copy_former(&former) });
                    assert(formed_view(out@) =~= formed_view(before).push((*col, kind, fv)));
                }
                Code::Foreign(d) => {
                    let own = match d.nullable() {
                        None => None,
                        Some(option) => match d.constitute() {
                            None => {
                                proof { lemma_formed_err(*self, fv, source, i + 1, self.fields@.len() as int); }
                                let span = match col.field.attr.foreign { Some(s) => s, None => col.field.span };
                                let mut msg = String::new();
                                push_str(&mut msg, "ambiguous left join on ");
                                push_str(&mut msg, d.table.ident.as_str());
                                push_str(&mut msg, ": all fetched fields are nullable");
                                assert(msg@ =~= "ambiguous left join on "@ + d.table.ident@ + ": all fetched fields are nullable"@);
                                return Err(Error::new(span, Fault::Ambiguous, msg));
                            }
                            Some(t) => Some(Former { target: t, source: col, option, gifted: t.unique.clone() }),
                        },
                    };
                    let ghost ov = former_view(own);
                    out.push(Formed { column: col, kind: Kind::Joined, former: copy_former(&own) });
                    assert(formed_view(out@) =~= formed_view(before).push((*col, Kind::Joined, ov)));
                    let ghost mid = out@;
                    let inner = if own.is_some() { own } else { copy_former(&former) };
                    match d.formed(inner, source, out) {
                        Ok(()) => {}
                        Err(e) => {
                            proof { lemma_formed_err(*self, fv, source, i + 1, self.fields@.len() as int); }
                            return Err(e);
                        }
                    }
                    proof {
                        let w = spec_formed(*d, if ov is Some { ov } else { fv }, source)->Ok_0;
                        assert(formed_view(out@) =~= formed_view(before).push((*col, Kind::Joined, ov)) + w);
                        assert(formed_view(old(out)@) + (v0.push((*col, Kind::Joined, ov)) + w) =~= (formed_view(old(out)@) + v0).push((*col, Kind::Joined, ov)) + w);
                    }
                }
            }
            i = i + 1;
        }
        Ok(())
    }
}

} // verus!
