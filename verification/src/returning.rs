use vstd::prelude::*;
use crate::construct::Code;
use crate::error::{Error, Fault, call_site, Failure};
use crate::select::{Scalar, Returns};
use crate::table::{QueryTable, Returning};
use crate::text::push_str;
use crate::types::Derived;

verus! {

/// What a derived struct returns from its query: the struct, the table struct its
/// `table` attribute names (if a path), and its `returning` attribute (an empty
/// one where given without value).
pub struct Returnable<'c, K> {
    pub table: &'c Derived<K>,
    pub returning: Option<Returning>,
}

/// A returned field, by where it comes from (`true`: the struct itself) and position.
pub open spec fn scalar_view<'c, K>(s: Scalar<'c, K>) -> (bool, int) {
    match s {
        Scalar::Table(_, f) => (true, f as int),
        Scalar::Paved(_, f) => (false, f as int),
    }
}

/// What is returned, by kind: nothing, the fields (one alone or several), or a
/// table struct by its path.
pub enum Returned {
    Nothing,
    Scalar((bool, int)),
    Tuple(Seq<(bool, int)>),
    Table(Seq<char>),
}

/// The kind of what is returned.
pub open spec fn returns_view<'c, K>(r: Returns<'c, K>) -> Returned {
    match r {
        Returns::Nothing => Returned::Nothing,
        Returns::Scalar(s) => Returned::Scalar(scalar_view(s)),
        Returns::Tuple(v) => Returned::Tuple(v@.map_values(|s: Scalar<'c, K>| scalar_view(s))),
        Returns::Table(p, _) => Returned::Table(p@),
    }
}

/// The position of the first field from `from` on, not skipped, named `ident`.
pub open spec fn own_field<K>(t: Derived<K>, ident: Seq<char>, from: int) -> Option<int>
    decreases t.fields@.len() - from,
{
    if from < 0 || from >= t.fields@.len() {
        None
    } else if t.fields@[from].attr.skip is None && t.fields@[from].ident@ == ident {
        Some(from)
    } else {
        own_field(t, ident, from + 1)
    }
}

/// The field of a table struct named `ident`, from field `from` on: an error where
/// a field on the way cannot be read, or the field named is joined.
pub open spec fn paved_field(t: QueryTable, ident: Seq<char>, from: int) -> Result<Option<int>, Failure>
    decreases t.fields@.len() - from,
{
    if from < 0 || from >= t.fields@.len() {
        Ok(None)
    } else {
        match t.spec_code(t.fields@[from]) {
            Err(f) => Err(f),
            Ok(code) => if t.fields@[from].ident@ == ident {
                if code is Foreign {
                    Err((Fault::Invalid, "invalid field: cannot return foreign field\nnote: #[sqly(returning)] requires a field without #[sqly(foreign)]"@))
                } else {
                    Ok(Some(from))
                }
            } else {
                paved_field(t, ident, from + 1)
            },
        }
    }
}

/// Whether some field of a table struct from `from` on cannot be read, or is joined.
pub open spec fn joined_or_invalid(t: QueryTable, from: int) -> Option<Failure>
    decreases t.fields@.len() - from,
{
    if from < 0 || from >= t.fields@.len() {
        None
    } else {
        match t.spec_code(t.fields@[from]) {
            Err(f) => Some(f),
            Ok(Code::Foreign(_)) => Some((Fault::Invalid,
                "invalid table: cannot return foreign table\nnote: #[sqly(returning)] requires a table without #[sqly(foreign)]"@)),
            Ok(_) => joined_or_invalid(t, from + 1),
        }
    }
}

impl<'c, K> Returnable<'c, K> {
    /// The table struct that returned fields may come from: the one `returning`
    /// names, else the one the `table` attribute names; none without `returning`.
    pub open spec fn spec_companion(&self) -> Option<Seq<char>> {
        match self.returning {
            Some(r) => match r.table {
                Some(t) => Some(t@),
                None => match self.table.attr.path { Some(p) => Some(p@), None => None },
            },
            None => None,
        }
    }

    /// The table struct that returned fields may come from.
    pub fn companion(&self) -> (r: Option<String>)
        ensures
            match self.spec_companion() { Some(p) => r matches Some(s) && s@ == p, None => r is None },
    {
        match &self.returning {
            Some(r) => match &r.table {
                Some(t) => Some(t.clone()),
                None => match &self.table.attr.path { Some(p) => Some(p.clone()), None => None },
            },
            None => None,
        }
    }

    /// Where a returned field named `ident` comes from: the struct's own fields
    /// where `returning` names no table, else the companion table struct's.
    pub open spec fn spec_correlate(&self, companion: Option<QueryTable>, ident: Seq<char>) -> Result<(bool, int), Failure> {
        let searched = self.returning matches Some(r) && r.table is None;
        let own = if searched { own_field(*self.table, ident, 0) } else { None };
        let absent = (if searched { self.table.ident@ } else { Seq::empty() }) + match companion {
            Some(t) => (if searched { " or "@ } else { Seq::empty() }) + t.ident@,
            None => Seq::empty(),
        };
        let unknown = (Fault::Unknown, "unknown field: identifier not present in "@ + absent);
        match own {
            Some(i) => Ok((true, i)),
            None => match companion {
                Some(t) => match paved_field(t, ident, 0) {
                    Err(f) => Err(f),
                    Ok(Some(j)) => Ok((false, j)),
                    Ok(None) => Err(unknown),
                },
                None => Err(unknown),
            },
        }
    }

    /// Finds a returned field (see `spec_correlate`); `companion` is the table
    /// struct the companion path names.
    #[verifier::loop_isolation(false)]
    pub fn correlate(&self, companion: Option<&'c QueryTable>, ident: &String) -> (r: Result<Scalar<'c, K>, Error>)
        ensures
            match self.spec_correlate(match companion { Some(t) => Some(*t), None => None }, ident@) {
                Ok(v) => r matches Ok(s) && scalar_view(s) == v && s.valid(),
                Err(f) => r matches Err(e) && e.fault == f.0 && e.message@ == f.1,
            },
    {
        let mut absent = String::new();
        let own = match &self.returning {
            Some(r) => r.table.is_none(),
            None => false,
        };
        if own {
            let t = self.table;
            let mut i: usize = 0;
            while i < t.fields.len()
                invariant
                    i <= t.fields@.len(),
                    own_field(*t, ident@, 0) == own_field(*t, ident@, i as int),
                decreases t.fields@.len() - i,
            {
                if t.fields[i].attr.skip.is_none() && t.fields[i].ident == *ident {
                    return Ok(Scalar::Table(t, i));
                }
                i = i + 1;
            }
            push_str(&mut absent, t.ident.as_str());
        }
        if let Some(t) = companion {
            let mut j: usize = 0;
            while j < t.fields.len()
                invariant
                    j <= t.fields@.len(),
                    paved_field(*t, ident@, 0) == paved_field(*t, ident@, j as int),
                decreases t.fields@.len() - j,
            {
                let field = &t.fields[j];
                let code = t.code(field)?;
                if field.ident == *ident {
                    if let Code::Foreign(_) = code {
                        return Err(Error::new(field.span, Fault::Invalid,
                            "invalid field: cannot return foreign field\nnote: #[sqly(returning)] requires a field without #[sqly(foreign)]".to_owned()));
                    }
                    return Ok(Scalar::Paved(t, j));
                }
                j = j + 1;
            }
            if own {
                push_str(&mut absent, " or ");
            }
            push_str(&mut absent, t.ident.as_str());
        }
        let mut msg = String::new();
        push_str(&mut msg, "unknown field: identifier not present in ");
        push_str(&mut msg, absent.as_str());
        Err(Error::new(call_site(), Fault::Unknown, msg))
    }

    /// The returned fields of the first `n` names, where each is found.
    pub open spec fn spec_scalars(&self, companion: Option<QueryTable>, names: Seq<String>, n: int) -> Result<Seq<(bool, int)>, Failure>
        decreases n,
    {
        if n <= 0 {
            Ok(Seq::empty())
        } else {
            match self.spec_scalars(companion, names, n - 1) {
                Err(f) => Err(f),
                Ok(v) => match self.spec_correlate(companion, names[n - 1]@) {
                    Err(f) => Err(f),
                    Ok(x) => Ok(v.push(x)),
                },
            }
        }
    }

    /// What the query returns: nothing without `returning`; the named fields (one
    /// alone, or several); else the columns of the companion table struct, which
    /// must be named by a path, join nothing, and be readable from rows.
    pub open spec fn spec_resolve(&self, companion: Option<QueryTable>) -> Result<Returned, Failure> {
        match self.returning {
            None => Ok(Returned::Nothing),
            Some(r) => if r.fields@.len() > 0 {
                match self.spec_scalars(companion, r.fields@, r.fields@.len() as int) {
                    Err(f) => Err(f),
                    Ok(v) => if v.len() == 1 { Ok(Returned::Scalar(v[0])) } else { Ok(Returned::Tuple(v)) },
                }
            } else {
                match (self.spec_companion(), companion) {
                    (Some(p), Some(t)) => if joined_or_invalid(t, 0) is Some {
                        Err(joined_or_invalid(t, 0)->Some_0)
                    } else if !(t.attr.from_row is Some || t.attr.select is Some) {
                        Err((Fault::Missing, "missing attribute: the referenced table must have #[sqly(from_row)]\nnote: #[sqly(returning)] uses the sqlx::FromRow definition for its query"@))
                    } else {
                        Ok(Returned::Table(p))
                    },
                    _ => Err((Fault::Invalid, "invalid table identifier: expected path\nnote: #[sqly(returning)] requires a struct with #[derive(Table)]"@)),
                }
            },
        }
    }

    /// A failing name fails the whole list.
    pub proof fn lemma_scalars_err(&self, companion: Option<QueryTable>, names: Seq<String>, i: int, n: int)
        requires
            0 <= i <= n,
            self.spec_scalars(companion, names, i) is Err,
        ensures
            self.spec_scalars(companion, names, n) == self.spec_scalars(companion, names, i),
        decreases n - i,
    {
        if n > i {
            self.lemma_scalars_err(companion, names, i, n - 1);
        }
    }

    /// What the query returns (see `spec_resolve`); `companion` is the table struct
    /// the companion path names, if there is one.
    #[verifier::loop_isolation(false)]
    pub fn resolve(&self, companion: Option<&'c QueryTable>) -> (r: Result<Returns<'c, K>, Error>)
        requires
            (companion is Some) == (self.spec_companion() is Some),
        ensures
            match self.spec_resolve(match companion { Some(t) => Some(*t), None => None }) {
                Ok(v) => r matches Ok(x) && returns_view(x) == v && x.valid(),
                Err(f) => r matches Err(e) && e.fault == f.0 && e.message@ == f.1,
            },
    {
        let ghost comp = match companion { Some(t) => Some(*t), None => None };
        let returning = match &self.returning {
            None => return Ok(Returns::Nothing),
            Some(r) => r,
        };
        if returning.fields.len() > 0 {
            let mut list: Vec<Scalar<'c, K>> = Vec::new();
            let mut i: usize = 0;
            while i < returning.fields.len()
                invariant
                    i <= returning.fields@.len(),
                    self.returning == Some(*returning),
                    self.spec_scalars(comp, returning.fields@, i as int) matches Ok(v)
                        && list@.map_values(|s: Scalar<'c, K>| scalar_view(s)) == v,
                    forall|k: int| 0 <= k < list@.len() ==> (#[trigger] list@[k]).valid(),
                    comp == match companion { Some(t) => Some(*t), None => None },
                decreases returning.fields@.len() - i,
            {
                match self.correlate(companion, &returning.fields[i]) {
                    Ok(s) => {
                        let ghost before = list@;
                        list.push(s);
                        assert(list@.map_values(|s: Scalar<'c, K>| scalar_view(s)) =~= before.map_values(|s: Scalar<'c, K>| scalar_view(s)).push(scalar_view(s)));
                    }
                    Err(e) => {
                        proof { self.lemma_scalars_err(comp, returning.fields@, i + 1, returning.fields@.len() as int); }
                        return Err(e);
                    }
                }
                i = i + 1;
            }
            if list.len() == 1 {
                let s = list.pop().unwrap();
                return Ok(Returns::Scalar(s));
            }
            return Ok(Returns::Tuple(list));
        }
        let path = self.companion();
        match (path, companion) {
            (Some(p), Some(t)) => {
                let mut j: usize = 0;
                while j < t.fields.len()
                    invariant
                        j <= t.fields@.len(),
                        joined_or_invalid(*t, 0) == joined_or_invalid(*t, j as int),
                    decreases t.fields@.len() - j,
                {
                    if let Code::Foreign(_) = t.code(&t.fields[j])? {
                        return Err(Error::new(call_site(), Fault::Invalid,
                            "invalid table: cannot return foreign table\nnote: #[sqly(returning)] requires a table without #[sqly(foreign)]".to_owned()));
                    }
                    j = j + 1;
                }
                if !t.formable() {
                    return Err(Error::new(call_site(), Fault::Missing,
                        "missing attribute: the referenced table must have #[sqly(from_row)]\nnote: #[sqly(returning)] uses the sqlx::FromRow definition for its query".to_owned()));
                }
                Ok(Returns::Table(p, t))
            }
            _ => Err(Error::new(call_site(), Fault::Invalid,
                "invalid table identifier: expected path\nnote: #[sqly(returning)] requires a struct with #[derive(Table)]".to_owned())),
        }
    }
}

/// A copy of a list of strings.
fn clone_strings(v: &Vec<String>) -> (r: Vec<String>)
    ensures
        r@ == v@,
{
    let mut r: Vec<String> = Vec::new();
    let mut i: usize = 0;
    while i < v.len()
        invariant
            i <= v@.len(),
            r@ == v@.take(i as int),
        decreases v@.len() - i,
    {
        r.push(v[i].clone());
        i = i + 1;
        assert(r@ =~= v@.take(i as int));
    }
    assert(v@.take(v@.len() as int) =~= v@);
    r
}

impl<K> Derived<K> {
    /// What the struct's query returns, before it is resolved.
    pub fn returnable(&self) -> (r: Returnable<'_, K>)
        ensures
            r.table == self,
            match self.attr.returning {
                Some(info) => match info.data {
                    Some(d) => r.returning matches Some(e) && e.table == d.table && e.fields@ == d.fields@,
                    None => r.returning matches Some(e) && e.table is None && e.fields@.len() == 0,
                },
                None => r.returning is None,
            },
    {
        let returning = match &self.attr.returning {
            Some(info) => Some(match &info.data {
                Some(d) => Returning { table: match &d.table { Some(t) => Some(t.clone()), None => None }, fields: clone_strings(&d.fields) },
                None => Returning { table: None, fields: Vec::new() },
            }),
            None => None,
        };
        Returnable { table: self, returning }
    }
}

} // verus!
