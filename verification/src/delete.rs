use vstd::prelude::*;
use crate::builder::{Build, Done, Piece, flush, pieces, cut_model, text_of, cut_suffix, views, optional_among};
use crate::error::{Error, Fault, call_site, Failure};
use crate::params::{Params, Param, Value, Run, lines};
use crate::query::{
    appended, arg_step, clause_step, base_map, base_run, optional_flags, rest_of, tracks, info_lines,
    included, infos, cell_values, lemma_included_bound, written, arg_alone, clause_from, opt_clause,
};
use crate::rules::Info;
use crate::types::DeleteTable;

verus! {

/// The start of a delete query.
pub open spec fn delete_head(t: DeleteTable) -> Seq<char> {
    "DELETE FROM "@ + t.attr.table@ + " AS \"self\"\nWHERE\n"@
}

/// What field `f` adds to a delete query: its `filter` lines, with `$i` its bind and
/// `$column` its column; without them, its column compared with its bind.
pub open spec fn delete_field(t: DeleteTable, m: Map<Seq<char>, Param>, r: Run, f: int) -> Result<(Map<Seq<char>, Param>, Run), Failure> {
    let field = t.fields@[f];
    let column = t.spec_declaration(field).0;
    let ls = info_lines(field.attr.filter@);
    if ls.len() > 0 {
        let m1 = m.insert("i"@, Param::Cell(f as usize)).insert("column"@, Param::Text(column));
        match arg_step(m1, appended(r, "\t("@), ls, None) {
            Ok(r1) => Ok((m1, appended(r1, ") AND\n"@))),
            Err(e) => Err(e),
        }
    } else {
        let r0 = appended(appended(appended(r, "\t\""@), column), "\" = "@);
        match arg_step(m, r0, Seq::empty(), Some(Param::Cell(f as usize))) {
            Ok(r1) => Ok((m, appended(r1, " AND\n"@))),
            Err(e) => Err(e),
        }
    }
}

/// What the first `n` fields add to a delete query; skipped fields add nothing.
pub open spec fn delete_fields(t: DeleteTable, m: Map<Seq<char>, Param>, r: Run, n: int) -> Result<(Map<Seq<char>, Param>, Run), Failure>
    decreases n,
{
    if n <= 0 {
        Ok((m, r))
    } else {
        match delete_fields(t, m, r, n - 1) {
            Err(e) => Err(e),
            Ok((m1, r1)) => if t.fields@[n - 1].attr.skip is Some { Ok((m1, r1)) } else { delete_field(t, m1, r1, n - 1) },
        }
    }
}

/// The delete query: the head, the struct's `filter` clause, a clause per field,
/// less the last ` AND\n`; without one to take off, the query is incomplete unless
/// it is built at run time and not checked.
pub open spec fn delete_run(t: DeleteTable) -> Result<Run, Failure> {
    let m0 = base_map(t.fields@);
    match clause_step(m0, base_run(t.fields@, delete_head(t)), info_lines(t.attr.filter@), ") AND\n"@) {
        Err(e) => Err(e),
        Ok(r1) => match delete_fields(t, m0, r1, t.fields@.len() as int) {
            Err(e) => Err(e),
            Ok((_, r2)) => match cut_suffix(r2.text, seq![" AND\n"@]) {
                Some(c) => Ok(Run { text: c, noted: r2.noted, cells: r2.cells, state: r2.state }),
                None => if t.attr.dynamic is Some && t.attr.unchecked is Some { Ok(r2) } else { Err((Fault::Incomplete, "incomplete query: missing delete filter"@)) },
            },
        },
    }
}

/// What field `f` adds to a dynamic delete query: its clause, as `delete_field`
/// writes it, with the argument as a `Write` piece.
pub open spec fn delete_field_pieces(t: DeleteTable, m: Map<Seq<char>, Param>, r: Run, f: int, start: (Seq<Piece>, Seq<char>)) -> (Seq<Piece>, Seq<char>) {
    let field = t.fields@[f];
    let column = t.spec_declaration(field).0;
    let ls = info_lines(field.attr.filter@);
    let optional = t.spec_optional(field) is Some;
    if ls.len() > 0 {
        let m1 = m.insert("i"@, Param::Cell(f as usize)).insert("column"@, Param::Text(column));
        opt_clause(start, optional, f as usize, "\t("@, written(m1, arg_alone(m1, r, ls, None), ls, None), ") AND\n"@)
    } else {
        let cell = Some(Param::Cell(f as usize));
        opt_clause(start, optional, f as usize, "\t\""@ + column + "\" = "@, written(m, arg_alone(m, r, Seq::empty(), cell), Seq::empty(), cell), " AND\n"@)
    }
}

/// What the first `n` fields add to a dynamic delete query.
pub open spec fn delete_fields_pieces(t: DeleteTable, m: Map<Seq<char>, Param>, r: Run, n: int, start: (Seq<Piece>, Seq<char>)) -> (Seq<Piece>, Seq<char>)
    decreases n,
{
    if n <= 0 {
        start
    } else {
        let prev = delete_fields_pieces(t, m, r, n - 1, start);
        if t.fields@[n - 1].attr.skip is Some {
            prev
        } else {
            match delete_fields(t, m, r, n - 1) {
                Ok((m1, r1)) => delete_field_pieces(t, m1, r1, n - 1, prev),
                Err(_) => prev,
            }
        }
    }
}

/// The pieces of a dynamic delete query: the head and the struct's `filter`
/// clause as text and a `Write`, each field's clause (an optional field's in a
/// `Present` piece), and the last ` AND\n` taken off, at run time where the
/// text before does not end with it.
pub open spec fn delete_pieces(t: DeleteTable) -> Seq<Piece> {
    let m0 = base_map(t.fields@);
    let r0 = base_run(t.fields@, delete_head(t));
    let ls = info_lines(t.attr.filter@);
    let s0 = (Seq::<Piece>::empty(), delete_head(t));
    let s1 = if ls.len() > 0 { clause_from(s0, "\t("@, written(m0, arg_alone(m0, r0, ls, None), ls, None), ") AND\n"@) } else { s0 };
    let s2 = delete_fields_pieces(t, m0, clause_step(m0, r0, ls, ") AND\n"@)->Ok_0, t.fields@.len() as int, s1);
    let s3 = cut_model(s2.0, s2.1, seq![" AND\n"@], !t.any_included(None, true));
    flush(s3.0, s3.1)
}

/// A failing field fails the whole list.
pub proof fn lemma_delete_fields_err(t: DeleteTable, m: Map<Seq<char>, Param>, r: Run, i: int, n: int)
    requires
        0 <= i <= n,
        delete_fields(t, m, r, i) is Err,
    ensures
        delete_fields(t, m, r, n) == delete_fields(t, m, r, i),
    decreases n - i,
{
    if n > i {
        lemma_delete_fields_err(t, m, r, i, n - 1);
    }
}

impl DeleteTable {
    /// Writes the clause of field `i`.
    fn field_clause(&self, build: &mut Build, params: &mut Params, i: usize, Ghost(run): Ghost<Run>) -> (r: Result<(), Error>)
        requires
            i < self.fields@.len(),
            self.fields@[i as int].attr.skip is None,
            tracks(*old(build), *old(params), run, self.attr.dynamic is Some, self.attr.unchecked is None, self.any_included(None, true)),
            old(params).cells@.len() == self.fields@.len(),
        ensures
            match delete_field(*self, old(params).map(), run, i as int) {
                Err(f) => r matches Err(e) && e.fault == f.0 && e.message@ == f.1,
                Ok((m, run2)) => {
                    &&& r is Ok
                    &&& tracks(*final(build), *final(params), run2, self.attr.dynamic is Some, self.attr.unchecked is None, self.any_included(None, true))
                    &&& final(params).map() == m
                    &&& final(params).cells@.len() == self.fields@.len()
                    &&& (old(build).model() matches Some(start) ==>
                        final(build).model() == Some(delete_field_pieces(*self, old(params).map(), run, i as int, start)))
                },
            },
    {
        let field = &self.fields[i];
        let ghost start = build.model();
        let opened = build.opt_open(self.optional(field).is_some());
        let ghost inner = build.model();
        let column = self.column(field);
        let ghost m = params.map();
        let ghost pre: Seq<char>;
        let ghost post: Seq<char>;
        let ghost w: Piece;
        if field.attr.filter.len() > 0 {
            params.put("i", Value::Cell(i));
            params.put("column", Value::Text(column));
            let ghost m1 = params.map();
            build.str("\t(");
            let list = infos(&field.attr.filter);
            proof {
                pre = "\t("@;
                post = ") AND\n"@;
                w = written(m1, arg_alone(m1, run, lines(list@), None), lines(list@), None);
            }
            build.arg(params, list.as_slice(), None)?;
            build.str(") AND\n");
        } else {
            build.str("\t\"");
            build.str(column.as_str());
            build.str("\" = ");
            proof {
                pre = "\t\""@ + column@ + "\" = "@;
                post = " AND\n"@;
                w = written(m, arg_alone(m, run, Seq::empty(), Some(Param::Cell(i))), Seq::empty(), Some(Param::Cell(i)));
            }
            let v = Value::Cell(i);
            let empty: Vec<&Info<String>> = Vec::new();
            build.arg(params, empty.as_slice(), Some(&v))?;
            proof { assert(lines(empty@) =~= Seq::<Seq<char>>::empty()); }
            build.str(" AND\n");
        }
        let ghost body = build.model();
        build.opt_close(i, opened);
        proof {
            if let Some(st) = start {
                let b = clause_from(inner->Some_0, pre, w, post);
                assert(body == Some(b)) by {
                    assert((inner->Some_0.1 + "\t\""@) + column@ + "\" = "@ =~= inner->Some_0.1 + ("\t\""@ + column@ + "\" = "@));
                }
                if opened {
                    assert(inner->Some_0.1 + pre =~= pre);
                }
            }
        }
        Ok(())
    }

    /// Builds the delete query. Every field gets a bind cell named after it; the
    /// binds placed come first in `args`, the other fields follow in `rest`.
    pub fn query(&self) -> (r: Result<Done, Error>)
        ensures
            match delete_run(*self) {
                Err(f) => r matches Err(e) && e.fault == f.0 && e.message@ == f.1,
                Ok(run) => r matches Ok(d) && {
                    &&& text_of(d.query) == if self.attr.dynamic is Some { None } else { Some(run.text) }
                    &&& text_of(d.check) == if self.attr.unchecked is None { Some(run.text) } else { None }
                    &&& d.args@ == run.state
                    &&& d.rest@ == rest_of(run.cells, included(self.fields@, self.fields@.len() as int))
                    &&& d.binds@ == d.args@ + optional_among(d.rest@, optional_flags(*self))
                    &&& d.optional == !self.any_included(None, true)
                    &&& (d.steps is Some) == (self.attr.dynamic is Some)
                    &&& (d.steps matches Some(s) ==> pieces(s@) == delete_pieces(*self))
                },
            },
    {
        let dynamic = self.dynamic().is_some();
        let checked = self.checked();
        let certain = self.certain();
        let mut params = Params::default();
        let mut build = Build::new(dynamic, checked, certain);
        let fields = self.cells(&mut params);
        params.free("column");
        params.free("i");
        let ghost m0 = params.map();
        build.str("DELETE FROM ");
        build.str(self.attr.table.as_str());
        build.str(" AS \"self\"\nWHERE\n");
        let ghost r0 = base_run(self.fields@, delete_head(*self));
        proof {
            assert(Seq::<char>::empty() + "DELETE FROM "@ + self.attr.table@ + " AS \"self\"\nWHERE\n"@ =~= delete_head(*self));
        }
        assert(params.state@ =~= Seq::<usize>::empty());
        assert(tracks(build, params, r0, dynamic, checked, certain));
        let ghost s0 = (Seq::<Piece>::empty(), delete_head(*self));
        proof {
            if dynamic {
                assert(pieces(Seq::<crate::builder::Step>::empty()) =~= Seq::<Piece>::empty());
                assert(build.model() == Some(s0));
            }
        }
        let ghost mut run = r0;
        if self.attr.filter.len() > 0 {
            build.str("\t(");
            let list = infos(&self.attr.filter);
            proof { run = appended(run, "\t("@); }
            build.arg(&mut params, list.as_slice(), None)?;
            proof { run = arg_step(m0, run, lines(list@), None)->Ok_0; }
            build.str(") AND\n");
            proof { run = appended(run, ") AND\n"@); }
        }
        assert(clause_step(m0, r0, info_lines(self.attr.filter@), ") AND\n"@) == Ok::<Run, Failure>(run));
        let ghost r1 = run;
        let ghost s1 = if info_lines(self.attr.filter@).len() > 0 {
            clause_from(s0, "\t("@, written(m0, arg_alone(m0, r0, info_lines(self.attr.filter@), None), info_lines(self.attr.filter@), None), ") AND\n"@)
        } else {
            s0
        };
        assert(dynamic ==> build.model() == Some(s1));
        let mut i: usize = 0;
        while i < self.fields.len()
            invariant
                i <= self.fields@.len(),
                tracks(build, params, run, dynamic, checked, certain),
                dynamic == (self.attr.dynamic is Some),
                checked == (self.attr.unchecked is None),
                certain == self.any_included(None, true),
                params.cells@.len() == self.fields@.len(),
                clause_step(m0, r0, info_lines(self.attr.filter@), ") AND\n"@) == Ok::<Run, Failure>(r1),
                m0 == base_map(self.fields@),
                r0 == base_run(self.fields@, delete_head(*self)),
                fields@ == included(self.fields@, self.fields@.len() as int),
                delete_fields(*self, m0, r1, i as int) == Ok::<(Map<Seq<char>, Param>, Run), Failure>((params.map(), run)),
                dynamic ==> build.model() == Some(delete_fields_pieces(*self, m0, r1, i as int, s1)),
            decreases self.fields@.len() - i,
        {
            if self.fields[i].attr.skip.is_none() {
                let ghost m = params.map();
                match self.field_clause(&mut build, &mut params, i, Ghost(run)) {
                    Ok(()) => {}
                    Err(e) => {
                        proof {
                            assert(delete_fields(*self, m0, r1, i + 1) == delete_field(*self, m, run, i as int));
                            lemma_delete_fields_err(*self, m0, r1, i + 1, self.fields@.len() as int);
                        }
                        return Err(e);
                    }
                }
                proof { run = delete_field(*self, m, run, i as int)->Ok_0.1; }
            }
            i = i + 1;
        }
        let mut cuts: Vec<&str> = Vec::new();
        cuts.push(" AND\n");
        proof { assert(views(cuts@) =~= seq![" AND\n"@]); }
        let ok = build.cut(cuts.as_slice());
        if !ok {
            return Err(Error::new(call_site(), Fault::Incomplete, "incomplete query: missing delete filter".to_owned()));
        }
        let ghost fin = Run { text: match text_of(build.checking) { Some(t) => t, None => match text_of(build.string) { Some(t) => t, None => run.text } }, ..run };
        Ok(self.finish(build, params, &fields, Ghost(fin)))
    }
}

} // verus!
