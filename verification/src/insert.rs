use vstd::prelude::*;
use crate::builder::{Build, Done, Piece, flush, pieces, cut_model, text_of, views, optional_among};
use crate::error::{Error, Fault, call_site, Failure};
use crate::params::{Params, Param, Value, Run, lines};
use crate::query::{
    appended, arg_step, ensured, cell_map, base_run, optional_flags, rest_of, tracks, info_lines,
    included, infos, cut_run, written, arg_alone, clause_from, opt_clause, opt_text,
};
use crate::rules::Info;
use crate::types::InsertTable;

verus! {

/// The start of an insert query.
pub open spec fn insert_head(t: InsertTable) -> Seq<char> {
    "INSERT INTO "@ + t.attr.table@ + " AS \"self\" (\n"@
}

/// The parameters an insert query starts from: each field named after its cell,
/// with the name `i` freed.
pub open spec fn insert_map(t: InsertTable) -> Map<Seq<char>, Param> {
    ensured(cell_map(t.fields@, t.fields@.len() as int), "i"@)
}

/// The column list of the first `n` fields, one line each; skipped fields add nothing.
pub open spec fn insert_columns(t: InsertTable, r: Run, n: int) -> Run
    decreases n,
{
    if n <= 0 {
        r
    } else {
        let r1 = insert_columns(t, r, n - 1);
        if t.fields@[n - 1].attr.skip is Some {
            r1
        } else {
            appended(appended(appended(r1, "\t\""@), t.spec_declaration(t.fields@[n - 1]).0), "\",\n"@)
        }
    }
}

/// What field `f` adds to the values of an insert query: its `insert` lines, with
/// `$i` its bind; without them, its bind.
pub open spec fn insert_field(t: InsertTable, m: Map<Seq<char>, Param>, r: Run, f: int) -> Result<(Map<Seq<char>, Param>, Run), Failure> {
    let ls = info_lines(t.fields@[f].attr.insert@);
    if ls.len() > 0 {
        let m1 = m.insert("i"@, Param::Cell(f as usize));
        match arg_step(m1, appended(r, "\t"@), ls, None) {
            Ok(r1) => Ok((m1, appended(r1, ",\n"@))),
            Err(e) => Err(e),
        }
    } else {
        match arg_step(m, appended(r, "\t"@), Seq::empty(), Some(Param::Cell(f as usize))) {
            Ok(r1) => Ok((m, appended(r1, ",\n"@))),
            Err(e) => Err(e),
        }
    }
}

/// What the first `n` fields add to the values of an insert query.
pub open spec fn insert_fields(t: InsertTable, m: Map<Seq<char>, Param>, r: Run, n: int) -> Result<(Map<Seq<char>, Param>, Run), Failure>
    decreases n,
{
    if n <= 0 {
        Ok((m, r))
    } else {
        match insert_fields(t, m, r, n - 1) {
            Err(e) => Err(e),
            Ok((m1, r1)) => if t.fields@[n - 1].attr.skip is Some { Ok((m1, r1)) } else { insert_field(t, m1, r1, n - 1) },
        }
    }
}

/// The insert query: the head, the column list less its last `,\n`, the values
/// less their last `,\n`, and the closing parenthesis. Where nothing can be taken
/// off, the query is incomplete (unless built at run time and not checked).
pub open spec fn insert_run(t: InsertTable) -> Result<Run, Failure> {
    let loose = t.attr.dynamic is Some && t.attr.unchecked is Some;
    let ra = insert_columns(t, base_run(t.fields@, insert_head(t)), t.fields@.len() as int);
    match cut_run(loose, ra, seq![",\n"@]) {
        None => Err((Fault::Incomplete, "incomplete query: missing insert column"@)),
        Some(rb) => match insert_fields(t, insert_map(t), appended(rb, "\n) VALUES (\n"@), t.fields@.len() as int) {
            Err(e) => Err(e),
            Ok((_, rc)) => match cut_run(loose, rc, seq![",\n"@]) {
                None => Err((Fault::Incomplete, "incomplete query: missing insert bind"@)),
                Some(rd) => Ok(appended(rd, "\n)"@)),
            },
        },
    }
}

/// The column lines of the first `n` fields in a dynamic insert query; an
/// optional field's line stands apart in a `Present` piece.
pub open spec fn insert_columns_pieces(t: InsertTable, n: int, start: (Seq<Piece>, Seq<char>)) -> (Seq<Piece>, Seq<char>)
    decreases n,
{
    if n <= 0 {
        start
    } else {
        let prev = insert_columns_pieces(t, n - 1, start);
        let field = t.fields@[n - 1];
        if field.attr.skip is Some {
            prev
        } else {
            opt_text(prev, t.spec_optional(field) is Some, (n - 1) as usize, "\t\""@ + t.spec_declaration(field).0 + "\",\n"@)
        }
    }
}

/// What field `f` adds to the values of a dynamic insert query.
pub open spec fn insert_field_pieces(t: InsertTable, m: Map<Seq<char>, Param>, r: Run, f: int, start: (Seq<Piece>, Seq<char>)) -> (Seq<Piece>, Seq<char>) {
    let field = t.fields@[f];
    let ls = info_lines(field.attr.insert@);
    let optional = t.spec_optional(field) is Some;
    if ls.len() > 0 {
        let m1 = m.insert("i"@, Param::Cell(f as usize));
        opt_clause(start, optional, f as usize, "\t"@, written(m1, arg_alone(m1, r, ls, None), ls, None), ",\n"@)
    } else {
        let cell = Some(Param::Cell(f as usize));
        opt_clause(start, optional, f as usize, "\t"@, written(m, arg_alone(m, r, Seq::empty(), cell), Seq::empty(), cell), ",\n"@)
    }
}

/// What the first `n` fields add to the values of a dynamic insert query.
pub open spec fn insert_fields_pieces(t: InsertTable, m: Map<Seq<char>, Param>, r: Run, n: int, start: (Seq<Piece>, Seq<char>)) -> (Seq<Piece>, Seq<char>)
    decreases n,
{
    if n <= 0 {
        start
    } else {
        let prev = insert_fields_pieces(t, m, r, n - 1, start);
        if t.fields@[n - 1].attr.skip is Some {
            prev
        } else {
            match insert_fields(t, m, r, n - 1) {
                Ok((m1, r1)) => insert_field_pieces(t, m1, r1, n - 1, prev),
                Err(_) => prev,
            }
        }
    }
}

/// The pieces of a dynamic insert query: the head, the column lines (an optional
/// field's in a `Present` piece) less the last `,\n`, the values as `Write`
/// pieces less the last `,\n`, and the closing parenthesis; a suffix the text
/// before does not end with is taken off at run time.
pub open spec fn insert_pieces(t: InsertTable) -> Seq<Piece> {
    let optional = !t.any_included(None, true);
    let loose = t.attr.dynamic is Some && t.attr.unchecked is Some;
    let ra = insert_columns(t, base_run(t.fields@, insert_head(t)), t.fields@.len() as int);
    let r1 = appended(cut_run(loose, ra, seq![",\n"@])->Some_0, "\n) VALUES (\n"@);
    let sa = insert_columns_pieces(t, t.fields@.len() as int, (Seq::<Piece>::empty(), insert_head(t)));
    let sb = cut_model(sa.0, sa.1, seq![",\n"@], optional);
    let sc = insert_fields_pieces(t, insert_map(t), r1, t.fields@.len() as int, (sb.0, sb.1 + "\n) VALUES (\n"@));
    let sd = cut_model(sc.0, sc.1, seq![",\n"@], optional);
    flush(sd.0, sd.1 + "\n)"@)
}

/// A failing field fails the whole list.
pub proof fn lemma_insert_fields_err(t: InsertTable, m: Map<Seq<char>, Param>, r: Run, i: int, n: int)
    requires
        0 <= i <= n,
        insert_fields(t, m, r, i) is Err,
    ensures
        insert_fields(t, m, r, n) == insert_fields(t, m, r, i),
    decreases n - i,
{
    if n > i {
        lemma_insert_fields_err(t, m, r, i, n - 1);
    }
}

impl InsertTable {
    /// Writes the column of field `i`.
    fn column_line(&self, build: &mut Build, params: &Params, i: usize, Ghost(run): Ghost<Run>)
        requires
            i < self.fields@.len(),
            self.fields@[i as int].attr.skip is None,
            tracks(*old(build), *params, run, self.attr.dynamic is Some, self.attr.unchecked is None, self.any_included(None, true)),
        ensures
            tracks(*final(build), *params,
                appended(appended(appended(run, "\t\""@), self.spec_declaration(self.fields@[i as int]).0), "\",\n"@),
                self.attr.dynamic is Some, self.attr.unchecked is None, self.any_included(None, true)),
            old(build).model() matches Some(start) ==> final(build).model() == Some(opt_text(start,
                self.spec_optional(self.fields@[i as int]) is Some, i, "\t\""@ + self.spec_declaration(self.fields@[i as int]).0 + "\",\n"@)),
    {
        let field = &self.fields[i];
        let ghost start = build.model();
        let opened = build.opt_open(self.optional(field).is_some());
        let ghost inner = build.model();
        let column = self.column(field);
        build.str("\t\"");
        build.str(column.as_str());
        build.str("\",\n");
        let ghost body = build.model();
        build.opt_close(i, opened);
        proof {
            if let Some(st) = start {
                let text = "\t\""@ + column@ + "\",\n"@;
                assert(body == Some((inner->Some_0.0, inner->Some_0.1 + text))) by {
                    assert(((inner->Some_0.1 + "\t\""@) + column@) + "\",\n"@ =~= inner->Some_0.1 + text);
                }
                if opened {
                    assert(inner->Some_0.1 + text =~= text);
                }
            }
        }
    }

    /// Writes the value of field `i`.
    fn value_line(&self, build: &mut Build, params: &mut Params, i: usize, Ghost(run): Ghost<Run>) -> (r: Result<(), Error>)
        requires
            i < self.fields@.len(),
            self.fields@[i as int].attr.skip is None,
            tracks(*old(build), *old(params), run, self.attr.dynamic is Some, self.attr.unchecked is None, self.any_included(None, true)),
            old(params).cells@.len() == self.fields@.len(),
        ensures
            match insert_field(*self, old(params).map(), run, i as int) {
                Err(f) => r matches Err(e) && e.fault == f.0 && e.message@ == f.1,
                Ok((m, run2)) => {
                    &&& r is Ok
                    &&& tracks(*final(build), *final(params), run2, self.attr.dynamic is Some, self.attr.unchecked is None, self.any_included(None, true))
                    &&& final(params).map() == m
                    &&& final(params).cells@.len() == self.fields@.len()
                    &&& (old(build).model() matches Some(start) ==>
                        final(build).model() == Some(insert_field_pieces(*self, old(params).map(), run, i as int, start)))
                },
            },
    {
        let field = &self.fields[i];
        let ghost start = build.model();
        let opened = build.opt_open(self.optional(field).is_some());
        let ghost inner = build.model();
        let ghost m = params.map();
        let ghost w: Piece;
        if field.attr.insert.len() > 0 {
            params.put("i", Value::Cell(i));
            let ghost m1 = params.map();
            build.str("\t");
            let list = infos(&field.attr.insert);
            proof { w = written(m1, arg_alone(m1, run, lines(list@), None), lines(list@), None); }
            build.arg(params, list.as_slice(), None)?;
            build.str(",\n");
        } else {
            build.str("\t");
            proof { w = written(m, arg_alone(m, run, Seq::empty(), Some(Param::Cell(i))), Seq::empty(), Some(Param::Cell(i))); }
            let v = Value::Cell(i);
            let empty: Vec<&Info<String>> = Vec::new();
            build.arg(params, empty.as_slice(), Some(&v))?;
            proof { assert(lines(empty@) =~= Seq::<Seq<char>>::empty()); }
            build.str(",\n");
        }
        let ghost body = build.model();
        build.opt_close(i, opened);
        proof {
            if let Some(st) = start {
                assert(body == Some(clause_from(inner->Some_0, "\t"@, w, ",\n"@)));
                if opened {
                    assert(inner->Some_0.1 + "\t"@ =~= "\t"@);
                }
            }
        }
        Ok(())
    }

    /// Builds the insert query. Every field gets a bind cell named after it; the
    /// binds placed come first in `args`, the other fields follow in `rest`.
    pub fn query(&self) -> (r: Result<Done, Error>)
        ensures
            match insert_run(*self) {
                Err(f) => r matches Err(e) && e.fault == f.0 && e.message@ == f.1,
                Ok(run) => r matches Ok(d) && {
                    &&& text_of(d.query) == if self.attr.dynamic is Some { None } else { Some(run.text) }
                    &&& text_of(d.check) == if self.attr.unchecked is None { Some(run.text) } else { None }
                    &&& d.args@ == run.state
                    &&& d.rest@ == rest_of(run.cells, included(self.fields@, self.fields@.len() as int))
                    &&& d.binds@ == d.args@ + optional_among(d.rest@, optional_flags(*self))
                    &&& d.optional == !self.any_included(None, true)
                    &&& (d.steps is Some) == (self.attr.dynamic is Some)
                    &&& (d.steps matches Some(s) ==> pieces(s@) == insert_pieces(*self))
                },
            },
    {
        let dynamic = self.dynamic().is_some();
        let checked = self.checked();
        let certain = self.certain();
        let mut params = Params::default();
        let mut build = Build::new(dynamic, checked, certain);
        let fields = self.cells(&mut params);
        params.free("i");
        let ghost m0 = params.map();
        build.str("INSERT INTO ");
        build.str(self.attr.table.as_str());
        build.str(" AS \"self\" (\n");
        let ghost r0 = base_run(self.fields@, insert_head(*self));
        proof {
            assert(Seq::<char>::empty() + "INSERT INTO "@ + self.attr.table@ + " AS \"self\" (\n"@ =~= insert_head(*self));
        }
        assert(params.state@ =~= Seq::<usize>::empty());
        assert(tracks(build, params, r0, dynamic, checked, certain));
        let ghost s0 = (Seq::<Piece>::empty(), insert_head(*self));
        proof {
            if dynamic {
                assert(pieces(Seq::<crate::builder::Step>::empty()) =~= Seq::<Piece>::empty());
                assert(build.model() == Some(s0));
            }
        }
        let ghost mut run = r0;
        let mut i: usize = 0;
        while i < self.fields.len()
            invariant
                i <= self.fields@.len(),
                tracks(build, params, run, dynamic, checked, certain),
                dynamic == (self.attr.dynamic is Some),
                checked == (self.attr.unchecked is None),
                certain == self.any_included(None, true),
                params.cells@.len() == self.fields@.len(),
                params.map() == m0,
                m0 == insert_map(*self),
                fields@ == included(self.fields@, self.fields@.len() as int),
                run == insert_columns(*self, r0, i as int),
                dynamic ==> build.model() == Some(insert_columns_pieces(*self, i as int, s0)),
            decreases self.fields@.len() - i,
        {
            if self.fields[i].attr.skip.is_none() {
                self.column_line(&mut build, &params, i, Ghost(run));
            }
            proof { run = insert_columns(*self, r0, i + 1); }
            i = i + 1;
        }
        let mut cuts: Vec<&str> = Vec::new();
        cuts.push(",\n");
        proof { assert(views(cuts@) =~= seq![",\n"@]); }
        if !build.cut_tracked(cuts.as_slice(), &params, Ghost(run), dynamic, checked, certain) {
            return Err(Error::new(call_site(), Fault::Incomplete, "incomplete query: missing insert column".to_owned()));
        }
        let ghost ra = run;
        proof { run = cut_run(dynamic && !checked, run, seq![",\n"@])->Some_0; }
        build.str("\n) VALUES (\n");
        proof { run = appended(run, "\n) VALUES (\n"@); }
        let ghost r1 = run;
        let ghost sa = insert_columns_pieces(*self, self.fields@.len() as int, s0);
        let ghost sb = cut_model(sa.0, sa.1, seq![",\n"@], !certain);
        let ghost s1 = (sb.0, sb.1 + "\n) VALUES (\n"@);
        assert(dynamic ==> build.model() == Some(s1));
        let mut i: usize = 0;
        while i < self.fields.len()
            invariant
                i <= self.fields@.len(),
                tracks(build, params, run, dynamic, checked, certain),
                dynamic == (self.attr.dynamic is Some),
                checked == (self.attr.unchecked is None),
                certain == self.any_included(None, true),
                params.cells@.len() == self.fields@.len(),
                m0 == insert_map(*self),
                fields@ == included(self.fields@, self.fields@.len() as int),
                ra == insert_columns(*self, base_run(self.fields@, insert_head(*self)), self.fields@.len() as int),
                cut_run(dynamic && !checked, ra, seq![",\n"@]) matches Some(rb) && r1 == appended(rb, "\n) VALUES (\n"@),
                insert_fields(*self, m0, r1, i as int) == Ok::<(Map<Seq<char>, Param>, Run), Failure>((params.map(), run)),
                dynamic ==> build.model() == Some(insert_fields_pieces(*self, m0, r1, i as int, s1)),
            decreases self.fields@.len() - i,
        {
            if self.fields[i].attr.skip.is_none() {
                let ghost m = params.map();
                match self.value_line(&mut build, &mut params, i, Ghost(run)) {
                    Ok(()) => {}
                    Err(e) => {
                        proof {
                            assert(insert_fields(*self, m0, r1, i + 1) == insert_field(*self, m, run, i as int));
                            lemma_insert_fields_err(*self, m0, r1, i + 1, self.fields@.len() as int);
                        }
                        return Err(e);
                    }
                }
                proof { run = insert_field(*self, m, run, i as int)->Ok_0.1; }
            }
            i = i + 1;
        }
        if !build.cut_tracked(cuts.as_slice(), &params, Ghost(run), dynamic, checked, certain) {
            return Err(Error::new(call_site(), Fault::Incomplete, "incomplete query: missing insert bind".to_owned()));
        }
        proof { run = cut_run(dynamic && !checked, run, seq![",\n"@])->Some_0; }
        build.str("\n)");
        proof { run = appended(run, "\n)"@); }
        Ok(self.finish(build, params, &fields, Ghost(run)))
    }
}

} // verus!
