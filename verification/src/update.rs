use vstd::prelude::*;
use crate::builder::{Build, Done, Piece, flush, pieces, cut_model, text_of, views, optional_among};
use crate::error::{Error, Fault, call_site, Failure};
use crate::params::{Params, Param, Value, Run, lines};
use crate::query::{
    appended, arg_step, clause_step, base_map, base_run, optional_flags, rest_of, tracks, info_lines,
    included, infos, cut_run, displaced_map, written, arg_alone, clause_from, opt_clause,
};
use crate::rules::Info;
use crate::select::{Returns, Target};
use crate::types::{UpdateTable, ForUpdate};

verus! {

/// The start of an update query.
pub open spec fn update_head(t: UpdateTable) -> Seq<char> {
    "UPDATE "@ + t.attr.table@ + " AS \"self\"\nSET\n"@
}

/// What value field `f` adds to the `SET` list: its `update` lines, with `$i` its
/// bind and `$column` its column; without them, its column set to its bind.
pub open spec fn update_value(t: UpdateTable, m: Map<Seq<char>, Param>, r: Run, f: int) -> Result<(Map<Seq<char>, Param>, Run), Failure> {
    let column = t.spec_declaration(t.fields@[f]).0;
    let ls = info_lines(t.fields@[f].attr.update@);
    if ls.len() > 0 {
        let m1 = m.insert("i"@, Param::Cell(f as usize)).insert("column"@, Param::Text(column));
        match arg_step(m1, appended(r, "\t"@), ls, None) {
            Ok(r1) => Ok((m1, appended(r1, ",\n"@))),
            Err(e) => Err(e),
        }
    } else {
        match arg_step(m, appended(appended(appended(r, "\t\""@), column), "\" = "@), Seq::empty(), Some(Param::Cell(f as usize))) {
            Ok(r1) => Ok((m, appended(r1, ",\n"@))),
            Err(e) => Err(e),
        }
    }
}

/// What key field `f` adds to the `WHERE` clause: its `filter` lines, with `$i` its
/// bind and `$column` its column; without them, its column compared with its bind.
pub open spec fn update_key(t: UpdateTable, m: Map<Seq<char>, Param>, r: Run, f: int) -> Result<(Map<Seq<char>, Param>, Run), Failure> {
    let column = t.spec_declaration(t.fields@[f]).0;
    let ls = info_lines(t.fields@[f].attr.filter@);
    if ls.len() > 0 {
        let m1 = m.insert("i"@, Param::Cell(f as usize)).insert("column"@, Param::Text(column));
        match arg_step(m1, appended(r, "\t("@), ls, None) {
            Ok(r1) => Ok((m1, appended(r1, ") AND\n"@))),
            Err(e) => Err(e),
        }
    } else {
        match arg_step(m, appended(appended(appended(r, "\t\""@), column), "\" = "@), Seq::empty(), Some(Param::Cell(f as usize))) {
            Ok(r1) => Ok((m, appended(r1, " AND\n"@))),
            Err(e) => Err(e),
        }
    }
}

/// What the first `n` fields add: the keys (`keys`) or the values, skipped fields
/// adding nothing.
pub open spec fn update_fields(t: UpdateTable, keys: bool, m: Map<Seq<char>, Param>, r: Run, n: int) -> Result<(Map<Seq<char>, Param>, Run), Failure>
    decreases n,
{
    if n <= 0 {
        Ok((m, r))
    } else {
        match update_fields(t, keys, m, r, n - 1) {
            Err(e) => Err(e),
            Ok((m1, r1)) => {
                let a = t.fields@[n - 1].attr;
                if a.skip is Some || (a.key is Some) != keys {
                    Ok((m1, r1))
                } else if keys {
                    update_key(t, m1, r1, n - 1)
                } else {
                    update_value(t, m1, r1, n - 1)
                }
            },
        }
    }
}

/// What field `f` adds to a dynamic update query: its key or value clause, with
/// the argument as a `Write` piece.
pub open spec fn update_field_pieces(t: UpdateTable, keys: bool, m: Map<Seq<char>, Param>, r: Run, f: int, start: (Seq<Piece>, Seq<char>)) -> (Seq<Piece>, Seq<char>) {
    let field = t.fields@[f];
    let column = t.spec_declaration(field).0;
    let ls = if keys { info_lines(field.attr.filter@) } else { info_lines(field.attr.update@) };
    let optional = t.spec_optional(field) is Some;
    if ls.len() > 0 {
        let m1 = m.insert("i"@, Param::Cell(f as usize)).insert("column"@, Param::Text(column));
        let w = written(m1, arg_alone(m1, r, ls, None), ls, None);
        if keys {
            opt_clause(start, optional, f as usize, "\t("@, w, ") AND\n"@)
        } else {
            opt_clause(start, optional, f as usize, "\t"@, w, ",\n"@)
        }
    } else {
        let cell = Some(Param::Cell(f as usize));
        let w = written(m, arg_alone(m, r, Seq::empty(), cell), Seq::empty(), cell);
        opt_clause(start, optional, f as usize, "\t\""@ + column + "\" = "@, w, if keys { " AND\n"@ } else { ",\n"@ })
    }
}

/// What the first `n` fields add to a dynamic update query: the keys (`keys`) or
/// the values.
pub open spec fn update_fields_pieces(t: UpdateTable, keys: bool, m: Map<Seq<char>, Param>, r: Run, n: int, start: (Seq<Piece>, Seq<char>)) -> (Seq<Piece>, Seq<char>)
    decreases n,
{
    if n <= 0 {
        start
    } else {
        let prev = update_fields_pieces(t, keys, m, r, n - 1, start);
        let a = t.fields@[n - 1].attr;
        if a.skip is Some || (a.key is Some) != keys {
            prev
        } else {
            match update_fields(t, keys, m, r, n - 1) {
                Ok((m1, r1)) => update_field_pieces(t, keys, m1, r1, n - 1, prev),
                Err(_) => prev,
            }
        }
    }
}

/// The pieces of the filters after `WHERE` in a dynamic update query.
pub open spec fn where_pieces(t: UpdateTable, m: Map<Seq<char>, Param>, r: Run, start: (Seq<Piece>, Seq<char>)) -> (Seq<Piece>, Seq<char>) {
    let m2 = displaced_map(m, "table"@, Param::Text("self"@));
    let ls = info_lines(t.attr.filter@);
    let s1 = if ls.len() > 0 { clause_from(start, "\t("@, written(m2, arg_alone(m2, r, ls, None), ls, None), ") AND\n"@) } else { start };
    let s2 = update_fields_pieces(t, true, m2, clause_step(m2, r, ls, ") AND\n"@)->Ok_0, t.fields@.len() as int, s1);
    cut_model(s2.0, s2.1, seq![" AND\n"@, "\nWHERE\n"@], !t.spec_certain())
}

/// The pieces of a dynamic update query: the head, the value clauses (an
/// optional field's in a `Present` piece) less the last `,\n`, `WHERE` and the
/// filters, and the `RETURNING` clause `ret`; a suffix the text before does not
/// end with is taken off at run time.
pub open spec fn update_pieces(t: UpdateTable, ret: Seq<char>) -> Seq<Piece> {
    let loose = t.attr.dynamic is Some && t.attr.unchecked is Some;
    let m0 = base_map(t.fields@);
    let r0 = base_run(t.fields@, update_head(t));
    let sa = update_fields_pieces(t, false, m0, r0, t.fields@.len() as int, (Seq::<Piece>::empty(), update_head(t)));
    let (m1, ra) = update_fields(t, false, m0, r0, t.fields@.len() as int)->Ok_0;
    let sb = cut_model(sa.0, sa.1, seq![",\n"@], !t.spec_certain());
    let rb = cut_run(loose, ra, seq![",\n"@])->Some_0;
    let sc = where_pieces(t, m1, appended(rb, "\nWHERE\n"@), (sb.0, sb.1 + "\nWHERE\n"@));
    flush(sc.0, sc.1 + ret)
}

/// A failing field fails the whole list.
pub proof fn lemma_update_fields_err(t: UpdateTable, keys: bool, m: Map<Seq<char>, Param>, r: Run, i: int, n: int)
    requires
        0 <= i <= n,
        update_fields(t, keys, m, r, i) is Err,
    ensures
        update_fields(t, keys, m, r, n) == update_fields(t, keys, m, r, i),
    decreases n - i,
{
    if n > i {
        lemma_update_fields_err(t, keys, m, r, i, n - 1);
    }
}

/// The filters after `WHERE`, from the parameters `m` and the run `r`.
pub open spec fn where_run(t: UpdateTable, m: Map<Seq<char>, Param>, r: Run) -> Result<Run, Failure> {
    let loose = t.attr.dynamic is Some && t.attr.unchecked is Some;
    let m2 = displaced_map(m, "table"@, Param::Text("self"@));
    match clause_step(m2, r, info_lines(t.attr.filter@), ") AND\n"@) {
        Err(e) => Err(e),
        Ok(rc) => match update_fields(t, true, m2, rc, t.fields@.len() as int) {
            Err(e) => Err(e),
            Ok((_, rd)) => match cut_run(loose, rd, seq![" AND\n"@, "\nWHERE\n"@]) {
                None => Err((Fault::Incomplete, "incomplete query: missing update filter"@)),
                Some(re) => Ok(re),
            },
        },
    }
}

/// The update query up to its `RETURNING` clause: the `SET` list less its last
/// `,\n`; then `WHERE`, where `$table` names the updated row `self`, the struct's
/// `filter` clause and the key clauses, less the last ` AND\n` (or the `WHERE`
/// itself where nothing follows it).
pub open spec fn update_run(t: UpdateTable) -> Result<Run, Failure> {
    let loose = t.attr.dynamic is Some && t.attr.unchecked is Some;
    match update_fields(t, false, base_map(t.fields@), base_run(t.fields@, update_head(t)), t.fields@.len() as int) {
        Err(e) => Err(e),
        Ok((m1, ra)) => match cut_run(loose, ra, seq![",\n"@]) {
            None => Err((Fault::Incomplete, "incomplete query: missing update column"@)),
            Some(rb) => where_run(t, m1, appended(rb, "\nWHERE\n"@)),
        },
    }
}

/// The update query with the `RETURNING` clause as the check macro reads it (only
/// where the query is checked) and as the generated function does.
pub open spec fn update_query(t: UpdateTable, ret: Returns<ForUpdate>) -> Result<(Run, Seq<char>, Seq<char>), Failure> {
    match update_run(t) {
        Err(e) => Err(e),
        Ok(r) => {
            let mac = if t.attr.unchecked is None { ret.spec_returned(Target::Macro) } else { Ok(Seq::empty()) };
            match mac {
                Err(e) => Err(e),
                Ok(mt) => match ret.spec_returned(Target::Function) {
                    Err(e) => Err(e),
                    Ok(ft) => Ok((r, mt, ft)),
                },
            }
        },
    }
}

impl UpdateTable {
    /// Writes the clause of field `i`: a key (`keys`) or a value.
    fn field_clause(&self, keys: bool, build: &mut Build, params: &mut Params, i: usize, Ghost(run): Ghost<Run>) -> (r: Result<(), Error>)
        requires
            i < self.fields@.len(),
            self.fields@[i as int].attr.skip is None,
            (self.fields@[i as int].attr.key is Some) == keys,
            tracks(*old(build), *old(params), run, self.attr.dynamic is Some, self.attr.unchecked is None, self.spec_certain()),
            old(params).cells@.len() == self.fields@.len(),
        ensures
            match (if keys { update_key(*self, old(params).map(), run, i as int) } else { update_value(*self, old(params).map(), run, i as int) }) {
                Err(f) => r matches Err(e) && e.fault == f.0 && e.message@ == f.1,
                Ok((m, run2)) => {
                    &&& r is Ok
                    &&& tracks(*final(build), *final(params), run2, self.attr.dynamic is Some, self.attr.unchecked is None, self.spec_certain())
                    &&& final(params).map() == m
                    &&& final(params).cells@.len() == self.fields@.len()
                    &&& (old(build).model() matches Some(start) ==>
                        final(build).model() == Some(update_field_pieces(*self, keys, old(params).map(), run, i as int, start)))
                },
            },
    {
        let field = &self.fields[i];
        let ghost start = build.model();
        let opened = build.opt_open(self.optional(field).is_some());
        let ghost inner = build.model();
        let column = self.column(field);
        let ghost m = params.map();
        let ghost pre: Seq<char>;
        let ghost post: Seq<char>;
        let ghost w: Piece;
        let list = if keys { infos(&field.attr.filter) } else { infos(&field.attr.update) };
        if list.len() > 0 {
            params.put("i", Value::Cell(i));
            params.put("column", Value::Text(column));
            let ghost m1 = params.map();
            if keys { build.str("\t("); } else { build.str("\t"); }
            proof {
                pre = if keys { "\t("@ } else { "\t"@ };
                post = if keys { ") AND\n"@ } else { ",\n"@ };
                w = written(m1, arg_alone(m1, run, lines(list@), None), lines(list@), None);
            }
            build.arg(params, list.as_slice(), None)?;
            if keys { build.str(") AND\n"); } else { build.str(",\n"); }
        } else {
            build.str("\t\"");
            build.str(column.as_str());
            build.str("\" = ");
            proof {
                pre = "\t\""@ + column@ + "\" = "@;
                post = if keys { " AND\n"@ } else { ",\n"@ };
                w = written(m, arg_alone(m, run, Seq::empty(), Some(Param::Cell(i))), Seq::empty(), Some(Param::Cell(i)));
            }
            let v = Value::Cell(i);
            let empty: Vec<&Info<String>> = Vec::new();
            build.arg(params, empty.as_slice(), Some(&v))?;
            proof { assert(lines(empty@) =~= Seq::<Seq<char>>::empty()); }
            if keys { build.str(" AND\n"); } else { build.str(",\n"); }
        }
        let ghost body = build.model();
        build.opt_close(i, opened);
        proof {
            if let Some(st) = start {
                assert(body == Some(clause_from(inner->Some_0, pre, w, post))) by {
                    assert((inner->Some_0.1 + "\t\""@) + column@ + "\" = "@ =~= inner->Some_0.1 + ("\t\""@ + column@ + "\" = "@));
                }
                if opened {
                    assert(inner->Some_0.1 + pre =~= pre);
                }
            }
        }
        Ok(())
    }

    /// Whether the update query is complete whatever optional fields are absent.
    pub open spec fn spec_certain(&self) -> bool {
        self.any_included(Some(false), true) && self.any_included(Some(true), true)
    }

    /// Writes the clauses of the keys (`keys`) or of the values.
    fn field_clauses(&self, keys: bool, build: &mut Build, params: &mut Params, Ghost(run): Ghost<Run>) -> (r: Result<Ghost<Run>, Error>)
        requires
            tracks(*old(build), *old(params), run, self.attr.dynamic is Some, self.attr.unchecked is None, self.spec_certain()),
            old(params).cells@.len() == self.fields@.len(),
        ensures
            match update_fields(*self, keys, old(params).map(), run, self.fields@.len() as int) {
                Err(f) => r matches Err(e) && e.fault == f.0 && e.message@ == f.1,
                Ok((m, run2)) => {
                    &&& r matches Ok(g) && g@ == run2
                    &&& tracks(*final(build), *final(params), run2, self.attr.dynamic is Some, self.attr.unchecked is None, self.spec_certain())
                    &&& final(params).map() == m
                    &&& final(params).cells@.len() == self.fields@.len()
                    &&& (old(build).model() matches Some(start) ==>
                        final(build).model() == Some(update_fields_pieces(*self, keys, old(params).map(), run, self.fields@.len() as int, start)))
                },
            },
    {
        let ghost start = build.model();
        let ghost m0 = params.map();
        let ghost r0 = run;
        let ghost mut cur = run;
        let mut i: usize = 0;
        while i < self.fields.len()
            invariant
                i <= self.fields@.len(),
                tracks(*build, *params, cur, self.attr.dynamic is Some, self.attr.unchecked is None, self.spec_certain()),
                params.cells@.len() == self.fields@.len(),
                update_fields(*self, keys, m0, r0, i as int) == Ok::<(Map<Seq<char>, Param>, Run), Failure>((params.map(), cur)),
                m0 == old(params).map(),
                r0 == run,
                start == old(build).model(),
                start matches Some(st) ==> build.model() == Some(update_fields_pieces(*self, keys, m0, r0, i as int, st)),
            decreases self.fields@.len() - i,
        {
            let a = &self.fields[i].attr;
            if a.skip.is_none() && a.key.is_some() == keys {
                let ghost m = params.map();
                match self.field_clause(keys, build, params, i, Ghost(cur)) {
                    Ok(()) => {}
                    Err(e) => {
                        proof {
                            assert(update_fields(*self, keys, m0, r0, i + 1) == (if keys { update_key(*self, m, cur, i as int) } else { update_value(*self, m, cur, i as int) }));
                            lemma_update_fields_err(*self, keys, m0, r0, i + 1, self.fields@.len() as int);
                        }
                        return Err(e);
                    }
                }
                proof {
                    cur = (if keys { update_key(*self, m, cur, i as int) } else { update_value(*self, m, cur, i as int) })->Ok_0.1;
                }
            }
            i = i + 1;
        }
        Ok(Ghost(cur))
    }

    /// Writes the filters after `WHERE`: `$table` names the updated row `self`; then
    /// the struct's `filter` clause and the key clauses, less the last ` AND\n`.
    #[verifier::rlimit(30)]
    fn where_clause(&self, build: &mut Build, params: &mut Params, Ghost(run): Ghost<Run>) -> (r: Result<Ghost<Run>, Error>)
        requires
            tracks(*old(build), *old(params), run, self.attr.dynamic is Some, self.attr.unchecked is None, self.spec_certain()),
            old(params).cells@.len() == self.fields@.len(),
        ensures
            match where_run(*self, old(params).map(), run) {
                Err(f) => r matches Err(e) && e.fault == f.0 && e.message@ == f.1,
                Ok(run2) => {
                    &&& r matches Ok(g) && g@ == run2
                    &&& tracks(*final(build), *final(params), run2, self.attr.dynamic is Some, self.attr.unchecked is None, self.spec_certain())
                    &&& final(params).cells@.len() == self.fields@.len()
                    &&& (old(build).model() matches Some(start) ==>
                        final(build).model() == Some(where_pieces(*self, old(params).map(), run, start)))
                },
            },
    {
        let ghost start = build.model();
        let dynamic = self.dynamic().is_some();
        let checked = self.checked();
        let certain = self.certain();
        let ghost mut run = run;
        params.set("table", Value::Text("self".to_owned()));
        let ghost m2 = params.map();
        let ghost rc0 = run;
        if self.attr.filter.len() > 0 {
            build.str("\t(");
            let list = infos(&self.attr.filter);
            proof { run = appended(run, "\t("@); }
            build.arg(params, list.as_slice(), None)?;
            proof { run = arg_step(m2, run, lines(list@), None)->Ok_0; }
            build.str(") AND\n");
            proof { run = appended(run, ") AND\n"@); }
        }
        assert(clause_step(m2, rc0, info_lines(self.attr.filter@), ") AND\n"@) == Ok::<Run, Failure>(run));
        let Ghost(run2) = self.field_clauses(true, build, params, Ghost(run))?;
        let mut cuts: Vec<&str> = Vec::new();
        cuts.push(" AND\n");
        cuts.push("\nWHERE\n");
        proof { assert(views(cuts@) =~= seq![" AND\n"@, "\nWHERE\n"@]); }
        if !build.cut_tracked(cuts.as_slice(), params, Ghost(run2), dynamic, checked, certain) {
            return Err(Error::new(call_site(), Fault::Incomplete, "incomplete query: missing update filter".to_owned()));
        }
        Ok(Ghost(cut_run(dynamic && !checked, run2, seq![" AND\n"@, "\nWHERE\n"@])->Some_0))
    }

    /// Builds the update query with its `RETURNING` clause. Every field gets a bind
    /// cell named after it; the binds placed come first in `args`, the other fields
    /// follow in `rest`.
    #[verifier::rlimit(40)]
    pub fn query(&self, ret: &Returns<ForUpdate>) -> (r: Result<Done, Error>)
        requires
            ret.valid(),
        ensures
            match update_query(*self, *ret) {
                Err(f) => r matches Err(e) && e.fault == f.0 && e.message@ == f.1,
                Ok((run, mac, fun)) => r matches Ok(d) && {
                    &&& text_of(d.query) == if self.attr.dynamic is Some { None } else { Some(run.text + fun) }
                    &&& text_of(d.check) == if self.attr.unchecked is None { Some(run.text + mac) } else { None }
                    &&& d.args@ == run.state
                    &&& d.rest@ == rest_of(run.cells, included(self.fields@, self.fields@.len() as int))
                    &&& d.binds@ == d.args@ + optional_among(d.rest@, optional_flags(*self))
                    &&& d.optional == !self.spec_certain()
                    &&& (d.steps is Some) == (self.attr.dynamic is Some)
                    &&& (d.steps matches Some(s) ==> pieces(s@) == update_pieces(*self, fun))
                },
            },
    {
        let dynamic = self.dynamic().is_some();
        let checked = self.checked();
        let certain = self.certain();
        let mut params = Params::default();
        let mut build = Build::new(dynamic, checked, certain);
        let fields = self.cells(&mut params);
        params.free("column");
        params.free("i");
        build.str("UPDATE ");
        build.str(self.attr.table.as_str());
        build.str(" AS \"self\"\nSET\n");
        let ghost r0 = base_run(self.fields@, update_head(*self));
        proof {
            assert(Seq::<char>::empty() + "UPDATE "@ + self.attr.table@ + " AS \"self\"\nSET\n"@ =~= update_head(*self));
        }
        assert(params.state@ =~= Seq::<usize>::empty());
        assert(tracks(build, params, r0, dynamic, checked, certain));
        proof {
            if dynamic {
                assert(pieces(Seq::<crate::builder::Step>::empty()) =~= Seq::<Piece>::empty());
                assert(build.model() == Some((Seq::<Piece>::empty(), update_head(*self))));
            }
        }
        let Ghost(mut run) = self.field_clauses(false, &mut build, &mut params, Ghost(r0))?;
        let mut cuts: Vec<&str> = Vec::new();
        cuts.push(",\n");
        proof { assert(views(cuts@) =~= seq![",\n"@]); }
        if !build.cut_tracked(cuts.as_slice(), &params, Ghost(run), dynamic, checked, certain) {
            return Err(Error::new(call_site(), Fault::Incomplete, "incomplete query: missing update column".to_owned()));
        }
        proof { run = cut_run(dynamic && !checked, run, seq![",\n"@])->Some_0; }
        build.str("\nWHERE\n");
        proof { run = appended(run, "\nWHERE\n"@); }
        let Ghost(run2) = self.where_clause(&mut build, &mut params, Ghost(run))?;
        let ghost fin = run2;
        let mac = if checked { ret.returned(Target::Macro)? } else { String::new() };
        let fun = ret.returned(Target::Function)?;
        build.duo(mac.as_str(), fun.as_str());
        Ok(self.finish(build, params, &fields, Ghost(fin)))
    }
}

} // verus!
