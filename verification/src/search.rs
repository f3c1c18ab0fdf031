use vstd::prelude::*;
use crate::builder::{Build, Done, Piece, flush, pieces, cut_model, text_of, views, cut_suffix, optional_among};
use crate::construct::{Construct, construct_query};
use crate::error::{Error, Fault, call_site, Failure};
use crate::params::{Params, Param, Value, Run, lines};
use crate::query::{
    appended, arg_step, clause_step, base_map, base_run, optional_flags, rest_of, info_lines,
    included, infos, cut_run, written, arg_alone, clause_from, opt_clause,
};
use crate::rules::Info;
use crate::select::Target;
use crate::types::SelectTable;

verus! {

/// The texts of a build in step with a run after different starts: the checked
/// text is `pm` and the static text `pf`, each followed by the run's text.
pub open spec fn texts_with(b: Build, r: Run, pm: Seq<char>, pf: Seq<char>, dynamic: bool, checked: bool) -> bool {
    &&& b.wf()
    &&& !b.optional
    &&& (b.stream is Some) == dynamic
    &&& text_of(b.checking) == if checked { Some(pm + r.text) } else { None }
    &&& text_of(b.string) == if dynamic { None } else { Some(pf + r.text) }
}

/// A build and parameters in step with a run after different starts.
pub open spec fn tracks_with(b: Build, p: Params, r: Run, pm: Seq<char>, pf: Seq<char>, dynamic: bool, checked: bool) -> bool {
    &&& texts_with(b, r, pm, pf, dynamic, checked)
    &&& p.wf()
    &&& b.saved is None
    &&& p.cells@ == r.cells
    &&& p.state@ == r.state
}

/// Appending the same text to both forms of the query keeps the build in step
/// with the run that appends it.
pub proof fn lemma_with_append(b1: Build, b2: Build, r: Run, r2: Run, pm: Seq<char>, pf: Seq<char>, s: Seq<char>, dynamic: bool, checked: bool)
    requires
        texts_with(b1, r, pm, pf, dynamic, checked),
        r2.text == r.text + s,
        b2.wf(),
        !b2.optional,
        (b2.stream is Some) == dynamic,
        text_of(b2.checking) == match b1.checking { Some(c) => Some(c@ + s), None => None },
        text_of(b2.string) == match b1.string { Some(c) => Some(c@ + s), None => None },
    ensures
        texts_with(b2, r2, pm, pf, dynamic, checked),
{
    assert(pm + r2.text =~= (pm + r.text) + s);
    assert(pf + r2.text =~= (pf + r.text) + s);
}

/// What field `f` adds to the `WHERE` clause of a select query: its `filter`
/// lines, with `$i` its bind and `$column` its column; without them, its column
/// of the row `table` compared with its bind.
pub open spec fn select_field(t: SelectTable, table: Seq<char>, m: Map<Seq<char>, Param>, r: Run, f: int) -> Result<(Map<Seq<char>, Param>, Run), Failure> {
    let column = t.spec_declaration(t.fields@[f]).0;
    let ls = info_lines(t.fields@[f].attr.filter@);
    if ls.len() > 0 {
        let m1 = m.insert("i"@, Param::Cell(f as usize)).insert("column"@, Param::Text(column));
        match arg_step(m1, appended(r, "\t("@), ls, None) {
            Ok(r1) => Ok((m1, appended(r1, ") AND\n"@))),
            Err(e) => Err(e),
        }
    } else {
        let r0 = appended(r, "\t\""@ + table + "\".\""@ + column + "\" = "@);
        match arg_step(m, r0, Seq::empty(), Some(Param::Cell(f as usize))) {
            Ok(r1) => Ok((m, appended(r1, " AND\n"@))),
            Err(e) => Err(e),
        }
    }
}

/// What the first `n` fields add to the `WHERE` clause; skipped fields add nothing.
pub open spec fn select_fields(t: SelectTable, table: Seq<char>, m: Map<Seq<char>, Param>, r: Run, n: int) -> Result<(Map<Seq<char>, Param>, Run), Failure>
    decreases n,
{
    if n <= 0 {
        Ok((m, r))
    } else {
        match select_fields(t, table, m, r, n - 1) {
            Err(e) => Err(e),
            Ok((m1, r1)) => if t.fields@[n - 1].attr.skip is Some { Ok((m1, r1)) } else { select_field(t, table, m1, r1, n - 1) },
        }
    }
}

/// What field `f` adds to the `WHERE` clause of a dynamic select query.
pub open spec fn select_field_pieces(t: SelectTable, table: Seq<char>, m: Map<Seq<char>, Param>, r: Run, f: int, start: (Seq<Piece>, Seq<char>)) -> (Seq<Piece>, Seq<char>) {
    let field = t.fields@[f];
    let column = t.spec_declaration(field).0;
    let ls = info_lines(field.attr.filter@);
    let optional = t.spec_optional(field) is Some;
    if ls.len() > 0 {
        let m1 = m.insert("i"@, Param::Cell(f as usize)).insert("column"@, Param::Text(column));
        opt_clause(start, optional, f as usize, "\t("@, written(m1, arg_alone(m1, r, ls, None), ls, None), ") AND\n"@)
    } else {
        let cell = Some(Param::Cell(f as usize));
        opt_clause(start, optional, f as usize, "\t\""@ + table + "\".\""@ + column + "\" = "@,
            written(m, arg_alone(m, r, Seq::empty(), cell), Seq::empty(), cell), " AND\n"@)
    }
}

/// What the first `n` fields add to the `WHERE` clause of a dynamic select query.
pub open spec fn select_fields_pieces(t: SelectTable, table: Seq<char>, m: Map<Seq<char>, Param>, r: Run, n: int, start: (Seq<Piece>, Seq<char>)) -> (Seq<Piece>, Seq<char>)
    decreases n,
{
    if n <= 0 {
        start
    } else {
        let prev = select_fields_pieces(t, table, m, r, n - 1, start);
        if t.fields@[n - 1].attr.skip is Some {
            prev
        } else {
            match select_fields(t, table, m, r, n - 1) {
                Ok((m1, r1)) => select_field_pieces(t, table, m1, r1, n - 1, prev),
                Err(_) => prev,
            }
        }
    }
}

/// The pieces of the `WHERE` clause of a dynamic select query, after `start`:
/// the struct's `filter` clause and each field's clause (an optional field's in a
/// `Present` piece), less the last ` AND\n` (or the `WHERE` itself), at run time
/// where the text before does not end with either.
pub open spec fn select_where_pieces(t: SelectTable, table: Seq<char>, start: (Seq<Piece>, Seq<char>)) -> (Seq<Piece>, Seq<char>) {
    let m0 = base_map(t.fields@);
    let r0 = base_run(t.fields@, "\nWHERE\n"@);
    let ls = info_lines(t.attr.filter@);
    let s0 = (start.0, start.1 + "\nWHERE\n"@);
    let s1 = if ls.len() > 0 { clause_from(s0, "\t("@, written(m0, arg_alone(m0, r0, ls, None), ls, None), ") AND\n"@) } else { s0 };
    let s2 = select_fields_pieces(t, table, m0, clause_step(m0, r0, ls, ") AND\n"@)->Ok_0, t.fields@.len() as int, s1);
    cut_model(s2.0, s2.1, seq![" AND\n"@, "\nWHERE\n"@], false)
}

/// A failing field fails the whole list.
pub proof fn lemma_select_fields_err(t: SelectTable, table: Seq<char>, m: Map<Seq<char>, Param>, r: Run, i: int, n: int)
    requires
        0 <= i <= n,
        select_fields(t, table, m, r, i) is Err,
    ensures
        select_fields(t, table, m, r, n) == select_fields(t, table, m, r, i),
    decreases n - i,
{
    if n > i {
        lemma_select_fields_err(t, table, m, r, i, n - 1);
    }
}

/// The `WHERE` clause of a select query: the struct's `filter` clause and a clause
/// per field, less the last ` AND\n` (or the `WHERE` itself where nothing follows).
pub open spec fn select_where(t: SelectTable, table: Seq<char>) -> Result<Run, Failure> {
    let loose = t.attr.dynamic is Some && t.attr.unchecked is Some;
    let m0 = base_map(t.fields@);
    match clause_step(m0, base_run(t.fields@, "\nWHERE\n"@), info_lines(t.attr.filter@), ") AND\n"@) {
        Err(e) => Err(e),
        Ok(r1) => match select_fields(t, table, m0, r1, t.fields@.len() as int) {
            Err(e) => Err(e),
            Ok((_, r2)) => match cut_run(loose, r2, seq![" AND\n"@, "\nWHERE\n"@]) {
                None => Err((Fault::Incomplete, "incomplete query: missing select filter"@)),
                Some(r3) => Ok(r3),
            },
        },
    }
}

/// The select query: the construct's query for the check macro (where checked)
/// and for the generated function, each followed by the `WHERE` clause.
pub open spec fn select_query<'c>(t: SelectTable, c: Construct<'c>) -> Result<(Run, Seq<char>, Seq<char>), Failure> {
    let mac = if t.attr.unchecked is None { construct_query(c, Target::Macro) } else { Ok(Seq::empty()) };
    match mac {
        Err(e) => Err(e),
        Ok(mt) => match construct_query(c, Target::Function) {
            Err(e) => Err(e),
            Ok(ft) => match select_where(t, c.unique@) {
                Err(e) => Err(e),
                Ok(r) => Ok((r, mt, ft)),
            },
        },
    }
}

/// Taking a suffix off a text that starts with a part at least as long as any
/// suffix is taking it off that part.
pub proof fn lemma_cut_prefix(pre: Seq<char>, s: Seq<char>, sufs: Seq<Seq<char>>)
    requires
        forall|k: int| 0 <= k < sufs.len() ==> #[trigger] sufs[k].len() <= s.len(),
    ensures
        cut_suffix(pre + s, sufs) == match cut_suffix(s, sufs) { Some(c) => Some(pre + c), None => None },
    decreases sufs.len(),
{
    if sufs.len() > 0 {
        let t = sufs[0];
        assert(t.len() <= s.len());
        assert((pre + s).skip((pre + s).len() - t.len()) =~= s.skip(s.len() - t.len()));
        assert((pre + s).take((pre + s).len() - t.len()) =~= pre + s.take(s.len() - t.len()));
        assert forall|k: int| 0 <= k < sufs.drop_first().len() implies #[trigger] sufs.drop_first()[k].len() <= s.len() by {
            assert(sufs.drop_first()[k] == sufs[k + 1]);
        }
        lemma_cut_prefix(pre, s, sufs.drop_first());
    }
}

impl SelectTable {
    /// Writes the clause of field `i`.
    fn field_clause(&self, table: &str, build: &mut Build, params: &mut Params, i: usize,
        Ghost(run): Ghost<Run>, Ghost(pm): Ghost<Seq<char>>, Ghost(pf): Ghost<Seq<char>>) -> (r: Result<(), Error>)
        requires
            i < self.fields@.len(),
            self.fields@[i as int].attr.skip is None,
            tracks_with(*old(build), *old(params), run, pm, pf, self.attr.dynamic is Some, self.attr.unchecked is None),
            old(params).cells@.len() == self.fields@.len(),
        ensures
            match select_field(*self, table@, old(params).map(), run, i as int) {
                Err(f) => r matches Err(e) && e.fault == f.0 && e.message@ == f.1,
                Ok((m, run2)) => {
                    &&& r is Ok
                    &&& tracks_with(*final(build), *final(params), run2, pm, pf, self.attr.dynamic is Some, self.attr.unchecked is None)
                    &&& final(params).map() == m
                    &&& final(params).cells@.len() == self.fields@.len()
                    &&& (old(build).model() matches Some(start) ==>
                        final(build).model() == Some(select_field_pieces(*self, table@, old(params).map(), run, i as int, start)))
                },
            },
    {
        let field = &self.fields[i];
        let ghost start = build.model();
        let opened = build.opt_open(self.optional(field).is_some());
        let ghost inner = build.model();
        let column = self.column(field);
        let ghost b0 = *build;
        let ghost pre: Seq<char>;
        let ghost post: Seq<char>;
        let ghost w: Piece;
        if field.attr.filter.len() > 0 {
            params.put("i", Value::Cell(i));
            params.put("column", Value::Text(column));
            let ghost m1 = params.map();
            build.str("\t(");
            let ghost ra = appended(run, "\t("@);
            proof { lemma_with_append(b0, *build, run, ra, pm, pf, "\t("@, self.attr.dynamic is Some, self.attr.unchecked is None); }
            let list = infos(&field.attr.filter);
            let ghost b1 = *build;
            proof {
                pre = "\t("@;
                post = ") AND\n"@;
                w = written(m1, arg_alone(m1, run, lines(list@), None), lines(list@), None);
            }
            build.arg(params, list.as_slice(), None)?;
            let ghost rb = arg_step(m1, ra, lines(list@), None)->Ok_0;
            let ghost d = crate::query::arg_run(m1, Run { text: Seq::empty(), noted: Seq::empty(), cells: ra.cells, state: ra.state }, lines(list@), None)->Ok_0.text;
            proof { lemma_with_append(b1, *build, ra, rb, pm, pf, d, self.attr.dynamic is Some, self.attr.unchecked is None); }
            let ghost b2 = *build;
            build.str(") AND\n");
            proof { lemma_with_append(b2, *build, rb, appended(rb, ") AND\n"@), pm, pf, ") AND\n"@, self.attr.dynamic is Some, self.attr.unchecked is None); }
        } else {
            let mut head = String::new();
            crate::text::push_str(&mut head, "\t\"");
            crate::text::push_str(&mut head, table);
            crate::text::push_str(&mut head, "\".\"");
            crate::text::push_str(&mut head, column.as_str());
            crate::text::push_str(&mut head, "\" = ");
            build.str(head.as_str());
            let ghost ra = appended(run, head@);
            proof {
                assert(head@ =~= "\t\""@ + table@ + "\".\""@ + column@ + "\" = "@);
                lemma_with_append(b0, *build, run, ra, pm, pf, head@, self.attr.dynamic is Some, self.attr.unchecked is None);
            }
            let v = Value::Cell(i);
            let empty: Vec<&Info<String>> = Vec::new();
            let ghost b1 = *build;
            let ghost m = params.map();
            proof {
                pre = head@;
                post = " AND\n"@;
                w = written(m, arg_alone(m, run, Seq::empty(), Some(Param::Cell(i))), Seq::empty(), Some(Param::Cell(i)));
            }
            build.arg(params, empty.as_slice(), Some(&v))?;
            let ghost rb = arg_step(m, ra, Seq::empty(), Some(Param::Cell(i)))->Ok_0;
            let ghost d = crate::query::arg_run(m, Run { text: Seq::empty(), noted: Seq::empty(), cells: ra.cells, state: ra.state }, Seq::empty(), Some(Param::Cell(i)))->Ok_0.text;
            proof {
                assert(lines(empty@) =~= Seq::<Seq<char>>::empty());
                lemma_with_append(b1, *build, ra, rb, pm, pf, d, self.attr.dynamic is Some, self.attr.unchecked is None);
            }
            let ghost b2 = *build;
            build.str(" AND\n");
            proof { lemma_with_append(b2, *build, rb, appended(rb, " AND\n"@), pm, pf, " AND\n"@, self.attr.dynamic is Some, self.attr.unchecked is None); }
        }
        let ghost body = build.model();
        build.opt_close(i, opened);
        proof {
            if let Some(st) = start {
                assert(body == Some(clause_from(inner->Some_0, pre, w, post)));
                if opened {
                    assert(inner->Some_0.1 + pre =~= pre);
                }
            }
        }
        Ok(())
    }

    /// Writes the `WHERE` clause (see `select_where`).
    fn where_clause(&self, table: &str, build: &mut Build, params: &mut Params,
        Ghost(pm): Ghost<Seq<char>>, Ghost(pf): Ghost<Seq<char>>) -> (r: Result<Ghost<Run>, Error>)
        requires
            tracks_with(*old(build), *old(params), base_run(self.fields@, Seq::empty()), pm, pf, self.attr.dynamic is Some, self.attr.unchecked is None),
            old(params).map() == base_map(self.fields@),
            old(params).cells@.len() == self.fields@.len(),
        ensures
            match select_where(*self, table@) {
                Err(f) => r matches Err(e) && e.fault == f.0 && e.message@ == f.1,
                Ok(run) => {
                    &&& r matches Ok(g) && g@ == run
                    &&& tracks_with(*final(build), *final(params), run, pm, pf, self.attr.dynamic is Some, self.attr.unchecked is None)
                    &&& final(params).cells@.len() == self.fields@.len()
                    &&& (old(build).model() matches Some(start) ==>
                        final(build).model() == Some(select_where_pieces(*self, table@, start)))
                },
            },
    {
        let ghost start = build.model();
        let dynamic = self.dynamic().is_some();
        let checked = self.checked();
        let ghost m0 = params.map();
        let ghost b0 = *build;
        build.str("\nWHERE\n");
        let ghost r0 = base_run(self.fields@, "\nWHERE\n"@);
        proof {
            assert(Seq::<char>::empty() + "\nWHERE\n"@ =~= "\nWHERE\n"@);
            lemma_with_append(b0, *build, base_run(self.fields@, Seq::empty()), r0, pm, pf, "\nWHERE\n"@, dynamic, checked);
            reveal_strlit("\nWHERE\n");
        }
        let ghost mut run = r0;
        if self.attr.filter.len() > 0 {
            let ghost b1 = *build;
            build.str("\t(");
            proof {
                run = appended(run, "\t("@);
                lemma_with_append(b1, *build, r0, run, pm, pf, "\t("@, dynamic, checked);
            }
            let list = infos(&self.attr.filter);
            let ghost ra = run;
            let ghost b2 = *build;
            build.arg(params, list.as_slice(), None)?;
            proof {
                run = arg_step(m0, run, lines(list@), None)->Ok_0;
                let d = crate::query::arg_run(m0, Run { text: Seq::empty(), noted: Seq::empty(), cells: ra.cells, state: ra.state }, lines(list@), None)->Ok_0.text;
                lemma_with_append(b2, *build, ra, run, pm, pf, d, dynamic, checked);
            }
            let ghost rb = run;
            let ghost b3 = *build;
            build.str(") AND\n");
            proof {
                run = appended(run, ") AND\n"@);
                lemma_with_append(b3, *build, rb, run, pm, pf, ") AND\n"@, dynamic, checked);
            }
        }
        assert(clause_step(m0, r0, info_lines(self.attr.filter@), ") AND\n"@) == Ok::<Run, Failure>(run));
        let ghost r1 = run;
        let ghost s0 = match start { Some(st) => (st.0, st.1 + "\nWHERE\n"@), None => (Seq::<Piece>::empty(), Seq::<char>::empty()) };
        let ghost s1 = if info_lines(self.attr.filter@).len() > 0 {
            clause_from(s0, "\t("@, written(m0, arg_alone(m0, r0, info_lines(self.attr.filter@), None), info_lines(self.attr.filter@), None), ") AND\n"@)
        } else {
            s0
        };
        assert(start is Some ==> build.model() == Some(s1));
        let mut i: usize = 0;
        while i < self.fields.len()
            invariant
                i <= self.fields@.len(),
                start is Some ==> build.model() == Some(select_fields_pieces(*self, table@, m0, r1, i as int, s1)),
                tracks_with(*build, *params, run, pm, pf, dynamic, checked),
                dynamic == (self.attr.dynamic is Some),
                checked == (self.attr.unchecked is None),
                params.cells@.len() == self.fields@.len(),
                clause_step(m0, r0, info_lines(self.attr.filter@), ") AND\n"@) == Ok::<Run, Failure>(r1),
                m0 == base_map(self.fields@),
                r0 == base_run(self.fields@, "\nWHERE\n"@),
                select_fields(*self, table@, m0, r1, i as int) == Ok::<(Map<Seq<char>, Param>, Run), Failure>((params.map(), run)),
                run.text.len() >= 7,
            decreases self.fields@.len() - i,
        {
            if self.fields[i].attr.skip.is_none() {
                let ghost m = params.map();
                match self.field_clause(table, build, params, i, Ghost(run), Ghost(pm), Ghost(pf)) {
                    Ok(()) => {}
                    Err(e) => {
                        proof {
                            assert(select_fields(*self, table@, m0, r1, i + 1) == select_field(*self, table@, m, run, i as int));
                            lemma_select_fields_err(*self, table@, m0, r1, i + 1, self.fields@.len() as int);
                        }
                        return Err(e);
                    }
                }
                proof { run = select_field(*self, table@, m, run, i as int)->Ok_0.1; }
            }
            i = i + 1;
        }
        let mut cuts: Vec<&str> = Vec::new();
        cuts.push(" AND\n");
        cuts.push("\nWHERE\n");
        let ghost sufs = seq![" AND\n"@, "\nWHERE\n"@];
        proof {
            assert(views(cuts@) =~= sufs);
            reveal_strlit(" AND\n");
            reveal_strlit("\nWHERE\n");
            assert forall|k: int| 0 <= k < sufs.len() implies #[trigger] sufs[k].len() <= run.text.len() by {}
            lemma_cut_prefix(pm, run.text, sufs);
            lemma_cut_prefix(pf, run.text, sufs);
        }
        if !build.cut(cuts.as_slice()) {
            return Err(Error::new(call_site(), Fault::Incomplete, "incomplete query: missing select filter".to_owned()));
        }
        Ok(Ghost(cut_run(dynamic && !checked, run, sufs)->Some_0))
    }

    /// Builds the select query of the struct, reading its rows by the construct
    /// of its table struct. Every field gets a bind cell named after it; the binds
    /// placed come first in `args`, the other fields follow in `rest`.
    pub fn query<'c>(&self, construct: &Construct<'c>) -> (r: Result<Done, Error>)
        ensures
            match select_query(*self, *construct) {
                Err(f) => r matches Err(e) && e.fault == f.0 && e.message@ == f.1,
                Ok((run, mac, fun)) => r matches Ok(d) && {
                    &&& text_of(d.query) == if self.attr.dynamic is Some { None } else { Some(fun + run.text) }
                    &&& text_of(d.check) == if self.attr.unchecked is None { Some(mac + run.text) } else { None }
                    &&& d.args@ == run.state
                    &&& d.rest@ == rest_of(run.cells, included(self.fields@, self.fields@.len() as int))
                    &&& d.binds@ == d.args@ + optional_among(d.rest@, optional_flags(*self))
                    &&& !d.optional
                    &&& (d.steps is Some) == (self.attr.dynamic is Some)
                    &&& (d.steps matches Some(s) ==> pieces(s@) == {
                        let w = select_where_pieces(*self, construct.unique@, (Seq::<Piece>::empty(), fun));
                        flush(w.0, w.1)
                    })
                },
            },
    {
        let dynamic = self.dynamic().is_some();
        let checked = self.checked();
        let mut params = Params::default();
        let mut build = Build::new(dynamic, checked, true);
        let fields = self.cells(&mut params);
        params.free("column");
        params.free("i");
        let mac = if checked { construct.query(Target::Macro)? } else { String::new() };
        let fun = construct.query(Target::Function)?;
        proof {
            if dynamic {
                assert(pieces(Seq::<crate::builder::Step>::empty()) =~= Seq::<Piece>::empty());
            }
        }
        build.duo(mac.as_str(), fun.as_str());
        proof {
            if dynamic {
                assert(Seq::<char>::empty() + fun@ =~= fun@);
            }
        }
        assert(params.state@ =~= Seq::<usize>::empty());
        proof {
            assert(Seq::<char>::empty() + mac@ =~= mac@ + Seq::<char>::empty());
            assert(Seq::<char>::empty() + fun@ =~= fun@ + Seq::<char>::empty());
        }
        assert(tracks_with(build, params, base_run(self.fields@, Seq::empty()), mac@, fun@, dynamic, checked));
        let Ghost(run) = self.where_clause(construct.unique.as_str(), &mut build, &mut params, Ghost(mac@), Ghost(fun@))?;
        Ok(self.finish(build, params, &fields, Ghost(run)))
    }
}

} // verus!
