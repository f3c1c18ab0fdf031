use vstd::prelude::*;
use crate::builder::{Build, Done, Step, Piece, flush, pieces, cut_model, text_of, optional_among};
use crate::error::{Error, Fault, Failure};
use crate::params::{
    Params, Param, Value, Run, Index, Dollar, applied, outputted, placed, put, lines, first_from, token, all_white,
    lemma_first_from, lemma_token, chain, shifted, displaced, key_map,
};
use crate::types::{Derived, Field};
use crate::ident::resolved_ident;
use crate::rules::Info;
use crate::write::{Format, Wrapper, noted_of};
use crate::text::push_str;

verus! {

/// Whether placeholder replacement fails does not depend on the destination or on
/// what was written before, and fails with the same fault.
pub proof fn lemma_applied_fault<V: Wrapper, W: Wrapper>(m: Map<Seq<char>, Param>, r1: Run, r2: Run, v: Seq<char>, p: int)
    ensures
        (applied::<V>(m, r1, v, p) is Err) == (applied::<W>(m, r2, v, p) is Err),
        applied::<V>(m, r1, v, p) matches Err(f) ==> applied::<W>(m, r2, v, p) == Err::<Run, Failure>(f),
    decreases v.len() - p,
{
    if 0 <= p <= v.len() {
        lemma_first_from(v, p, '$');
        match first_from(v, p, '$') {
            None => {}
            Some(i) => {
                if i + 1 < v.len() && v[i + 1] == '$' {
                    lemma_applied_fault::<V, W>(m, put::<V>(r1, v.subrange(p, i + 1)), put::<W>(r2, v.subrange(p, i + 1)), v, i + 2);
                } else {
                    lemma_token(v, i);
                    match token(v, i) {
                        Err(f) => {}
                        Ok((var, next)) => {
                            if !all_white(var) {
                                if let Some(id) = resolved_ident(var) {
                                    if m.contains_key(id) {
                                        lemma_applied_fault::<V, W>(
                                            m,
                                            placed::<V>(put::<V>(r1, v.subrange(p, i)), m[id]),
                                            placed::<W>(put::<W>(r2, v.subrange(p, i)), m[id]),
                                            v,
                                            next,
                                        );
                                    }
                                }
                            }
                        }
                    }
                }
            }
        }
    }
}

/// Whether writing lines fails does not depend on the destination or on what was
/// written before.
pub proof fn lemma_outputted_fault<V: Wrapper, W: Wrapper>(m: Map<Seq<char>, Param>, r1: Run, r2: Run, ls: Seq<Seq<char>>)
    ensures
        (outputted::<V>(m, r1, ls) is Err) == (outputted::<W>(m, r2, ls) is Err),
        outputted::<V>(m, r1, ls) matches Err(e) ==> outputted::<W>(m, r2, ls) == Err::<Run, (Failure, int)>(e),
    decreases ls.len(),
{
    if ls.len() > 0 {
        lemma_outputted_fault::<V, W>(m, r1, r2, ls.drop_last());
        match (outputted::<V>(m, r1, ls.drop_last()), outputted::<W>(m, r2, ls.drop_last())) {
            (Ok(a), Ok(b)) => {
                let a2 = if ls.len() > 1 { put::<V>(a, seq!['\n', '\t']) } else { a };
                let b2 = if ls.len() > 1 { put::<W>(b, seq!['\n', '\t']) } else { b };
                lemma_applied_fault::<V, W>(m, a2, b2, crate::params::trim(ls.last()), 0);
            }
            _ => {}
        }
    }
}

/// Placeholder replacement into an outer destination leaves the bind cells and state as they were.
pub proof fn lemma_applied_outer<W: Wrapper>(m: Map<Seq<char>, Param>, r: Run, v: Seq<char>, p: int)
    requires
        W::is_outer(),
    ensures
        applied::<W>(m, r, v, p) matches Ok(r2) ==> r2.cells == r.cells && r2.state == r.state,
    decreases v.len() - p,
{
    if 0 <= p <= v.len() {
        lemma_first_from(v, p, '$');
        match first_from(v, p, '$') {
            None => {}
            Some(i) => {
                if i + 1 < v.len() && v[i + 1] == '$' {
                    lemma_applied_outer::<W>(m, put::<W>(r, v.subrange(p, i + 1)), v, i + 2);
                } else {
                    lemma_token(v, i);
                    match token(v, i) {
                        Err(f) => {}
                        Ok((var, next)) => {
                            if !all_white(var) {
                                if let Some(id) = resolved_ident(var) {
                                    if m.contains_key(id) {
                                        lemma_applied_outer::<W>(m, placed::<W>(put::<W>(r, v.subrange(p, i)), m[id]), v, next);
                                    }
                                }
                            }
                        }
                    }
                }
            }
        }
    }
}

/// Writing lines into an outer destination leaves the bind cells and state as they were.
pub proof fn lemma_outputted_outer<W: Wrapper>(m: Map<Seq<char>, Param>, r: Run, ls: Seq<Seq<char>>)
    requires
        W::is_outer(),
    ensures
        outputted::<W>(m, r, ls) matches Ok(r2) ==> r2.cells == r.cells && r2.state == r.state,
    decreases ls.len(),
{
    if ls.len() > 0 {
        lemma_outputted_outer::<W>(m, r, ls.drop_last());
        if let Ok(a) = outputted::<W>(m, r, ls.drop_last()) {
            let a2 = if ls.len() > 1 { put::<W>(a, seq!['\n', '\t']) } else { a };
            lemma_applied_outer::<W>(m, a2, crate::params::trim(ls.last()), 0);
        }
    }
}

/// A run with nothing written yet, over the given cells and state.
pub open spec fn fresh(p: Params) -> Run {
    Run { text: Seq::empty(), noted: Seq::empty(), cells: p.cells@, state: p.state@ }
}

/// What an argument writes in plain text: its lines with placeholders replaced,
/// or, without lines, the given value.
pub open spec fn arg_run(m: Map<Seq<char>, Param>, r: Run, ls: Seq<Seq<char>>, cell: Option<Param>) -> Result<Run, Failure> {
    if ls.len() > 0 {
        match outputted::<String>(m, r, ls) {
            Ok(r1) => Ok(r1),
            Err((f, _)) => Err(f),
        }
    } else {
        match cell {
            Some(v) => Ok(placed::<String>(r, v)),
            None => Ok(r),
        }
    }
}

/// What an argument writes as a format string: as `arg_run`, into a `Format`.
pub open spec fn arg_format(m: Map<Seq<char>, Param>, r: Run, ls: Seq<Seq<char>>, cell: Option<Param>) -> Result<Run, Failure> {
    if ls.len() > 0 {
        match outputted::<Format>(m, r, ls) {
            Ok(r1) => Ok(r1),
            Err((f, _)) => Err(f),
        }
    } else {
        match cell {
            Some(v) => Ok(placed::<Format>(r, v)),
            None => Ok(r),
        }
    }
}

/// The `Write` piece an argument adds to a dynamic query, after the plain run
/// `r1` has given its binds positions.
pub open spec fn written(m: Map<Seq<char>, Param>, r1: Run, ls: Seq<Seq<char>>, cell: Option<Param>) -> Piece {
    match arg_format(m, Run { text: Seq::empty(), noted: Seq::empty(), cells: r1.cells, state: r1.state }, ls, cell) {
        Ok(r2) => Piece::Write(r2.text, r2.noted),
        Err(_) => Piece::Text(Seq::empty()),
    }
}

/// The pieces and pending text after a clause: text before, an argument, text after.
pub open spec fn clause_from(start: (Seq<Piece>, Seq<char>), pre: Seq<char>, w: Piece, post: Seq<char>) -> (Seq<Piece>, Seq<char>) {
    (flush(start.0, start.1 + pre).push(w), post)
}

/// The pieces and pending text after a field's clause; the clause of an optional
/// field stands apart in a `Present` piece, run only where the field has a value.
pub open spec fn opt_clause(start: (Seq<Piece>, Seq<char>), optional: bool, i: usize, pre: Seq<char>, w: Piece, post: Seq<char>) -> (Seq<Piece>, Seq<char>) {
    if optional {
        let body = clause_from((Seq::empty(), Seq::empty()), pre, w, post);
        (flush(start.0, start.1).push(Piece::Present(i, flush(body.0, body.1))), Seq::empty())
    } else {
        clause_from(start, pre, w, post)
    }
}

/// The pieces and pending text after a field's clause of text alone.
pub open spec fn opt_text(start: (Seq<Piece>, Seq<char>), optional: bool, i: usize, text: Seq<char>) -> (Seq<Piece>, Seq<char>) {
    if optional {
        (flush(start.0, start.1).push(Piece::Present(i, flush(Seq::empty(), text))), Seq::empty())
    } else {
        (start.0, start.1 + text)
    }
}

/// The plain run an argument writes on its own, from the run `r` it follows.
pub open spec fn arg_alone(m: Map<Seq<char>, Param>, r: Run, ls: Seq<Seq<char>>, cell: Option<Param>) -> Run {
    arg_run(m, Run { text: Seq::empty(), noted: Seq::empty(), cells: r.cells, state: r.state }, ls, cell)->Ok_0
}

/// The view of an optional value.
pub open spec fn opt_view(cell: Option<&Value>) -> Option<Param> {
    match cell {
        Some(v) => Some(v@),
        None => None,
    }
}

impl Build {
    /// Appends an argument: the given lines with their placeholders replaced, or
    /// else the given value, to the checked and static query; for a dynamic query
    /// the same as a `Write` step of a format string with named binds.
    pub fn arg(&mut self, params: &mut Params, list: &[&Info<String>], cell: Option<&Value>) -> (r: Result<(), Error>)
        requires
            old(self).wf(),
            old(params).wf(),
            cell matches Some(v) ==> old(params).valid(v@),
        ensures
            final(self).wf(),
            final(params).wf(),
            final(params).keys == old(params).keys,
            final(params).vals == old(params).vals,
            final(params).cells@.len() == old(params).cells@.len(),
            final(self).saved == old(self).saved,
            final(self).optional == old(self).optional,
            match arg_run(old(params).map(), fresh(*old(params)), lines(list@), opt_view(cell)) {
                Err(f) => r matches Err(e) && e.fault == f.0 && e.message@ == f.1,
                Ok(r1) => {
                    &&& r is Ok
                    &&& final(params).cells@ == r1.cells
                    &&& final(params).state@ == r1.state
                    &&& text_of(final(self).checking) == match old(self).checking { Some(c) => Some(c@ + r1.text), None => None }
                    &&& text_of(final(self).string) == match old(self).string { Some(c) => Some(c@ + r1.text), None => None }
                    &&& (old(self).stream is None ==> final(self).stream == old(self).stream && final(self).pending == old(self).pending)
                    &&& (lines(list@).len() == 0 && cell is None ==> *final(self) == *old(self) && *final(params) == *old(params))
                    &&& (old(self).stream matches Some(s0) ==> (lines(list@).len() > 0 || cell is Some) ==> {
                        &&& arg_format(old(params).map(), Run { text: Seq::empty(), noted: Seq::empty(), cells: r1.cells, state: r1.state }, lines(list@), opt_view(cell)) matches Ok(r2)
                        &&& text_of(final(self).pending) == Some(Seq::<char>::empty())
                        &&& final(self).stream matches Some(s1)
                        &&& s1@.last() matches Step::Write(f, names)
                        &&& f@ == r2.text
                        &&& noted_of(names@) == r2.noted
                        &&& s1@.len() == s0@.len() + if old(self).pending.unwrap()@.len() > 0 { 2int } else { 1int }
                        &&& s1@.take(s0@.len() as int) == s0@
                        &&& (old(self).pending.unwrap()@.len() > 0 ==> s1@[s0@.len() as int] == Step::Push(old(self).pending.unwrap()))
                    })
                    &&& (old(self).model() matches Some((ps, p)) ==> final(self).model() == if lines(list@).len() > 0 || cell is Some {
                        Some((flush(ps, p).push(written(old(params).map(), r1, lines(list@), opt_view(cell))), Seq::<char>::empty()))
                    } else {
                        old(self).model()
                    })
                },
            },
    {
        let ghost m = params.map();
        let ghost r0 = fresh(*params);
        let mut dst = String::new();
        if list.len() > 0 {
            params.output(&mut dst, list)?;
        } else if let Some(v) = cell {
            params.place(&mut dst, v)?;
        } else {
            assert(Seq::<char>::empty() + Seq::<char>::empty() =~= Seq::<char>::empty());
            proof {
                if let Some(c) = &self.checking { assert(c@ + Seq::<char>::empty() =~= c@); }
                if let Some(c) = &self.string { assert(c@ + Seq::<char>::empty() =~= c@); }
            }
            return Ok(());
        }
        let ghost r1 = Run { text: dst@, noted: Seq::empty(), cells: params.cells@, state: params.state@ };
        if let Some(c) = &mut self.checking {
            push_str(c, dst.as_str());
        }
        if let Some(c) = &mut self.string {
            push_str(c, dst.as_str());
        }
        if self.stream.is_some() {
            let mut fmt = Format::new();
            let ghost rf = Run { text: Seq::empty(), noted: Seq::empty(), cells: params.cells@, state: params.state@ };
            proof {
                lemma_outputted_fault::<String, Format>(m, r0, rf, lines(list@));
            }
            if list.len() > 0 {
                params.output(&mut fmt, list)?;
                proof { lemma_outputted_outer::<Format>(m, rf, lines(list@)); }
            } else if let Some(v) = cell {
                params.place(&mut fmt, v)?;
            }
            let (f, names) = fmt.into_inner();
            self.add(Step::Write(f, names));
        }
        Ok(())
    }
}


/// The first step of the chain `k`, `self__k`, ... that `m` lacks.
pub open spec fn free_step(m: Map<Seq<char>, Param>, k: Seq<char>) -> nat {
    choose|n: nat| (forall|j: nat| j < n ==> m.contains_key(#[trigger] chain(k, j))) && !m.contains_key(chain(k, n))
}

/// The parameters after freeing the name `k` (see `Params::ensure`).
pub open spec fn ensured(m: Map<Seq<char>, Param>, k: Seq<char>) -> Map<Seq<char>, Param> {
    if m.contains_key(k) {
        shifted(m.remove(k), chain(k, 1), m[k], free_step(m.remove(k), chain(k, 1)))
    } else {
        m
    }
}

/// Displacing has a single outcome: the first free step of the chain.
pub proof fn lemma_displaced_unique(m0: Map<Seq<char>, Param>, m1: Map<Seq<char>, Param>, k: Seq<char>, v: Param, n: nat)
    requires
        displaced(m0, m1, k, v, n),
    ensures
        free_step(m0, k) == n,
        m1 == shifted(m0, k, v, free_step(m0, k)),
{
    let f = free_step(m0, k);
    assert((forall|j: nat| j < n ==> m0.contains_key(#[trigger] chain(k, j))) && !m0.contains_key(chain(k, n)));
    assert((forall|j: nat| j < f ==> m0.contains_key(#[trigger] chain(k, j))) && !m0.contains_key(chain(k, f)));
    if f < n {
        assert(m0.contains_key(chain(k, f)));
    } else if n < f {
        assert(m0.contains_key(chain(k, n)));
    }
}

impl Params {
    /// Frees the name `key`, as `ensure` does, with the outcome stated as a function.
    pub fn free(&mut self, key: &str)
        requires
            old(self).wf(),
        ensures
            final(self).wf(),
            final(self).map() == ensured(old(self).map(), key@),
            final(self).state == old(self).state,
            final(self).cells == old(self).cells,
    {
        self.ensure(key);
        proof {
            if old(self).map().contains_key(key@) {
                let n = choose|n: nat| displaced(old(self).map().remove(key@), self.map(), chain(key@, 1), old(self).map()[key@], n);
                lemma_displaced_unique(old(self).map().remove(key@), self.map(), chain(key@, 1), old(self).map()[key@], n);
            }
        }
    }
}

/// The parameters naming the first `n` fields after their bind cells.
pub open spec fn cell_map(fields: Seq<Field>, n: int) -> Map<Seq<char>, Param>
    decreases n,
{
    if n <= 0 {
        Map::empty()
    } else {
        cell_map(fields, n - 1).insert(fields[n - 1].ident@, Param::Cell((n - 1) as usize))
    }
}

/// The bind cells of the fields, one per field, none placed yet.
pub open spec fn cell_list(fields: Seq<Field>) -> Seq<Dollar<Index>> {
    Seq::new(fields.len(), |i: int| Dollar(Index { index: None, value: i as usize, name: fields[i].ident }))
}

/// The positions of the first `n` fields that are not skipped.
pub open spec fn included(fields: Seq<Field>, n: int) -> Seq<usize>
    decreases n,
{
    if n <= 0 {
        Seq::empty()
    } else if fields[n - 1].attr.skip is None {
        included(fields, n - 1).push((n - 1) as usize)
    } else {
        included(fields, n - 1)
    }
}

/// The bind cells of the given fields.
pub open spec fn cell_params(fs: Seq<usize>) -> Seq<Param> {
    fs.map_values(|f: usize| Param::Cell(f))
}

/// The text of each line of a list attribute.
pub open spec fn info_lines(v: Seq<Info<String>>) -> Seq<Seq<char>> {
    v.map_values(|info: Info<String>| info.data@)
}

/// Refers to each item of a list attribute.
pub fn infos(v: &Vec<Info<String>>) -> (r: Vec<&Info<String>>)
    ensures
        lines(r@) == info_lines(v@),
        r@.len() == v@.len(),
{
    let mut r: Vec<&Info<String>> = Vec::new();
    let mut i: usize = 0;
    while i < v.len()
        invariant
            i <= v@.len(),
            r@.len() == i,
            forall|j: int| 0 <= j < i ==> *r@[j] == v@[j],
        decreases v@.len() - i,
    {
        r.push(&v[i]);
        i = i + 1;
    }
    assert(lines(r@) =~= info_lines(v@));
    r
}

/// Appending literal text to a run.
pub open spec fn appended(r: Run, s: Seq<char>) -> Run {
    Run { text: r.text + s, noted: r.noted, cells: r.cells, state: r.state }
}

/// What `Build::arg` appends to a run: the argument written on its own, added on.
pub open spec fn arg_step(m: Map<Seq<char>, Param>, r: Run, ls: Seq<Seq<char>>, cell: Option<Param>) -> Result<Run, Failure> {
    match arg_run(m, Run { text: Seq::empty(), noted: Seq::empty(), cells: r.cells, state: r.state }, ls, cell) {
        Ok(r1) => Ok(Run { text: r.text + r1.text, noted: r.noted, cells: r1.cells, state: r1.state }),
        Err(f) => Err(f),
    }
}

/// A build in step with a run: the checked and the static text are the run's text
/// where they are kept, and the parameters hold the run's cells and state.
pub open spec fn tracks(b: Build, p: Params, r: Run, dynamic: bool, checked: bool, certain: bool) -> bool {
    &&& b.wf()
    &&& p.wf()
    &&& b.saved is None
    &&& b.optional == !certain
    &&& (b.stream is Some) == dynamic
    &&& text_of(b.checking) == if checked { Some(r.text) } else { None }
    &&& text_of(b.string) == if dynamic { None } else { Some(r.text) }
    &&& p.cells@ == r.cells
    &&& p.state@ == r.state
}

impl<K> Derived<K> {
    /// Gives each field a bind cell and names it after the field; returns the
    /// fields that are not skipped.
    pub fn cells(&self, params: &mut Params) -> (r: Vec<usize>)
        requires
            old(params).wf(),
            old(params).cells@.len() == 0,
            old(params).state@.len() == 0,
            old(params).map() == Map::<Seq<char>, Param>::empty(),
        ensures
            final(params).wf(),
            final(params).cells@ == cell_list(self.fields@),
            final(params).state@.len() == 0,
            final(params).map() == cell_map(self.fields@, self.fields@.len() as int),
            r@ == included(self.fields@, self.fields@.len() as int),
    {
        let mut r: Vec<usize> = Vec::new();
        let mut i: usize = 0;
        while i < self.fields.len()
            invariant
                i <= self.fields@.len(),
                params.wf(),
                params.cells@ == cell_list(self.fields@).take(i as int),
                params.state@.len() == 0,
                params.map() == cell_map(self.fields@, i as int),
                r@ == included(self.fields@, i as int),
            decreases self.fields@.len() - i,
        {
            let field = &self.fields[i];
            let c = params.cell(Index::unset(i, field.ident.clone()));
            assert(params.cells@ =~= cell_list(self.fields@).take(i + 1));
            params.put(field.ident.as_str(), Value::Cell(c));
            if field.attr.skip.is_none() {
                r.push(i);
            }
            i = i + 1;
        }
        assert(cell_list(self.fields@).take(self.fields@.len() as int) =~= cell_list(self.fields@));
        r
    }

    /// Whether each field's value is optional, by field.
    pub fn optionals(&self) -> (r: Vec<bool>)
        ensures
            r@.len() == self.fields@.len(),
            forall|i: int| 0 <= i < r@.len() ==> r@[i] == (self.spec_optional(self.fields@[i]) is Some),
    {
        let mut r: Vec<bool> = Vec::new();
        let mut i: usize = 0;
        while i < self.fields.len()
            invariant
                i <= self.fields@.len(),
                r@.len() == i,
                forall|j: int| 0 <= j < i ==> r@[j] == (self.spec_optional(self.fields@[j]) is Some),
            decreases self.fields@.len() - i,
        {
            let o = self.optional(&self.fields[i]).is_some();
            r.push(o);
            i = i + 1;
        }
        r
    }
}

/// The bind cells of the given fields, as values.
pub fn cell_values(fs: &Vec<usize>) -> (r: Vec<Value>)
    ensures
        r@.len() == fs@.len(),
        r@.map_values(|v: Value| v@) == cell_params(fs@),
        forall|i: int| 0 <= i < r@.len() ==> r@[i]@ == Param::Cell(fs@[i]),
{
    let mut r: Vec<Value> = Vec::new();
    let mut i: usize = 0;
    while i < fs.len()
        invariant
            i <= fs@.len(),
            r@.len() == i,
            forall|j: int| 0 <= j < i ==> r@[j]@ == Param::Cell(fs@[j]),
        decreases fs@.len() - i,
    {
        r.push(Value::Cell(fs[i]));
        i = i + 1;
    }
    assert(r@.map_values(|v: Value| v@) =~= cell_params(fs@));
    r
}


/// Writing a list attribute as a clause: a tab and an opening parenthesis, the
/// lines, and `close`; nothing where there are no lines.
pub open spec fn clause_step(m: Map<Seq<char>, Param>, r: Run, ls: Seq<Seq<char>>, close: Seq<char>) -> Result<Run, Failure> {
    if ls.len() > 0 {
        match arg_step(m, appended(r, "\t("@), ls, None) {
            Ok(r1) => Ok(appended(r1, close)),
            Err(f) => Err(f),
        }
    } else {
        Ok(r)
    }
}

/// The parameters a query starts from: each field named after its cell, with the
/// names `column` and `i` freed.
pub open spec fn base_map(fields: Seq<Field>) -> Map<Seq<char>, Param> {
    ensured(ensured(cell_map(fields, fields.len() as int), "column"@), "i"@)
}

/// The run a query starts from: the given text, the fields' cells, nothing bound.
pub open spec fn base_run(fields: Seq<Field>, text: Seq<char>) -> Run {
    Run { text, noted: Seq::empty(), cells: cell_list(fields), state: Seq::empty() }
}

/// Whether each field's value is optional, by field.
pub open spec fn optional_flags<K>(t: Derived<K>) -> Seq<bool> {
    Seq::new(t.fields@.len(), |i: int| t.spec_optional(t.fields@[i]) is Some)
}

/// The fields left unbound, in the order `drain` gives them positions.
pub open spec fn rest_of(cells: Seq<Dollar<Index>>, fs: Seq<usize>) -> Seq<usize> {
    crate::params::drained(crate::params::run_of(crate::write::Drain, cells, Seq::empty()), cell_params(fs)).state
}

/// The fields that are not skipped are among the fields.
pub proof fn lemma_included_bound(fields: Seq<Field>, n: int)
    requires
        0 <= n <= fields.len(),
    ensures
        forall|k: int| 0 <= k < included(fields, n).len() ==> #[trigger] included(fields, n)[k] < n,
    decreases n,
{
    if n > 0 {
        lemma_included_bound(fields, n - 1);
        let prev = included(fields, n - 1);
        assert forall|k: int| 0 <= k < included(fields, n).len() implies #[trigger] included(fields, n)[k] < n by {
            if k < prev.len() {
                assert(included(fields, n)[k] == prev[k]);
            }
        }
    }
}


impl<K> Derived<K> {
    /// Finishes a query whose text is complete: the binds placed so far become
    /// `args`; the other fields, given positions in turn, become `rest`.
    pub(crate) fn finish(&self, build: Build, params: Params, fields: &Vec<usize>, Ghost(run): Ghost<Run>) -> (d: Done)
        requires
            build.wf(),
            params.wf(),
            (build.stream is Some) == (self.attr.dynamic is Some),
            params.cells@ == run.cells,
            params.state@ == run.state,
            fields@ == included(self.fields@, self.fields@.len() as int),
            params.cells@.len() == self.fields@.len(),
        ensures
            d.query == build.string,
            d.check == build.checking,
            d.args@ == run.state,
            d.rest@ == rest_of(run.cells, fields@),
            d.binds@ == d.args@ + optional_among(d.rest@, optional_flags(*self)),
            d.optional == build.optional,
            (d.steps is Some) == (self.attr.dynamic is Some),
            build.model() matches Some((ps, p)) ==> d.steps matches Some(s) && pieces(s@) == flush(ps, p),
    {
        let mut params = params;
        let args = params.take();
        proof { lemma_included_bound(self.fields@, self.fields@.len() as int); }
        let vals = cell_values(fields);
        assert forall|i: int| 0 <= i < vals@.len() implies params.valid(#[trigger] vals@[i]@) by {
            assert(fields@[i] < self.fields@.len());
        }
        assert(params.state@ =~= Seq::<usize>::empty());
        let _ = params.drain(vals.as_slice());
        let rest = params.take();
        let opts = self.optionals();
        proof {
            assert(opts@ =~= optional_flags(*self));
            assert(run.state.len() >= 0);
        }
        build.done(args, rest, opts.as_slice())
    }
}


/// Taking the first of the suffixes off the text: `None` where the text ends with
/// none of them, unless the query is built at run time and not checked (`loose`),
/// which keeps the text as it is.
pub open spec fn cut_run(loose: bool, r: Run, sufs: Seq<Seq<char>>) -> Option<Run> {
    match crate::builder::cut_suffix(r.text, sufs) {
        Some(c) => Some(Run { text: c, noted: r.noted, cells: r.cells, state: r.state }),
        None => if loose { Some(r) } else { None },
    }
}

impl Build {
    /// Takes the first of the suffixes off the query, as `cut` does, and tells
    /// whether the query is still complete.
    pub(crate) fn cut_tracked(&mut self, strs: &[&str], params: &Params, Ghost(run): Ghost<Run>, dynamic: bool, checked: bool, certain: bool) -> (ok: bool)
        requires
            tracks(*old(self), *params, run, dynamic, checked, certain),
        ensures
            ok == cut_run(dynamic && !checked, run, crate::builder::views(strs@)) is Some,
            ok ==> tracks(*final(self), *params, cut_run(dynamic && !checked, run, crate::builder::views(strs@))->Some_0, dynamic, checked, certain),
            old(self).model() matches Some((ps, p)) ==> final(self).model() == Some(cut_model(ps, p, crate::builder::views(strs@), old(self).optional)),
            final(self).saved == old(self).saved,
    {
        self.cut(strs)
    }
}


/// The parameters after setting `k` to `v`, each value displaced moving one step
/// down the chain `k`, `self__k`, ... (see `Params::displace`).
pub open spec fn displaced_map(m: Map<Seq<char>, Param>, k: Seq<char>, v: Param) -> Map<Seq<char>, Param> {
    shifted(m, k, v, free_step(m, k))
}

impl Params {
    /// Sets `key` to `val` as `displace` does, with the outcome stated as a function.
    pub fn set(&mut self, key: &str, val: Value)
        requires
            old(self).wf(),
            old(self).valid(val@),
        ensures
            final(self).wf(),
            final(self).map() == displaced_map(old(self).map(), key@, val@),
            final(self).state == old(self).state,
            final(self).cells == old(self).cells,
    {
        let ghost v = val@;
        self.displace(key, val);
        proof {
            let n = choose|n: nat| displaced(old(self).map(), self.map(), key@, v, n);
            lemma_displaced_unique(old(self).map(), self.map(), key@, v, n);
        }
    }
}

} // verus!
