use vstd::prelude::*;
use crate::builder::{Piece, flush};
use crate::params::{Param, Run, applied, outputted, put, placed, first_from, lemma_first_from, token, lemma_token, all_white, trim};
use crate::ident::resolved_ident;
use crate::write::{Wrapper, decimal};
use crate::error::Failure;
use crate::query::{arg_alone, written, info_lines};
use crate::construct::{Construct, Column, Code, Nullable, flat_step, join_rest, spec_correlate, spec_column, resolved_column, spec_flat, flat_from, or_else};
use crate::select::{Target, Scalar, Returns, selected, select_map, scalar_selected, scalars_selected, modified};
use crate::insert::{insert_columns_pieces, insert_field, insert_field_pieces};
use crate::update::{update_key, update_value, update_field_pieces};
use crate::delete::{delete_field, delete_field_pieces};
use crate::search::{select_field, select_field_pieces};
use crate::types::{DeleteTable, InsertTable, UpdateTable, SelectTable};

verus! {

/// The text that a field's filter lines write, with `$i` its bind and `$column`
/// its column, after the run `r`.
pub open spec fn filter_text(m: Map<Seq<char>, Param>, r: Run, f: int, column: Seq<char>, ls: Seq<Seq<char>>) -> Seq<char> {
    arg_alone(m.insert("i"@, Param::Cell(f as usize)).insert("column"@, Param::Text(column)), r, ls, None).text
}

/// The `Write` piece that a field's filter lines make in a dynamic query.
pub open spec fn filter_piece(m: Map<Seq<char>, Param>, r: Run, f: int, column: Seq<char>, ls: Seq<Seq<char>>) -> Piece {
    let m1 = m.insert("i"@, Param::Cell(f as usize)).insert("column"@, Param::Text(column));
    written(m1, arg_alone(m1, r, ls, None), ls, None)
}

/// The pieces after a parenthesised filter: appended to the stream, or, for an
/// optional field, standing apart in a `Present` piece of the field.
pub open spec fn filtered_pieces(start: (Seq<Piece>, Seq<char>), optional: bool, f: int, w: Piece) -> (Seq<Piece>, Seq<char>) {
    if optional {
        (flush(start.0, start.1).push(Piece::Present(f as usize, seq![Piece::Text("\t("@), w, Piece::Text(") AND\n"@)])), Seq::empty())
    } else {
        (flush(start.0, start.1 + "\t("@).push(w), ") AND\n"@)
    }
}

/// A key field of an update struct that has `filter` lines is filtered by those
/// lines, in parentheses and followed by ` AND`, with `$i` its bind and `$column`
/// its column; its column is not compared with its bind. In a dynamic query the
/// lines make one `Write` piece between the same texts.
pub proof fn law_update_key_filter(t: UpdateTable, m: Map<Seq<char>, Param>, r: Run, f: int, start: (Seq<Piece>, Seq<char>))
    requires
        0 <= f < t.fields@.len(),
        t.fields@[f].attr.filter@.len() > 0,
    ensures
        ({
            let column = t.spec_declaration(t.fields@[f]).0;
            let ls = info_lines(t.fields@[f].attr.filter@);
            &&& update_key(t, m, r, f) matches Ok((_, r2)) ==> r2.text == r.text + "\t("@ + filter_text(m, r, f, column, ls) + ") AND\n"@
            &&& update_field_pieces(t, true, m, r, f, start)
                == filtered_pieces(start, t.spec_optional(t.fields@[f]) is Some, f, filter_piece(m, r, f, column, ls))
        }),
{
    let column = t.spec_declaration(t.fields@[f]).0;
    let ls = info_lines(t.fields@[f].attr.filter@);
    assert(ls.len() > 0);
    if let Ok((_, r2)) = update_key(t, m, r, f) {
        assert(r2.text =~= r.text + "\t("@ + filter_text(m, r, f, column, ls) + ") AND\n"@);
    }
    reveal_strlit("\t(");
    reveal_strlit(") AND\n");
    assert(flush(Seq::empty(), Seq::<char>::empty() + "\t("@) =~= seq![Piece::Text("\t("@)]);
    assert(flush(seq![Piece::Text("\t("@)].push(filter_piece(m, r, f, column, ls)), ") AND\n"@)
        =~= seq![Piece::Text("\t("@), filter_piece(m, r, f, column, ls), Piece::Text(") AND\n"@)]);
}

/// A field of a select struct that has `filter` lines is filtered by those lines,
/// in parentheses and followed by ` AND`, with `$i` its bind and `$column` its
/// column; its qualified column is not compared with its bind. In a dynamic query
/// the lines make one `Write` piece between the same texts.
pub proof fn law_select_field_filter(t: SelectTable, table: Seq<char>, m: Map<Seq<char>, Param>, r: Run, f: int, start: (Seq<Piece>, Seq<char>))
    requires
        0 <= f < t.fields@.len(),
        t.fields@[f].attr.filter@.len() > 0,
    ensures
        ({
            let column = t.spec_declaration(t.fields@[f]).0;
            let ls = info_lines(t.fields@[f].attr.filter@);
            &&& select_field(t, table, m, r, f) matches Ok((_, r2)) ==> r2.text == r.text + "\t("@ + filter_text(m, r, f, column, ls) + ") AND\n"@
            &&& select_field_pieces(t, table, m, r, f, start)
                == filtered_pieces(start, t.spec_optional(t.fields@[f]) is Some, f, filter_piece(m, r, f, column, ls))
        }),
{
    let column = t.spec_declaration(t.fields@[f]).0;
    let ls = info_lines(t.fields@[f].attr.filter@);
    assert(ls.len() > 0);
    if let Ok((_, r2)) = select_field(t, table, m, r, f) {
        assert(r2.text =~= r.text + "\t("@ + filter_text(m, r, f, column, ls) + ") AND\n"@);
    }
    reveal_strlit("\t(");
    reveal_strlit(") AND\n");
    assert(flush(Seq::empty(), Seq::<char>::empty() + "\t("@) =~= seq![Piece::Text("\t("@)]);
    assert(flush(seq![Piece::Text("\t("@)].push(filter_piece(m, r, f, column, ls)), ") AND\n"@)
        =~= seq![Piece::Text("\t("@), filter_piece(m, r, f, column, ls), Piece::Text(") AND\n"@)]);
}

/// A field of a delete struct that has `filter` lines is filtered by those
/// lines, in parentheses and followed by ` AND`, with `$i` its bind and `$column`
/// its column; its column is not compared with its bind. In a dynamic query the
/// lines make one `Write` piece between the same texts.
pub proof fn law_delete_field_filter(t: DeleteTable, m: Map<Seq<char>, Param>, r: Run, f: int, start: (Seq<Piece>, Seq<char>))
    requires
        0 <= f < t.fields@.len(),
        t.fields@[f].attr.filter@.len() > 0,
    ensures
        ({
            let column = t.spec_declaration(t.fields@[f]).0;
            let ls = info_lines(t.fields@[f].attr.filter@);
            &&& delete_field(t, m, r, f) matches Ok((_, r2)) ==> r2.text == r.text + "\t("@ + filter_text(m, r, f, column, ls) + ") AND\n"@
            &&& delete_field_pieces(t, m, r, f, start)
                == filtered_pieces(start, t.spec_optional(t.fields@[f]) is Some, f, filter_piece(m, r, f, column, ls))
        }),
{
    let column = t.spec_declaration(t.fields@[f]).0;
    let ls = info_lines(t.fields@[f].attr.filter@);
    assert(ls.len() > 0);
    if let Ok((_, r2)) = delete_field(t, m, r, f) {
        assert(r2.text =~= r.text + "\t("@ + filter_text(m, r, f, column, ls) + ") AND\n"@);
    }
    reveal_strlit("\t(");
    reveal_strlit(") AND\n");
    assert(flush(Seq::empty(), Seq::<char>::empty() + "\t("@) =~= seq![Piece::Text("\t("@)]);
    assert(flush(seq![Piece::Text("\t("@)].push(filter_piece(m, r, f, column, ls)), ") AND\n"@)
        =~= seq![Piece::Text("\t("@), filter_piece(m, r, f, column, ls), Piece::Text(") AND\n"@)]);
}

/// The pieces after a value line: appended to the stream, or, for an optional
/// field, standing apart in a `Present` piece of the field.
pub open spec fn valued_pieces(start: (Seq<Piece>, Seq<char>), optional: bool, f: int, w: Piece) -> (Seq<Piece>, Seq<char>) {
    if optional {
        (flush(start.0, start.1).push(Piece::Present(f as usize, seq![Piece::Text("\t"@), w, Piece::Text(",\n"@)])), Seq::empty())
    } else {
        (flush(start.0, start.1 + "\t"@).push(w), ",\n"@)
    }
}

/// A value field of an update struct that has `update` lines is set by those
/// lines on a line of their own followed by `,`, with `$i` its bind and
/// `$column` its column; its column is not set to its bind. In a dynamic query
/// the lines make one `Write` piece between the same texts.
pub proof fn law_update_value_lines(t: UpdateTable, m: Map<Seq<char>, Param>, r: Run, f: int, start: (Seq<Piece>, Seq<char>))
    requires
        0 <= f < t.fields@.len(),
        t.fields@[f].attr.update@.len() > 0,
    ensures
        ({
            let column = t.spec_declaration(t.fields@[f]).0;
            let ls = info_lines(t.fields@[f].attr.update@);
            &&& update_value(t, m, r, f) matches Ok((_, r2)) ==> r2.text == r.text + "\t"@ + filter_text(m, r, f, column, ls) + ",\n"@
            &&& update_field_pieces(t, false, m, r, f, start)
                == valued_pieces(start, t.spec_optional(t.fields@[f]) is Some, f, filter_piece(m, r, f, column, ls))
        }),
{
    let column = t.spec_declaration(t.fields@[f]).0;
    let ls = info_lines(t.fields@[f].attr.update@);
    assert(ls.len() > 0);
    if let Ok((_, r2)) = update_value(t, m, r, f) {
        assert(r2.text =~= r.text + "\t"@ + filter_text(m, r, f, column, ls) + ",\n"@);
    }
    reveal_strlit("\t");
    reveal_strlit(",\n");
    assert(flush(Seq::empty(), Seq::<char>::empty() + "\t"@) =~= seq![Piece::Text("\t"@)]);
    assert(flush(seq![Piece::Text("\t"@)].push(filter_piece(m, r, f, column, ls)), ",\n"@)
        =~= seq![Piece::Text("\t"@), filter_piece(m, r, f, column, ls), Piece::Text(",\n"@)]);
}

/// A field of an insert struct that has `insert` lines gives its value by those
/// lines on a line of their own followed by `,`, with `$i` its bind; its bind is
/// not written alone. In a dynamic query the lines make one `Write` piece between
/// the same texts.
pub proof fn law_insert_value_lines(t: InsertTable, m: Map<Seq<char>, Param>, r: Run, f: int, start: (Seq<Piece>, Seq<char>))
    requires
        0 <= f < t.fields@.len(),
        t.fields@[f].attr.insert@.len() > 0,
    ensures
        ({
            let ls = info_lines(t.fields@[f].attr.insert@);
            let m1 = m.insert("i"@, Param::Cell(f as usize));
            &&& insert_field(t, m, r, f) matches Ok((_, r2)) ==> r2.text == r.text + "\t"@ + arg_alone(m1, r, ls, None).text + ",\n"@
            &&& insert_field_pieces(t, m, r, f, start)
                == valued_pieces(start, t.spec_optional(t.fields@[f]) is Some, f, written(m1, arg_alone(m1, r, ls, None), ls, None))
        }),
{
    let ls = info_lines(t.fields@[f].attr.insert@);
    let m1 = m.insert("i"@, Param::Cell(f as usize));
    let w = written(m1, arg_alone(m1, r, ls, None), ls, None);
    assert(ls.len() > 0);
    if let Ok((_, r2)) = insert_field(t, m, r, f) {
        assert(r2.text =~= r.text + "\t"@ + arg_alone(m1, r, ls, None).text + ",\n"@);
    }
    reveal_strlit("\t");
    reveal_strlit(",\n");
    assert(flush(Seq::empty(), Seq::<char>::empty() + "\t"@) =~= seq![Piece::Text("\t"@)]);
    assert(flush(seq![Piece::Text("\t"@)].push(w), ",\n"@) =~= seq![Piece::Text("\t"@), w, Piece::Text(",\n"@)]);
}

/// Whether the pieces end with a `Present` piece of field `f`, nothing pending.
pub open spec fn ends_present(p: (Seq<Piece>, Seq<char>), f: int) -> bool {
    &&& p.1.len() == 0
    &&& p.0.len() > 0
    &&& p.0.last() matches Piece::Present(i, _) && i == f
}

/// In a dynamic insert query, a field's value stands in a `Present` piece of the
/// field exactly when its column does, and that is when the field is optional:
/// the value is written exactly when the column is.
pub proof fn law_insert_present_together(t: InsertTable, m: Map<Seq<char>, Param>, r: Run, f: int,
    columns: (Seq<Piece>, Seq<char>), values: (Seq<Piece>, Seq<char>))
    requires
        0 <= f < t.fields@.len(),
        t.fields@[f].attr.skip is None,
    ensures
        ends_present(insert_columns_pieces(t, f + 1, columns), f) == (t.spec_optional(t.fields@[f]) is Some),
        ends_present(insert_field_pieces(t, m, r, f, values), f) == (t.spec_optional(t.fields@[f]) is Some),
{
    reveal_strlit("\t\"");
    reveal_strlit("\",\n");
    reveal_strlit("\t");
    reveal_strlit(",\n");
    assert((f as usize) as int == f) by {
        assert(t.fields.len() <= usize::MAX);
    }
    let optional = t.spec_optional(t.fields@[f]) is Some;
    let prev = insert_columns_pieces(t, f, columns);
    let text = "\t\""@ + t.spec_declaration(t.fields@[f]).0 + "\",\n"@;
    assert(insert_columns_pieces(t, f + 1, columns) == crate::query::opt_text(prev, optional, f as usize, text));
    assert(text.len() > 0);
    if !optional {
        assert((prev.1 + text).len() > 0);
    }
    let field = t.fields@[f];
    let ls = info_lines(field.attr.insert@);
    if !optional {
        assert(insert_field_pieces(t, m, r, f, values).1 == ",\n"@);
    }
}

/// A joined struct given no join lines is joined with `LEFT JOIN` where it may be
/// absent (an `Option` or a default) or lies inside a join that may be absent,
/// else with `INNER JOIN`: the joins so far are followed by a new line that starts
/// with that keyword, and nothing is selected for the joining field itself.
pub proof fn law_join_kind<'c>(q: Seq<char>, joins: Seq<char>, c: Construct<'c>, col: Column<'c>, opt: Option<Nullable>, target: Target)
    requires
        col.code is Foreign,
        col.field.attr.joins@.len() == 0,
        flat_step(q, joins, (c, col, opt), target) is Ok,
    ensures
        ({
            let (q2, j2) = flat_step(q, joins, (c, col, opt), target)->Ok_0;
            let keyword = if col.code->Foreign_0.spec_nullable() is Some || opt is Some { "LEFT JOIN"@ } else { "INNER JOIN"@ };
            let head = joins + "\n"@ + keyword;
            &&& q2 == q
            &&& head.len() <= j2.len()
            &&& j2.subrange(0, head.len() as int) == head
        }),
{
    let d = col.code->Foreign_0;
    let keyword = if d.spec_nullable() is Some || opt is Some { "LEFT JOIN"@ } else { "INNER JOIN"@ };
    let head = joins + "\n"@ + keyword;
    let j2 = flat_step(q, joins, (c, col, opt), target)->Ok_0.1;
    match spec_correlate(d, col) {
        Err(_) => {
            assert(flat_step(q, joins, (c, col, opt), target) is Err) by { reveal(flat_step); }
        }
        Ok(res) => match spec_column(col) {
            Err(_) => {
                assert(flat_step(q, joins, (c, col, opt), target) is Err) by { reveal(flat_step); }
            }
            Ok(column) => match resolved_column(d, res) {
                Err(_) => {
                    assert(flat_step(q, joins, (c, col, opt), target) is Err) by { reveal(flat_step); }
                }
                Ok(foreign) => {
                    assert(flat_step(q, joins, (c, col, opt), target)
                        == Ok::<(Seq<char>, Seq<char>), crate::error::Failure>((q, head + join_rest(c, d, foreign, column)))) by { reveal(flat_step); }
                    assert(j2.subrange(0, head.len() as int) =~= head);
                }
            },
        },
    }
}

/// A run whose text has `pre` in front.
pub open spec fn after(pre: Seq<char>, r: Run) -> Run {
    Run { text: pre + r.text, noted: r.noted, cells: r.cells, state: r.state }
}

/// Writing after some text writes the same after it.
proof fn lemma_placed_after<W: Wrapper>(pre: Seq<char>, r: Run, v: Param)
    ensures
        placed::<W>(after(pre, r), v) == after(pre, placed::<W>(r, v)),
{
    let r1 = put::<W>(r, seq!['$']);
    assert(put::<W>(after(pre, r), seq!['$']) == after(pre, r1)) by {
        assert((pre + r.text) + W::rendered(seq!['$']) =~= pre + (r.text + W::rendered(seq!['$'])));
    }
    match v {
        Param::Text(t) => {
            assert((pre + r.text) + W::rendered(t) =~= pre + (r.text + W::rendered(t)));
        }
        Param::Cell(c) => {
            let d = r.cells[c as int].0;
            if W::is_outer() {
                assert((pre + r1.text) + W::raw(seq!['{']) + W::raw(d.name@) + W::raw(seq!['}'])
                    =~= pre + (r1.text + W::raw(seq!['{']) + W::raw(d.name@) + W::raw(seq!['}'])));
            } else {
                match d.index {
                    Some(i) => {
                        assert((pre + r1.text) + W::rendered(decimal(i as nat)) =~= pre + (r1.text + W::rendered(decimal(i as nat))));
                    }
                    None => {
                        let i = r1.state.len() + 1;
                        assert((pre + r1.text) + W::rendered(decimal(i)) =~= pre + (r1.text + W::rendered(decimal(i))));
                    }
                }
            }
        }
    }
}

/// Replacing placeholders after some text gives the same after it.
proof fn lemma_applied_after<W: Wrapper>(m: Map<Seq<char>, Param>, pre: Seq<char>, r: Run, v: Seq<char>, p: int)
    ensures
        applied::<W>(m, after(pre, r), v, p) == match applied::<W>(m, r, v, p) {
            Ok(x) => Ok::<Run, Failure>(after(pre, x)),
            Err(e) => Err(e),
        },
    decreases v.len() - p,
{
    if 0 <= p <= v.len() {
        lemma_first_from(v, p, '$');
        match first_from(v, p, '$') {
            None => {
                let s = v.subrange(p, v.len() as int);
                assert((pre + r.text) + W::rendered(s) =~= pre + (r.text + W::rendered(s)));
            }
            Some(i) => {
                if i + 1 < v.len() && v[i + 1] == '$' {
                    let s = v.subrange(p, i + 1);
                    assert((pre + r.text) + W::rendered(s) =~= pre + (r.text + W::rendered(s)));
                    assert(put::<W>(after(pre, r), s) == after(pre, put::<W>(r, s)));
                    lemma_applied_after::<W>(m, pre, put::<W>(r, s), v, i + 2);
                } else {
                    lemma_token(v, i);
                    match token(v, i) {
                        Err(f) => {}
                        Ok((var, next)) => {
                            if !all_white(var) {
                                if let Some(id) = resolved_ident(var) {
                                    if m.contains_key(id) {
                                        let s = v.subrange(p, i);
                                        assert((pre + r.text) + W::rendered(s) =~= pre + (r.text + W::rendered(s)));
                                        assert(put::<W>(after(pre, r), s) == after(pre, put::<W>(r, s)));
                                        lemma_placed_after::<W>(pre, put::<W>(r, s), m[id]);
                                        lemma_applied_after::<W>(m, pre, placed::<W>(put::<W>(r, s), m[id]), v, next);
                                    }
                                }
                            }
                        }
                    }
                }
            }
        }
    }
}

/// Writing lines after some text gives the same after it.
proof fn lemma_outputted_after<W: Wrapper>(m: Map<Seq<char>, Param>, pre: Seq<char>, r: Run, ls: Seq<Seq<char>>)
    ensures
        outputted::<W>(m, after(pre, r), ls) == match outputted::<W>(m, r, ls) {
            Ok(x) => Ok::<Run, (Failure, int)>(after(pre, x)),
            Err(e) => Err(e),
        },
    decreases ls.len(),
{
    if ls.len() > 0 {
        lemma_outputted_after::<W>(m, pre, r, ls.drop_last());
        if let Ok(a) = outputted::<W>(m, r, ls.drop_last()) {
            let a2 = if ls.len() > 1 { put::<W>(a, seq!['\n', '\t']) } else { a };
            if ls.len() > 1 {
                assert((pre + a.text) + W::rendered(seq!['\n', '\t']) =~= pre + (a.text + W::rendered(seq!['\n', '\t'])));
            }
            assert((if ls.len() > 1 { put::<W>(after(pre, a), seq!['\n', '\t']) } else { after(pre, a) }) == after(pre, a2));
            lemma_applied_after::<W>(m, pre, a2, trim(ls.last()), 0);
        }
    }
}

/// A selected column written after some text is written the same after it, and
/// its line ends with `,\n`.
proof fn lemma_selected_after(q: Seq<char>, ls: Seq<Seq<char>>, table: Seq<char>, column: Seq<char>, alias: Seq<char>, modifier: Seq<char>)
    ensures
        selected(q, ls, table, column, alias, modifier) == match selected(Seq::empty(), ls, table, column, alias, modifier) {
            Ok(y) => Ok::<Seq<char>, Failure>(q + y),
            Err(e) => Err(e),
        },
        selected(Seq::empty(), ls, table, column, alias, modifier) matches Ok(y)
            ==> y.len() >= 2 && y.skip(y.len() - 2) == ",\n"@,
{
    reveal_strlit(",\n");
    reveal_strlit("\",\n");
    let r0 = Run { text: Seq::<char>::empty() + "\t"@, noted: Seq::empty(), cells: Seq::empty(), state: Seq::empty() };
    let rq = Run { text: q + "\t"@, noted: Seq::empty(), cells: Seq::empty(), state: Seq::empty() };
    assert(rq == after(q, r0)) by {
        assert(q + "\t"@ =~= q + (Seq::<char>::empty() + "\t"@));
    }
    lemma_outputted_after::<String>(select_map(table, column), q, r0, ls);
    if ls.len() > 0 {
        if let Ok(x) = outputted::<String>(select_map(table, column), r0, ls) {
            let tail = " AS \""@ + alias + modifier + "\",\n"@;
            assert((q + x.text) + " AS \""@ + alias + modifier + "\",\n"@ =~= q + (x.text + " AS \""@ + alias + modifier + "\",\n"@));
            let y = x.text + " AS \""@ + alias + modifier + "\",\n"@;
            assert(y.skip(y.len() - 2) =~= ",\n"@);
        }
    } else if column == alias && modifier.len() == 0 {
        let y = Seq::<char>::empty() + "\t\""@ + table + "\".\""@ + column + "\",\n"@;
        assert(q + "\t\""@ + table + "\".\""@ + column + "\",\n"@ =~= q + y);
        assert(y.skip(y.len() - 2) =~= ",\n"@);
    } else {
        let y = Seq::<char>::empty() + "\t\""@ + table + "\".\""@ + column + "\" AS \""@ + alias + modifier + "\",\n"@;
        assert(q + "\t\""@ + table + "\".\""@ + column + "\" AS \""@ + alias + modifier + "\",\n"@ =~= q + y);
        assert(y.skip(y.len() - 2) =~= ",\n"@);
    }
}

/// The lines joined by `,\n`.
pub open spec fn joined_lines(xs: Seq<Seq<char>>) -> Seq<char>
    decreases xs.len(),
{
    if xs.len() == 0 {
        Seq::empty()
    } else if xs.len() == 1 {
        xs[0]
    } else {
        joined_lines(xs.drop_last()) + ",\n"@ + xs.last()
    }
}

/// The line a returned field gives on its own, without a following `,\n`.
pub open spec fn own_line<K>(s: Scalar<K>, target: Target) -> Seq<char> {
    let y = scalar_selected(Seq::empty(), s, target)->Ok_0;
    y.take(y.len() - 2)
}

/// The text after the first `n` returned fields.
proof fn lemma_scalars_text<K>(h: Seq<char>, v: Seq<Scalar<K>>, target: Target, n: int)
    requires
        1 <= n <= v.len(),
        forall|i: int| 0 <= i < v.len() ==> #[trigger] scalar_selected(Seq::empty(), v[i], target) is Ok,
    ensures
        scalars_selected(h, v, target, n) == Ok::<Seq<char>, Failure>(
            h + joined_lines(Seq::new(n as nat, |i: int| own_line(v[i], target))) + ",\n"@),
    decreases n,
{
    reveal_strlit(",\n");
    let s = v[n - 1];
    let y = scalar_selected(Seq::empty(), s, target)->Ok_0;
    assert(scalar_selected(Seq::empty(), v[n - 1], target) is Ok);
    let xs = Seq::new(n as nat, |i: int| own_line(v[i], target));
    if n == 1 {
        lemma_selected_after(h, s.spec_lines(), "self"@, s.spec_declaration().0, s.spec_alias(), modified(s.spec_declaration().1, target));
        assert(scalars_selected(h, v, target, 0) == Ok::<Seq<char>, Failure>(h));
        assert(y =~= own_line(s, target) + ",\n"@);
        assert(joined_lines(xs) == xs[0]);
        assert(h + y =~= h + joined_lines(xs) + ",\n"@);
    } else {
        lemma_scalars_text(h, v, target, n - 1);
        let prev = h + joined_lines(Seq::new((n - 1) as nat, |i: int| own_line(v[i], target))) + ",\n"@;
        lemma_selected_after(prev, s.spec_lines(), "self"@, s.spec_declaration().0, s.spec_alias(), modified(s.spec_declaration().1, target));
        assert(y =~= own_line(s, target) + ",\n"@);
        assert(xs.drop_last() =~= Seq::new((n - 1) as nat, |i: int| own_line(v[i], target)));
        assert(xs.last() == own_line(s, target));
        assert(prev + y =~= h + joined_lines(xs) + ",\n"@);
    }
}

/// A tuple of returned fields returns each field as it returns alone, one line
/// per field, in the order named, separated by `,\n`; where a field cannot be
/// returned, the tuple cannot either.
pub proof fn law_tuple_returning<'c, K>(ret: Returns<'c, K>, target: Target)
    requires
        ret is Tuple,
        ret->Tuple_0@.len() > 0,
    ensures
        ({
            let v = ret->Tuple_0@;
            &&& (forall|i: int| 0 <= i < v.len() ==> #[trigger] scalar_selected(Seq::empty(), v[i], target) is Ok) ==> {
                &&& ret.spec_returned(target) == Ok::<Seq<char>, Failure>(
                    "\nRETURNING\n"@ + joined_lines(Seq::new(v.len(), |i: int| own_line(v[i], target))))
                &&& forall|i: int| 0 <= i < v.len() ==> #[trigger] Returns::<'c, K>::Scalar(v[i]).spec_returned(target)
                    == Ok::<Seq<char>, Failure>("\nRETURNING\n"@ + own_line(v[i], target))
            }
            &&& (exists|i: int| 0 <= i < v.len() && #[trigger] scalar_selected(Seq::empty(), v[i], target) is Err) ==> ret.spec_returned(target) is Err
        }),
{
    let v = ret->Tuple_0@;
    let h = "\nRETURNING\n"@;
    reveal_strlit(",\n");
    if forall|i: int| 0 <= i < v.len() ==> #[trigger] scalar_selected(Seq::empty(), v[i], target) is Ok {
        lemma_scalars_text(h, v, target, v.len() as int);
        let body = h + joined_lines(Seq::new(v.len(), |i: int| own_line(v[i], target)));
        assert((body + ",\n"@).skip((body + ",\n"@).len() - 2) =~= ",\n"@);
        assert((body + ",\n"@).take((body + ",\n"@).len() - 2) =~= body);
        assert forall|i: int| 0 <= i < v.len() implies #[trigger] Returns::<'c, K>::Scalar(v[i]).spec_returned(target)
            == Ok::<Seq<char>, Failure>(h + own_line(v[i], target)) by {
            let s = v[i];
            lemma_selected_after(h, s.spec_lines(), "self"@, s.spec_declaration().0, s.spec_alias(), modified(s.spec_declaration().1, target));
            let y = scalar_selected(Seq::empty(), s, target)->Ok_0;
            assert(y =~= own_line(s, target) + ",\n"@);
            assert(h + y =~= (h + own_line(s, target)) + ",\n"@);
            let z = (h + own_line(s, target)) + ",\n"@;
            assert(z.skip(z.len() - 2) =~= ",\n"@);
            assert(z.take(z.len() - 2) =~= h + own_line(s, target));
        }
    }
    if exists|i: int| 0 <= i < v.len() && #[trigger] scalar_selected(Seq::empty(), v[i], target) is Err {
        let k = choose|i: int| 0 <= i < v.len() && #[trigger] scalar_selected(Seq::empty(), v[i], target) is Err;
        lemma_scalars_err_at(h, v, target, k, v.len() as int);
    }
}

/// A field that cannot be returned alone fails every list that holds it.
proof fn lemma_scalars_err_at<K>(h: Seq<char>, v: Seq<Scalar<K>>, target: Target, k: int, n: int)
    requires
        0 <= k < n <= v.len(),
        scalar_selected(Seq::empty(), v[k], target) is Err,
    ensures
        scalars_selected(h, v, target, n) is Err,
    decreases n,
{
    if n - 1 > k {
        lemma_scalars_err_at(h, v, target, k, n - 1);
    } else {
        if let Ok(q) = scalars_selected(h, v, target, k) {
            let s = v[k];
            lemma_selected_after(q, s.spec_lines(), "self"@, s.spec_declaration().0, s.spec_alias(), modified(s.spec_declaration().1, target));
        }
    }
}

/// Whether the entries of a flattened construct carry how they may be absent:
/// with `opt` given (the construct lies inside a join that may be absent) every
/// entry may be absent; an entry of a joined struct that may itself be absent
/// may be absent; and where nothing may be absent, no entry may be.
pub open spec fn carries_absence<'c>(es: Seq<(Construct<'c>, Column<'c>, Option<Nullable>)>, opt: Option<Nullable>) -> bool {
    &&& opt is Some ==> forall|i: int| 0 <= i < es.len() ==> (#[trigger] es[i]).2 is Some
    &&& forall|i: int| 0 <= i < es.len() && (#[trigger] es[i]).0.spec_nullable() is Some ==> es[i].2 is Some
    &&& (opt is None && forall|i: int| 0 <= i < es.len() ==> (#[trigger] es[i]).0.spec_nullable() is None)
        ==> forall|i: int| 0 <= i < es.len() ==> (#[trigger] es[i]).2 is None
}

proof fn lemma_flat_from_absence<'c>(c: Construct<'c>, opt: Option<Nullable>, k: int)
    requires
        c.spec_nullable() is Some ==> opt is Some,
    ensures
        carries_absence(flat_from(c, opt, k), opt),
    decreases c, 0int, k,
{
    if k <= 0 || k > c.fields@.len() {
        assert(flat_from(c, opt, k) =~= Seq::empty());
    } else {
        lemma_flat_from_absence(c, opt, k - 1);
        let col = c.fields@[k - 1];
        let prev = flat_from(c, opt, k - 1).push((c, col, opt));
        let rest = match col.code {
            Code::Foreign(d) => spec_flat(d, or_else(d.spec_nullable(), opt)),
            _ => Seq::empty(),
        };
        if let Code::Foreign(d) = col.code {
            lemma_flat_absence(d, or_else(d.spec_nullable(), opt));
        }
        let es = flat_from(c, opt, k);
        assert(es == prev + rest) by { reveal(spec_flat); }
        assert forall|i: int| 0 <= i < es.len() && (#[trigger] es[i]).0.spec_nullable() is Some implies es[i].2 is Some by {
            if i >= prev.len() {
                assert(es[i] == rest[i - prev.len()]);
            } else if i < prev.len() - 1 {
                assert(es[i] == flat_from(c, opt, k - 1)[i]);
            }
        }
        if opt is Some {
            assert forall|i: int| 0 <= i < es.len() implies (#[trigger] es[i]).2 is Some by {
                if i >= prev.len() {
                    assert(es[i] == rest[i - prev.len()]);
                } else if i < prev.len() - 1 {
                    assert(es[i] == flat_from(c, opt, k - 1)[i]);
                }
            }
        }
        if opt is None && forall|i: int| 0 <= i < es.len() ==> (#[trigger] es[i]).0.spec_nullable() is None {
            assert forall|i: int| 0 <= i < flat_from(c, opt, k - 1).len() implies (#[trigger] flat_from(c, opt, k - 1)[i]).0.spec_nullable() is None by {
                assert(es[i] == flat_from(c, opt, k - 1)[i]);
            }
            if let Code::Foreign(d) = col.code {
                if rest.len() > 0 {
                    assert(es[prev.len() as int] == rest[0]);
                    lemma_flat_owner(d, or_else(d.spec_nullable(), opt));
                    assert(rest[0].0 == d);
                }
                assert forall|i: int| 0 <= i < rest.len() implies (#[trigger] rest[i]).0.spec_nullable() is None by {
                    assert(es[i + prev.len()] == rest[i]);
                }
            }
            assert forall|i: int| 0 <= i < es.len() implies (#[trigger] es[i]).2 is None by {
                if i >= prev.len() {
                    assert(es[i] == rest[i - prev.len()]);
                } else if i < prev.len() - 1 {
                    assert(es[i] == flat_from(c, opt, k - 1)[i]);
                }
            }
        }
    }
}

/// The first entry of a flattened construct is its own first column.
proof fn lemma_flat_owner<'c>(c: Construct<'c>, opt: Option<Nullable>)
    ensures
        spec_flat(c, opt).len() > 0 ==> spec_flat(c, opt)[0].0 == c,
{
    reveal(spec_flat);
    lemma_flat_from_owner(c, opt, c.fields@.len() as int);
}

proof fn lemma_flat_from_owner<'c>(c: Construct<'c>, opt: Option<Nullable>, k: int)
    ensures
        flat_from(c, opt, k).len() > 0 ==> flat_from(c, opt, k)[0].0 == c,
    decreases k,
{
    if 0 < k <= c.fields@.len() {
        lemma_flat_from_owner(c, opt, k - 1);
        let prev = flat_from(c, opt, k - 1).push((c, c.fields@[k - 1], opt));
        assert(flat_from(c, opt, k)[0] == prev[0]);
    }
}

proof fn lemma_flat_absence<'c>(c: Construct<'c>, opt: Option<Nullable>)
    requires
        c.spec_nullable() is Some ==> opt is Some,
    ensures
        carries_absence(spec_flat(c, opt), opt),
    decreases c, 1int, 0int,
{
    reveal(spec_flat);
    lemma_flat_from_absence(c, opt, c.fields@.len() as int);
}

/// Flattening a struct for its select query passes on how each column may be
/// absent: inside a join that may be absent every column may be; a column of a
/// joined struct that may be absent (an `Option` or a default) may be absent;
/// and where no struct may be absent, no column may be. Columns that may be
/// absent are joined with `LEFT JOIN` (see `law_join_kind`).
pub proof fn law_flat_absence<'c>(c: Construct<'c>, opt: Option<Nullable>)
    requires
        c.spec_nullable() is Some ==> opt is Some,
    ensures
        carries_absence(spec_flat(c, opt), opt),
{
    lemma_flat_absence(c, opt);
}

} // verus!
