use vstd::prelude::*;
use crate::error::{Error, Fault, call_site, Failure};
use crate::table::QueryTable;
use crate::construct::{Code, Column, Construct, Foreign, named, shaped, spec_paved};
use crate::text::push_str;

verus! {

/// The table structs that the `foreign` fields of a construct may join, each by
/// its identifier.
pub struct Local {
    pub tables: Vec<QueryTable>,
}

/// The position of the first table struct of the list, from `from` on, named `id`.
pub open spec fn find_table(tables: Seq<QueryTable>, id: Seq<char>, from: int) -> Option<int>
    decreases tables.len() - from,
{
    if from < 0 || from >= tables.len() {
        None
    } else if tables[from].ident@ == id {
        Some(from)
    } else {
        find_table(tables, id, from + 1)
    }
}

/// What stops field `i` of `t` from being joined, with `fuel` joins left: an
/// invalid `foreign` type, a joined struct missing from the list, or a chain of
/// joins longer than the list (a cycle), or what stops the joined struct.
pub open spec fn field_fault(tables: Seq<QueryTable>, t: QueryTable, i: int, fuel: nat) -> Option<Failure>
    decreases fuel, 0int, 0int,
{
    if 0 <= i < t.fields@.len() {
        match t.spec_code(t.fields@[i]) {
            Err(f) => Some(f),
            Ok(Code::Foreign(f)) => match find_table(tables, f.path@, 0) {
                None => Some((Fault::Unresolved, missing_message(f.path@))),
                Some(k) => if fuel == 0 { Some((Fault::Unresolved, missing_message(f.path@))) } else { table_fault(tables, tables[k], (fuel - 1) as nat) },
            },
            Ok(_) => None,
        }
    } else {
        None
    }
}

/// The first fault among the first `n` fields of `t`.
pub open spec fn fault_upto(tables: Seq<QueryTable>, t: QueryTable, n: int, fuel: nat) -> Option<Failure>
    decreases fuel, 1int, n,
{
    if n <= 0 {
        None
    } else {
        match fault_upto(tables, t, n - 1, fuel) {
            Some(f) => Some(f),
            None => field_fault(tables, t, n - 1, fuel),
        }
    }
}

/// What stops the construct of `t` from being built, with `fuel` joins left.
pub open spec fn table_fault(tables: Seq<QueryTable>, t: QueryTable, fuel: nat) -> Option<Failure>
    decreases fuel, 2int, 0int,
{
    fault_upto(tables, t, t.fields@.len() as int, fuel)
}

/// Whether `col` is column `i` of the construct of `t`: the field, read as
/// `spec_code` says, a joined field holding the construct of the struct it names.
pub open spec fn built_column<'c>(tables: Seq<QueryTable>, t: QueryTable, i: int, col: Column<'c>, fuel: nat) -> bool
    decreases fuel, 0int, 0int,
{
    &&& 0 <= i < t.fields@.len()
    &&& *col.table == t
    &&& *col.field == t.fields@[i]
    &&& col.unique@ == Seq::<char>::empty()
    &&& match t.spec_code(t.fields@[i]) {
        Ok(Code::Skip) => col.code is Skip,
        Ok(Code::Query) => col.code is Query,
        Ok(Code::Foreign(f)) => match (col.code, find_table(tables, f.path@, 0)) {
            (Code::Foreign(d), Some(k)) => fuel > 0 && built(tables, tables[k], Some(f), d, (fuel - 1) as nat),
            _ => false,
        },
        Err(_) => false,
    }
}

/// Whether the first `n` columns are those of the construct of `t`.
pub open spec fn built_upto<'c>(tables: Seq<QueryTable>, t: QueryTable, cols: Seq<Column<'c>>, n: int, fuel: nat) -> bool
    decreases fuel, 1int, n,
{
    if n <= 0 {
        true
    } else {
        &&& built_upto(tables, t, cols, n - 1, fuel)
        &&& n <= cols.len()
        &&& built_column(tables, t, n - 1, cols[n - 1], fuel)
    }
}

/// Whether `c` is the construct of `t`, joined as `foreign` says, before any
/// name is given.
pub open spec fn built<'c>(tables: Seq<QueryTable>, t: QueryTable, foreign: Option<Foreign>, c: Construct<'c>, fuel: nat) -> bool
    decreases fuel, 2int, 0int,
{
    &&& *c.table == t
    &&& c.foreign == foreign
    &&& c.unique@ == Seq::<char>::empty()
    &&& c.fields@.len() == t.fields@.len()
    &&& built_upto(tables, t, c.fields@, t.fields@.len() as int, fuel)
}

/// Whether two strings are equal.
fn same_text(a: &String, b: &String) -> (r: bool)
    ensures
        r == (a@ == b@),
{
    *a == *b
}

/// The message for a struct that cannot be joined.
pub open spec fn missing_message(id: Seq<char>) -> Seq<char> {
    "missing definition: "@ + id + "\nnote: the joined struct must derive Table, without cycles of joins"@
}

/// The error for a struct that cannot be joined.
fn missing(id: &String) -> (e: Error)
    ensures
        e.fault == Fault::Unresolved,
        e.message@ == missing_message(id@),
{
    let mut msg = "missing definition: ".to_owned();
    push_str(&mut msg, id.as_str());
    push_str(&mut msg, "\nnote: the joined struct must derive Table, without cycles of joins");
    Error::new(call_site(), Fault::Unresolved, msg)
}

impl Local {
    /// The first table struct named `id`.
    pub fn get_table<'c>(&'c self, id: &String) -> (r: Result<&'c QueryTable, Error>)
        ensures
            match find_table(self.tables@, id@, 0) {
                Some(k) => r matches Ok(t) && *t == self.tables@[k],
                None => r matches Err(e) && e.fault == Fault::Unresolved && e.message@ == missing_message(id@),
            },
    {
        let mut i: usize = 0;
        while i < self.tables.len()
            invariant
                i <= self.tables@.len(),
                find_table(self.tables@, id@, 0) == find_table(self.tables@, id@, i as int),
            decreases self.tables@.len() - i,
        {
            if same_text(&self.tables[i].ident, id) {
                return Ok(&self.tables[i]);
            }
            i = i + 1;
        }
        Err(missing(id))
    }
}

/// The first struct, among those the first `n` fields of `t` join, that the
/// list lacks.
pub open spec fn wanted_in(tables: Seq<QueryTable>, t: QueryTable, n: int) -> Option<Seq<char>>
    decreases n,
{
    if n <= 0 {
        None
    } else {
        match wanted_in(tables, t, n - 1) {
            Some(p) => Some(p),
            None => if n <= t.fields@.len() {
                match t.spec_code(t.fields@[n - 1]) {
                    Ok(Code::Foreign(f)) => if find_table(tables, f.path@, 0) is None { Some(f.path@) } else { None },
                    _ => None,
                }
            } else {
                None
            },
        }
    }
}

/// The first struct, among those the first `n` structs of `list` join, that the
/// list `tables` lacks.
pub open spec fn wanted_from(tables: Seq<QueryTable>, list: Seq<QueryTable>, n: int) -> Option<Seq<char>>
    decreases n,
{
    if n <= 0 {
        None
    } else {
        match wanted_from(tables, list, n - 1) {
            Some(p) => Some(p),
            None => if n <= list.len() { wanted_in(tables, list[n - 1], list[n - 1].fields@.len() as int) } else { None },
        }
    }
}

/// The first struct that `t` or a struct of the list joins and the list lacks.
pub open spec fn spec_wanted(tables: Seq<QueryTable>, t: QueryTable) -> Option<Seq<char>> {
    match wanted_in(tables, t, t.fields@.len() as int) {
        Some(p) => Some(p),
        None => wanted_from(tables, tables, tables.len() as int),
    }
}

/// The view of an optional string.
pub open spec fn opt_text(o: Option<String>) -> Option<Seq<char>> {
    match o {
        Some(s) => Some(s@),
        None => None,
    }
}

impl Local {
    /// Whether the list holds a struct named `id`.
    pub fn has_table(&self, id: &String) -> (b: bool)
        ensures
            b == find_table(self.tables@, id@, 0) is Some,
    {
        self.get_table(id).is_ok()
    }

    /// The first struct that `t` joins and the list lacks.
    fn wanted_by(&self, t: &QueryTable) -> (r: Option<String>)
        ensures
            opt_text(r) == wanted_in(self.tables@, *t, t.fields@.len() as int),
    {
        let mut i: usize = 0;
        while i < t.fields.len()
            invariant
                i <= t.fields@.len(),
                wanted_in(self.tables@, *t, i as int) is None,
            decreases t.fields@.len() - i,
        {
            if let Ok(Code::Foreign(f)) = t.code(&t.fields[i]) {
                if !self.has_table(&f.path) {
                    proof { lemma_wanted_stays(self.tables@, *t, i + 1, t.fields@.len() as int); }
                    return Some(f.path);
                }
            }
            i = i + 1;
        }
        None
    }

    /// The first struct that `t`, or a struct already in the list, joins and the
    /// list lacks: the list must take it in before `t` can be built.
    pub fn wanted(&self, t: &QueryTable) -> (r: Option<String>)
        ensures
            opt_text(r) == spec_wanted(self.tables@, *t),
    {
        let first = self.wanted_by(t);
        if first.is_some() {
            return first;
        }
        let mut i: usize = 0;
        while i < self.tables.len()
            invariant
                i <= self.tables@.len(),
                wanted_from(self.tables@, self.tables@, i as int) is None,
                wanted_in(self.tables@, *t, t.fields@.len() as int) is None,
            decreases self.tables@.len() - i,
        {
            let r = self.wanted_by(&self.tables[i]);
            if r.is_some() {
                proof {
                    assert(wanted_from(self.tables@, self.tables@, i + 1) == opt_text(r));
                    lemma_wanted_from_stays(self.tables@, i + 1, self.tables@.len() as int);
                }
                return r;
            }
            i = i + 1;
        }
        None
    }
}

/// Once a lacking struct is found among the first fields, it stays the first.
proof fn lemma_wanted_stays(tables: Seq<QueryTable>, t: QueryTable, i: int, m: int)
    requires
        i <= m,
        wanted_in(tables, t, i) is Some,
    ensures
        wanted_in(tables, t, m) == wanted_in(tables, t, i),
    decreases m - i,
{
    if i < m {
        lemma_wanted_stays(tables, t, i, m - 1);
    }
}

/// Once a lacking struct is found among the first structs, it stays the first.
proof fn lemma_wanted_from_stays(tables: Seq<QueryTable>, i: int, m: int)
    requires
        i <= m,
        wanted_from(tables, tables, i) is Some,
    ensures
        wanted_from(tables, tables, m) == wanted_from(tables, tables, i),
    decreases m - i,
{
    if i < m {
        lemma_wanted_from_stays(tables, i, m - 1);
    }
}

/// Whether the first `n` columns are built depends only on those columns.
proof fn lemma_built_upto<'c>(tables: Seq<QueryTable>, t: QueryTable, a: Seq<Column<'c>>, b: Seq<Column<'c>>, n: int, fuel: nat)
    requires
        0 <= n <= a.len(),
        n <= b.len(),
        a.take(n) == b.take(n),
    ensures
        built_upto(tables, t, a, n, fuel) == built_upto(tables, t, b, n, fuel),
    decreases n,
{
    if n > 0 {
        assert(a.take(n - 1) =~= a.take(n).take(n - 1));
        assert(b.take(n - 1) =~= b.take(n).take(n - 1));
        assert(a[n - 1] == a.take(n)[n - 1]);
        assert(b[n - 1] == b.take(n)[n - 1]);
        lemma_built_upto(tables, t, a, b, n - 1, fuel);
    }
}

/// Once a fault is found among the first fields, it stays the first.
proof fn lemma_fault_stays(tables: Seq<QueryTable>, t: QueryTable, i: int, m: int, fuel: nat)
    requires
        i <= m,
        fault_upto(tables, t, i, fuel) is Some,
    ensures
        fault_upto(tables, t, m, fuel) == fault_upto(tables, t, i, fuel),
    decreases m - i,
{
    if i < m {
        lemma_fault_stays(tables, t, i, m - 1, fuel);
    }
}

impl QueryTable {
    /// The construct of the table struct: each field as `code` reads it, each
    /// joined field holding the construct of the struct it names in `local`, with
    /// at most `fuel` joins in a chain; no names given yet.
    pub fn locolate<'c>(&'c self, local: &'c Local, fuel: usize) -> (r: Result<Construct<'c>, Error>)
        ensures
            match table_fault(local.tables@, *self, fuel as nat) {
                None => r matches Ok(c) && built(local.tables@, *self, None, c, fuel as nat),
                Some(f) => r matches Err(e) && e.fault == f.0 && e.message@ == f.1,
            },
        decreases fuel,
    {
        let ghost tables = local.tables@;
        let mut fields: Vec<Column<'c>> = Vec::new();
        let mut i: usize = 0;
        let n = self.fields.len();
        while i < n
            invariant
                i <= n,
                n == self.fields@.len(),
                tables == local.tables@,
                fields@.len() == i,
                fault_upto(tables, *self, i as int, fuel as nat) is None,
                built_upto(tables, *self, fields@, i as int, fuel as nat),
            decreases n - i,
        {
            let field = &self.fields[i];
            let code: Code<Construct<'c>> = match self.code(field) {
                Err(e) => {
                    proof {
                        assert(self.spec_code(self.fields@[i as int]) is Err);
                        assert(field_fault(tables, *self, i as int, fuel as nat) == Some((e.fault, e.message@)));
                        assert(fault_upto(tables, *self, i + 1, fuel as nat) == field_fault(tables, *self, i as int, fuel as nat));
                        lemma_fault_stays(tables, *self, i + 1, n as int, fuel as nat);
                    }
                    return Err(e);
                }
                Ok(Code::Skip) => Code::Skip,
                Ok(Code::Query) => Code::Query,
                Ok(Code::Foreign(f)) => {
                    let table = match local.get_table(&f.path) {
                        Ok(t) => t,
                        Err(e) => {
                            proof { lemma_fault_stays(tables, *self, i + 1, n as int, fuel as nat); }
                            return Err(e);
                        }
                    };
                    if fuel == 0 {
                        proof { lemma_fault_stays(tables, *self, i + 1, n as int, fuel as nat); }
                        return Err(missing(&f.path));
                    }
                    let mut c = match table.locolate(local, fuel - 1) {
                        Ok(c) => c,
                        Err(e) => {
                            proof { lemma_fault_stays(tables, *self, i + 1, n as int, fuel as nat); }
                            return Err(e);
                        }
                    };
                    c.foreign = Some(f);
                    Code::Foreign(c)
                }
            };
            let ghost before = fields@;
            fields.push(Column { unique: String::new(), table: self, field, code });
            proof {
                assert(fields@.take(i as int) =~= before);
                assert(before.take(i as int) =~= before);
                lemma_built_upto(tables, *self, before, fields@, i as int, fuel as nat);
                assert(built_column(tables, *self, i as int, fields@[i as int], fuel as nat));
            }
            i = i + 1;
        }
        Ok(Construct { table: self, fields, foreign: None, unique: String::new() })
    }

    /// The construct of the table struct with the structs its `foreign` fields
    /// join from `local`, every struct and column named uniquely (see
    /// `Construct::contract`). A chain of joins longer than `local` holds
    /// structs (a cycle) is refused.
    pub fn construct<'c>(&'c self, local: &'c Local) -> (r: Result<Construct<'c>, Error>)
        ensures
            match table_fault(local.tables@, *self, local.tables@.len() as nat) {
                None => r matches Ok(c) && exists|b: Construct<'c>|
                    built(local.tables@, *self, None, b, local.tables@.len() as nat)
                    && named(c, Seq::empty(), #[trigger] spec_paved(b, Seq::empty()))
                    && shaped(b, c),
                Some(f) => r matches Err(e) && e.fault == f.0 && e.message@ == f.1,
            },
    {
        match self.locolate(local, local.tables.len()) {
            Ok(b) => {
                let ghost g = b;
                let c = b.contract();
                assert(spec_paved(g, Seq::empty()) == spec_paved(g, Seq::empty()));
                Ok(c)
            }
            Err(e) => Err(e),
        }
    }
}

} // verus!
