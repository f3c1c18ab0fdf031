use vstd::prelude::*;
use proc_macro2::Span;
use crate::error::{Error, Fault, Failure};
use crate::write::{Wrapper, Drain, decimal, decimal_string, note, lex_lt};
use crate::text::{chars_of, push_char, push_str};
use crate::rules::Info;
use crate::ident::{ascii_white, is_ascii_whitespace, xid_continue, is_xid_continue, resolved_ident, resolve_ident, white_space, is_whitespace};

verus! {

/// The bind position of a field: unset until the field is first placed in a query.
pub struct Index {
    /// The 1-based bind position, once assigned.
    pub index: Option<usize>,
    /// The field that is bound.
    pub value: usize,
    /// The field's name, used where binds are written as named format arguments.
    pub name: String,
}

impl Index {
    /// A bind for `value` with no position yet.
    pub fn unset(value: usize, name: String) -> (r: Self)
        ensures
            r.index is None,
            r.value == value,
            r.name == name,
    {
        Index { index: None, value, name }
    }
}

/// A value written with a leading `$` (a SQL bind placeholder).
pub struct Dollar<V>(pub V);

/// A parameter value: literal text, or a reference to a bind cell of the parameters.
pub enum Value {
    Text(String),
    Cell(usize),
}

/// What a parameter value stands for: text, or a bind cell.
pub enum Param {
    Text(Seq<char>),
    Cell(usize),
}

impl View for Value {
    type V = Param;

    open spec fn view(&self) -> Param {
        match self {
            Value::Text(t) => Param::Text(t@),
            Value::Cell(c) => Param::Cell(*c),
        }
    }
}

impl Value {
    /// A literal text value.
    pub fn text(s: &str) -> (v: Value)
        ensures
            v matches Value::Text(t) && t@ == s@,
    {
        Value::Text(s.to_owned())
    }

    /// An exact copy of this value.
    pub fn copy(&self) -> (v: Value)
        ensures
            v == *self,
    {
        match self {
            Value::Text(t) => Value::Text(t.clone()),
            Value::Cell(c) => Value::Cell(*c),
        }
    }
}

/// The map that parallel key and value lists describe.
pub open spec fn key_map(keys: Seq<String>, vals: Seq<Value>) -> Map<Seq<char>, Param>
    decreases keys.len(),
{
    if keys.len() == 0 {
        Map::empty()
    } else {
        key_map(keys.drop_last(), vals.drop_last()).insert(keys.last()@, vals[keys.len() - 1]@)
    }
}

/// No two keys have the same text.
pub open spec fn distinct(keys: Seq<String>) -> bool {
    forall|i: int, j: int| 0 <= i < keys.len() && 0 <= j < keys.len() && i != j ==> keys[i]@ != keys[j]@
}

/// The number of cells whose bind position is not yet assigned.
pub open spec fn unset_count(cells: Seq<Dollar<Index>>) -> nat
    decreases cells.len(),
{
    if cells.len() == 0 {
        0
    } else {
        unset_count(cells.drop_last()) + if cells.last().0.index is None { 1nat } else { 0nat }
    }
}

pub proof fn lemma_key_map(keys: Seq<String>, vals: Seq<Value>)
    requires
        keys.len() == vals.len(),
        distinct(keys),
    ensures
        forall|i: int| 0 <= i < keys.len() ==> #[trigger] key_map(keys, vals).contains_key(keys[i]@)
            && key_map(keys, vals)[keys[i]@] == vals[i]@,
        forall|k: Seq<char>| #[trigger] key_map(keys, vals).contains_key(k)
            ==> exists|i: int| 0 <= i < keys.len() && keys[i]@ == k,
    decreases keys.len(),
{
    if keys.len() > 0 {
        let ks = keys.drop_last();
        let vs = vals.drop_last();
        assert(distinct(ks));
        lemma_key_map(ks, vs);
        assert forall|k: Seq<char>| #[trigger] key_map(keys, vals).contains_key(k)
            implies exists|i: int| 0 <= i < keys.len() && keys[i]@ == k by {
            if k != keys.last()@ {
                assert(key_map(ks, vs).contains_key(k));
                let i = choose|i: int| 0 <= i < ks.len() && ks[i]@ == k;
                assert(keys[i]@ == k);
            } else {
                assert(keys[keys.len() - 1]@ == k);
            }
        }
        assert forall|i: int| 0 <= i < keys.len() implies #[trigger] key_map(keys, vals).contains_key(keys[i]@)
            && key_map(keys, vals)[keys[i]@] == vals[i]@ by {
            if i < keys.len() - 1 {
                assert(ks[i] == keys[i]);
                assert(vs[i] == vals[i]);
                assert(key_map(ks, vs).contains_key(ks[i]@));
                assert(keys[i]@ != keys[keys.len() - 1]@);
            }
        }
    }
}

pub proof fn lemma_unset_count_update(cells: Seq<Dollar<Index>>, c: int, d: Dollar<Index>)
    requires
        0 <= c < cells.len(),
        cells[c].0.index is None,
        d.0.index is Some,
    ensures
        unset_count(cells.update(c, d)) + 1 == unset_count(cells),
        unset_count(cells) <= cells.len(),
    decreases cells.len(),
{
    lemma_unset_count_le(cells);
    let u = cells.update(c, d);
    if c == cells.len() - 1 {
        assert(u.drop_last() == cells.drop_last());
    } else {
        assert(u.drop_last() == cells.drop_last().update(c, d));
        lemma_unset_count_update(cells.drop_last(), c, d);
    }
}

pub proof fn lemma_unset_count_le(cells: Seq<Dollar<Index>>)
    ensures
        unset_count(cells) <= cells.len(),
    decreases cells.len(),
{
    if cells.len() > 0 {
        lemma_unset_count_le(cells.drop_last());
    }
}

/// Named parameters for string placeholders, with the bind cells they may refer to.
///
/// `state` lists the fields in the order their binds were assigned positions.
pub struct Params {
    pub state: Vec<usize>,
    pub cells: Vec<Dollar<Index>>,
    pub keys: Vec<String>,
    pub vals: Vec<Value>,
}

impl Params {
    /// The parameters as a map from name to value.
    pub open spec fn map(&self) -> Map<Seq<char>, Param> {
        key_map(self.keys@, self.vals@)
    }

    /// Whether a value may stand in these parameters.
    pub open spec fn valid(&self, v: Param) -> bool {
        v matches Param::Cell(c) ==> c < self.cells@.len()
    }

    /// The well-formedness of parameters: parallel lists with distinct keys,
    /// values referring to existing cells, and room for every unset bind.
    pub open spec fn wf(&self) -> bool {
        &&& self.keys@.len() == self.vals@.len()
        &&& distinct(self.keys@)
        &&& forall|i: int| 0 <= i < self.vals@.len() ==> self.valid(#[trigger] self.vals@[i]@)
        &&& self.state@.len() + unset_count(self.cells@) <= self.cells@.len()
    }

    /// Parameters with no names and no cells, starting from the given bind state
    /// (well-formed where that state is empty).
    pub fn state(state: Vec<usize>) -> (p: Self)
        ensures
            state@.len() == 0 ==> p.wf(),
            p.state@ == state@,
            p.cells@.len() == 0,
            p.map() == Map::<Seq<char>, Param>::empty(),
    {
        Params { state, cells: Vec::new(), keys: Vec::new(), vals: Vec::new() }
    }

    /// Empty parameters.
    pub fn default() -> (p: Self)
        ensures
            p.wf(),
            p.state@.len() == 0,
            p.cells@.len() == 0,
            p.map() == Map::<Seq<char>, Param>::empty(),
    {
        Params { state: Vec::new(), cells: Vec::new(), keys: Vec::new(), vals: Vec::new() }
    }

    /// Adds a bind cell and returns its handle.
    pub fn cell(&mut self, index: Index) -> (c: usize)
        requires
            old(self).wf(),
            index.index is None,
        ensures
            final(self).wf(),
            c == old(self).cells@.len(),
            final(self).cells@ == old(self).cells@.push(Dollar(index)),
            final(self).state == old(self).state,
            final(self).keys == old(self).keys,
            final(self).vals == old(self).vals,
    {
        let c = self.cells.len();
        self.cells.push(Dollar(index));
        proof {
            let cs = self.cells@;
            assert(cs.drop_last() == old(self).cells@);
            assert forall|i: int| 0 <= i < self.vals@.len() implies self.valid(#[trigger] self.vals@[i]@) by {
                assert(old(self).valid(old(self).vals@[i]@));
            }
        }
        c
    }

    /// The position of `key` among the keys.
    fn find(&self, key: &str) -> (r: Option<usize>)
        requires
            self.wf(),
        ensures
            r matches Some(i) ==> i < self.keys@.len() && self.keys@[i as int]@ == key@,
            r is None ==> !self.map().contains_key(key@),
    {
        proof { lemma_key_map(self.keys@, self.vals@); }
        let k = key.to_owned();
        let mut i: usize = 0;
        while i < self.keys.len()
            invariant
                i <= self.keys@.len(),
                k@ == key@,
                forall|j: int| 0 <= j < i ==> self.keys@[j]@ != key@,
            decreases self.keys@.len() - i,
        {
            if self.keys[i] == k {
                return Some(i);
            }
            i = i + 1;
        }
        None
    }

    /// The value of `key`, if any.
    pub fn get(&self, key: &str) -> (r: Option<&Value>)
        requires
            self.wf(),
        ensures
            r matches Some(v) ==> self.map().contains_key(key@) && self.map()[key@] == v@,
            r is None ==> !self.map().contains_key(key@),
    {
        proof { lemma_key_map(self.keys@, self.vals@); }
        match self.find(key) {
            Some(i) => {
                assert(self.map().contains_key(self.keys@[i as int]@));
                Some(&self.vals[i])
            }
            None => None,
        }
    }

    /// Sets `key` to `val`, returning the value it replaces.
    pub fn put(&mut self, key: &str, val: Value) -> (r: Option<Value>)
        requires
            old(self).wf(),
            old(self).valid(val@),
        ensures
            final(self).wf(),
            final(self).map() == old(self).map().insert(key@, val@),
            match r {
                Some(v) => old(self).map().contains_key(key@) && v@ == old(self).map()[key@],
                None => !old(self).map().contains_key(key@),
            },
            final(self).state == old(self).state,
            final(self).cells == old(self).cells,
            old(self).map().contains_key(key@) ==> final(self).keys == old(self).keys,
    {
        proof { lemma_key_map(self.keys@, self.vals@); }
        match self.find(key) {
            Some(i) => {
                assert(old(self).map().contains_key(old(self).keys@[i as int]@));
                let old_val = self.vals.remove(i);
                self.vals.insert(i, val);
                proof {
                    assert(self.vals@ == old(self).vals@.update(i as int, val));
                    lemma_key_map(self.keys@, self.vals@);
                    assert(self.map() =~= old(self).map().insert(key@, val@)) by {
                        assert forall|k: Seq<char>| #[trigger] self.map().contains_key(k)
                            <==> old(self).map().insert(key@, val@).contains_key(k) by {
                            if self.map().contains_key(k) {
                                let j = choose|j: int| 0 <= j < self.keys@.len() && self.keys@[j]@ == k;
                            }
                            if old(self).map().contains_key(k) {
                                let j = choose|j: int| 0 <= j < self.keys@.len() && self.keys@[j]@ == k;
                            }
                        }
                        assert forall|k: Seq<char>| #[trigger] self.map().contains_key(k)
                            implies self.map()[k] == old(self).map().insert(key@, val@)[k] by {
                            let j = choose|j: int| 0 <= j < self.keys@.len() && self.keys@[j]@ == k;
                        }
                    }
                    assert forall|j: int| 0 <= j < self.vals@.len() implies self.valid(#[trigger] self.vals@[j]@) by {
                        if j != i {
                            assert(old(self).valid(old(self).vals@[j]@));
                        }
                    }
                }
                Some(old_val)
            }
            None => {
                let k = key.to_owned();
                self.keys.push(k);
                self.vals.push(val);
                proof {
                    assert(self.keys@.drop_last() == old(self).keys@);
                    assert(self.vals@.drop_last() == old(self).vals@);
                    assert(distinct(self.keys@)) by {
                        assert forall|i: int, j: int| 0 <= i < self.keys@.len() && 0 <= j < self.keys@.len() && i != j
                            implies self.keys@[i]@ != self.keys@[j]@ by {
                            if i < old(self).keys@.len() && j < old(self).keys@.len() {
                            } else if i < old(self).keys@.len() {
                                assert(old(self).map().contains_key(old(self).keys@[i]@));
                            } else {
                                assert(old(self).map().contains_key(old(self).keys@[j]@));
                            }
                        }
                    }
                    assert forall|j: int| 0 <= j < self.vals@.len() implies self.valid(#[trigger] self.vals@[j]@) by {
                        if j < old(self).vals@.len() {
                            assert(old(self).valid(old(self).vals@[j]@));
                        }
                    }
                }
                None
            }
        }
    }

    /// Takes the bind state out, leaving it empty.
    pub fn take(&mut self) -> (r: Vec<usize>)
        requires
            old(self).wf(),
        ensures
            final(self).wf(),
            r@ == old(self).state@,
            final(self).state@.len() == 0,
            final(self).cells == old(self).cells,
            final(self).keys == old(self).keys,
            final(self).vals == old(self).vals,
    {
        let mut state = Vec::new();
        std::mem::swap(&mut state, &mut self.state);
        state
    }
}

/// What placing values does: the text written, the named binds noted,
/// the bind cells and the bind state.
pub struct Run {
    pub text: Seq<char>,
    pub noted: Seq<(Seq<char>, usize)>,
    pub cells: Seq<Dollar<Index>>,
    pub state: Seq<usize>,
}

/// The run made of a destination and the parameters' cells and state.
pub open spec fn run_of<W: Wrapper>(dst: W, cells: Seq<Dollar<Index>>, state: Seq<usize>) -> Run {
    Run { text: dst.text(), noted: dst.noted(), cells, state }
}

/// Writing literal text `s`.
pub open spec fn put<W: Wrapper>(r: Run, s: Seq<char>) -> Run {
    Run { text: r.text + W::rendered(s), noted: r.noted, cells: r.cells, state: r.state }
}

/// Placing value `v`: text is written as it is; a bind cell is written as `$`
/// followed by its position, assigning the next position on first use, or, for
/// outer destinations, as a named format argument `{name}` that is noted.
pub open spec fn placed<W: Wrapper>(r: Run, v: Param) -> Run {
    match v {
        Param::Text(t) => put::<W>(r, t),
        Param::Cell(c) => {
            let d = r.cells[c as int].0;
            let r1 = put::<W>(r, seq!['$']);
            if W::is_outer() {
                Run {
                    text: r1.text + W::raw(seq!['{']) + W::raw(d.name@) + W::raw(seq!['}']),
                    noted: note(r1.noted, d.name@, d.value),
                    cells: r1.cells,
                    state: r1.state,
                }
            } else {
                match d.index {
                    Some(i) => put::<W>(r1, decimal(i as nat)),
                    None => {
                        let i = r1.state.len() + 1;
                        Run {
                            text: r1.text + W::rendered(decimal(i)),
                            noted: r1.noted,
                            cells: r1.cells.update(
                                c as int,
                                Dollar(Index { index: Some(i as usize), value: d.value, name: d.name }),
                            ),
                            state: r1.state.push(d.value),
                        }
                    }
                }
            }
        }
    }
}

/// Places a value into a destination, updating the bind cells and state.
fn place_value<W: Wrapper>(
    cells: &mut Vec<Dollar<Index>>,
    state: &mut Vec<usize>,
    dst: &mut W,
    v: &Value,
)
    requires
        v matches Value::Cell(c) ==> c < old(cells)@.len(),
        old(state)@.len() + unset_count(old(cells)@) <= old(cells)@.len(),
    ensures
        final(cells)@.len() == old(cells)@.len(),
        final(state)@.len() + unset_count(final(cells)@) <= final(cells)@.len(),
        run_of(*final(dst), final(cells)@, final(state)@) == placed::<W>(run_of(*old(dst), old(cells)@, old(state)@), v@),
{
    match v {
        Value::Text(t) => {
            dst.push_str(t.as_str());
        }
        Value::Cell(c) => {
            let c = *c;
            proof {
                reveal_strlit("$");
                reveal_strlit("{");
                reveal_strlit("}");
                assert("$"@ =~= seq!['$']);
                assert("{"@ =~= seq!['{']);
                assert("}"@ =~= seq!['}']);
            }
            dst.push_str("$");
            if dst.outer() {
                let d = &cells[c].0;
                dst.state(d.name.as_str(), d.value);
                dst.push_inner("{");
                dst.push_inner(d.name.as_str());
                dst.push_inner("}");
            } else {
                match cells[c].0.index {
                    Some(i) => {
                        let s = decimal_string(i);
                        dst.push_str(s.as_str());
                    }
                    None => {
                        proof { lemma_unset_count_le(cells@); }
                        let ghost before = cells@;
                        let value = cells[c].0.value;
                        state.push(value);
                        let i = state.len();
                        cells[c].0.index = Some(i);
                        proof {
                            lemma_unset_count_update(before, c as int, cells@[c as int]);
                        }
                        let s = decimal_string(i);
                        dst.push_str(s.as_str());
                        proof {
                            let r0 = run_of(*old(dst), old(cells)@, old(state)@);
                            let r1 = put::<W>(r0, seq!['$']);
                            assert(i == r1.state.len() + 1);
                            assert(state@ == r1.state.push(value));
                            assert(cells@ == r1.cells.update(c as int, Dollar(Index { index: Some(i), value: old(cells)@[c as int].0.value, name: old(cells)@[c as int].0.name })));
                        }
                    }
                }
            }
        }
    }
}

/// The first position at or after `from` that holds `c`.
pub open spec fn first_from(v: Seq<char>, from: int, c: char) -> Option<int>
    decreases v.len() - from,
{
    if from < 0 || from >= v.len() {
        None
    } else if v[from] == c {
        Some(from)
    } else {
        first_from(v, from + 1, c)
    }
}

pub proof fn lemma_first_from(v: Seq<char>, from: int, c: char)
    requires
        0 <= from,
    ensures
        first_from(v, from, c) matches Some(k) ==> from <= k < v.len() && v[k] == c
            && forall|j: int| from <= j < k ==> v[j] != c,
        first_from(v, from, c) is None ==> forall|j: int| from <= j < v.len() ==> v[j] != c,
    decreases v.len() - from,
{
    if from < v.len() && v[from] != c {
        lemma_first_from(v, from + 1, c);
    }
}

/// The end of the identifier characters starting at `from`: the first position
/// at or after `from` whose character does not continue an identifier.
pub open spec fn name_end(v: Seq<char>, from: int) -> int
    decreases v.len() - from,
{
    if from < 0 || from >= v.len() {
        v.len() as int
    } else if !xid_continue(v[from]) {
        from
    } else {
        name_end(v, from + 1)
    }
}

pub proof fn lemma_name_end(v: Seq<char>, from: int)
    requires
        0 <= from <= v.len(),
    ensures
        from <= name_end(v, from) <= v.len(),
    decreases v.len() - from,
{
    if from < v.len() && xid_continue(v[from]) {
        lemma_name_end(v, from + 1);
    }
}

/// Reads the placeholder whose `$` stands at `i` (not followed by another `$`):
/// the text naming the parameter and the position after the placeholder.
/// `${name}` runs to the first `}`; `$name` and `$r#name` run over identifier characters.
pub open spec fn token(v: Seq<char>, i: int) -> Result<(Seq<char>, int), Fault> {
    if i + 1 >= v.len() {
        Err(Fault::Missing)
    } else if v[i + 1] == '{' {
        match first_from(v, i + 2, '}') {
            None => Err(Fault::Unmatched),
            Some(j) => Ok((v.subrange(i + 2, j), j + 1)),
        }
    } else {
        let o = if v[i + 1] == 'r' && i + 2 < v.len() && v[i + 2] == '#' { 3int } else { 1int };
        let j = name_end(v, i + o);
        Ok((v.subrange(i + 1, j), j))
    }
}

pub proof fn lemma_token(v: Seq<char>, i: int)
    requires
        0 <= i < v.len(),
    ensures
        token(v, i) matches Ok((var, next)) ==> i + 1 <= next <= v.len(),
{
    if i + 1 < v.len() {
        if v[i + 1] == '{' {
            lemma_first_from(v, i + 2, '}');
        } else {
            let o = if v[i + 1] == 'r' && i + 2 < v.len() && v[i + 2] == '#' { 3int } else { 1int };
            lemma_name_end(v, i + o);
        }
    }
}

/// Whether every character is whitespace (true of the empty text).
pub open spec fn all_white(s: Seq<char>) -> bool {
    forall|k: int| 0 <= k < s.len() ==> white_space(s[k])
}

/// The result of replacing the placeholders of `v` from position `p` on.
///
/// `$$` stands for a literal `$`; `$name`, `$r#name` and `${name}` stand for the
/// value of the parameter that `name` identifies. A `$` that names nothing, names
/// something that is not an identifier, or names an unknown parameter is an error,
/// as is a `${` without a closing `}`.
pub open spec fn applied<W: Wrapper>(m: Map<Seq<char>, Param>, r: Run, v: Seq<char>, p: int) -> Result<Run, Failure>
    decreases v.len() - p,
{
    if p < 0 || p > v.len() {
        Ok(r)
    } else {
        match first_from(v, p, '$') {
            None => Ok(put::<W>(r, v.subrange(p, v.len() as int))),
            Some(i) => {
                proof { lemma_first_from(v, p, '$'); }
                if i + 1 < v.len() && v[i + 1] == '$' {
                    applied::<W>(m, put::<W>(r, v.subrange(p, i + 1)), v, i + 2)
                } else {
                    let msg = failure_message(v, i, known_text(m));
                    match token(v, i) {
                        Err(f) => Err((f, msg)),
                        Ok((var, next)) => {
                            proof { lemma_token(v, i); }
                            if all_white(var) {
                                Err((Fault::Missing, msg))
                            } else {
                                match resolved_ident(var) {
                                    None => Err((Fault::Invalid, msg)),
                                    Some(id) => if m.contains_key(id) {
                                        applied::<W>(m, placed::<W>(put::<W>(r, v.subrange(p, i)), m[id]), v, next)
                                    } else {
                                        Err((Fault::Unknown, msg))
                                    },
                                }
                            }
                        }
                    }
                }
            }
        }
    }
}

/// The characters `v[a..b]` as a string.
fn piece(v: &Vec<char>, a: usize, b: usize) -> (s: String)
    requires
        a <= b <= v@.len(),
    ensures
        s@ == v@.subrange(a as int, b as int),
{
    let mut s = String::new();
    let mut k = a;
    while k < b
        invariant
            a <= k <= b <= v@.len(),
            s@ == v@.subrange(a as int, k as int),
        decreases b - k,
    {
        push_char(&mut s, v[k]);
        k = k + 1;
        assert(s@ =~= v@.subrange(a as int, k as int));
    }
    s
}

/// The first position at or after `from` holding `c`.
fn find_from(v: &Vec<char>, from: usize, c: char) -> (r: Option<usize>)
    requires
        from <= v@.len(),
    ensures
        match r {
            Some(k) => first_from(v@, from as int, c) == Some(k as int),
            None => first_from(v@, from as int, c) is None,
        },
{
    let mut k = from;
    while k < v.len()
        invariant
            from <= k <= v@.len(),
            first_from(v@, from as int, c) == first_from(v@, k as int, c),
        decreases v@.len() - k,
    {
        if v[k] == c {
            return Some(k);
        }
        k = k + 1;
    }
    None
}

/// The end of the identifier characters starting at `from`.
fn find_name_end(v: &Vec<char>, from: usize) -> (r: usize)
    requires
        from <= v@.len(),
    ensures
        r == name_end(v@, from as int),
{
    let mut k = from;
    while k < v.len() && is_xid_continue(v[k])
        invariant
            from <= k <= v@.len(),
            name_end(v@, from as int) == name_end(v@, k as int),
        decreases v@.len() - k,
    {
        k = k + 1;
    }
    k
}

/// Whether every character of `s` is whitespace.
fn blank(s: &String) -> (b: bool)
    ensures
        b == all_white(s@),
{
    let v = chars_of(s.as_str());
    let mut k: usize = 0;
    while k < v.len()
        invariant
            k <= v@.len(),
            v@ == s@,
            forall|j: int| 0 <= j < k ==> white_space(v@[j]),
        decreases v@.len() - k,
    {
        if !is_whitespace(v[k]) {
            return false;
        }
        k = k + 1;
    }
    true
}

impl Params {
    /// Places a value into a destination.
    pub fn place<W: Wrapper>(&mut self, dst: &mut W, val: &Value) -> (r: Result<(), Error>)
        requires
            old(self).wf(),
            old(self).valid(val@),
        ensures
            final(self).wf(),
            r is Ok,
            final(self).keys == old(self).keys,
            final(self).vals == old(self).vals,
            final(self).cells@.len() == old(self).cells@.len(),
            run_of(*final(dst), final(self).cells@, final(self).state@)
                == placed::<W>(run_of(*old(dst), old(self).cells@, old(self).state@), val@),
    {
        place_value(&mut self.cells, &mut self.state, dst, val);
        proof { self.lemma_valid_cells(*old(self)); }
        Ok(())
    }

    proof fn lemma_valid_cells(&self, other: Params)
        requires
            other.wf(),
            self.keys == other.keys,
            self.vals == other.vals,
            self.cells@.len() == other.cells@.len(),
            self.state@.len() + unset_count(self.cells@) <= self.cells@.len(),
        ensures
            self.wf(),
    {
        assert forall|i: int| 0 <= i < self.vals@.len() implies self.valid(#[trigger] self.vals@[i]@) by {
            assert(other.valid(other.vals@[i]@));
        }
    }

    /// Writes the value of the parameter a placeholder names, with `id` the
    /// identifier its name `var` reads as (`None` where it is no identifier) and
    /// `brace` whether it was written `${..}`. A name that is no identifier, or an
    /// identifier that is no parameter's, is an error, and nothing is written.
    pub fn resolved<W: Wrapper>(&mut self, dst: &mut W, brace: bool, var: &String, id: Option<String>, span: Span) -> (r: Result<(), Error>)
        requires
            old(self).wf(),
        ensures
            final(self).wf(),
            final(self).keys == old(self).keys,
            final(self).vals == old(self).vals,
            final(self).cells@.len() == old(self).cells@.len(),
            match id {
                None => r matches Err(e) && e.fault == Fault::Invalid && e.span == span
                    && e.message@ == invalid_text(brace, var@),
                Some(k) => if old(self).map().contains_key(k@) {
                    r is Ok && run_of(*final(dst), final(self).cells@, final(self).state@)
                        == placed::<W>(run_of(*old(dst), old(self).cells@, old(self).state@), old(self).map()[k@])
                } else {
                    r matches Err(e) && e.fault == Fault::Unknown && e.span == span
                        && e.message@ == unknown_text(brace, var@, known_text(old(self).map()))
                },
            },
            r is Err ==> *final(dst) == *old(dst) && *final(self) == *old(self),
    {
        match id {
            None => Err(Error::new(span, Fault::Invalid, invalid_message(brace, var))),
            Some(id) => {
                proof { lemma_key_map(self.keys@, self.vals@); }
                match self.find(id.as_str()) {
                    None => {
                        let known = self.known();
                        let msg = unknown_message(brace, var, &known);
                        proof {
                            let list = choose|list: Seq<Seq<char>>| listing(self.keys@, list) && known@ == names_listed(list);
                            lemma_known_text(self.keys@, self.vals@, list);
                        }
                        Err(Error::new(span, Fault::Unknown, msg))
                    }
                    Some(k) => {
                        assert(self.map().contains_key(self.keys@[k as int]@));
                        assert(self.valid(self.vals@[k as int]@));
                        place_value(&mut self.cells, &mut self.state, dst, &self.vals[k]);
                        proof { self.lemma_valid_cells(*old(self)); }
                        Ok(())
                    }
                }
            }
        }
    }

    /// Replaces the placeholders of `src` by the values of the parameters
    /// and writes the result to `dst`.
    pub fn apply<W: Wrapper>(&mut self, dst: &mut W, src: &str, span: Span) -> (r: Result<(), Error>)
        requires
            old(self).wf(),
        ensures
            final(self).wf(),
            final(self).keys == old(self).keys,
            final(self).vals == old(self).vals,
            final(self).cells@.len() == old(self).cells@.len(),
            match applied::<W>(old(self).map(), run_of(*old(dst), old(self).cells@, old(self).state@), src@, 0) {
                Ok(run) => r is Ok && run_of(*final(dst), final(self).cells@, final(self).state@) == run,
                Err(f) => r matches Err(e) && e.fault == f.0 && e.message@ == f.1 && e.span == span,
            },
    {
        let v = chars_of(src);
        let ghost m = self.map();
        let ghost goal = applied::<W>(m, run_of(*dst, self.cells@, self.state@), src@, 0);
        let mut p: usize = 0;
        loop
            invariant
                p <= v@.len(),
                v@ == src@,
                old(self).wf(),
                self.wf(),
                self.cells@.len() == old(self).cells@.len(),
                self.keys == old(self).keys,
                self.vals == old(self).vals,
                m == self.map(),
                goal == applied::<W>(old(self).map(), run_of(*old(dst), old(self).cells@, old(self).state@), src@, 0),
                applied::<W>(m, run_of(*dst, self.cells@, self.state@), v@, p as int) == goal,
            decreases v@.len() - p,
        {
            let len = v.len();
            match find_from(&v, p, '$') {
                None => {
                    let s = piece(&v, p, len);
                    dst.push_str(s.as_str());
                    return Ok(());
                }
                Some(i) => {
                    proof { lemma_first_from(v@, p as int, '$'); }
                    if i + 1 < len && v[i + 1] == '$' {
                        let s = piece(&v, p, i + 1);
                        dst.push_str(s.as_str());
                        p = i + 2;
                        continue;
                    }
                    if i + 1 >= len {
                        let msg = missing_message(false, None, &String::new());
                        proof { reveal_strlit(""); }
                        return Err(Error::new(span, Fault::Missing, msg));
                    }
                    let next_char = v[i + 1];
                    let (start, end, next) = if next_char == '{' {
                        match find_from(&v, i + 2, '}') {
                            None => {
                                return Err(Error::new(span, Fault::Unmatched, unmatched_message()));
                            }
                            Some(j) => {
                                proof { lemma_first_from(v@, i + 2, '}'); }
                                (i + 2, j, j + 1)
                            }
                        }
                    } else {
                        let o: usize = if next_char == 'r' && i + 2 < len && v[i + 2] == '#' { 3 } else { 1 };
                        let j = find_name_end(&v, i + o);
                        proof { lemma_name_end(v@, i + o); }
                        (i + 1, j, j)
                    };
                    proof { lemma_token(v@, i as int); }
                    let before = piece(&v, p, i);
                    dst.push_str(before.as_str());
                    let var = piece(&v, start, end);
                    let brace = next_char == '{';
                    if blank(&var) {
                        return Err(Error::new(span, Fault::Missing, missing_message(brace, Some(next_char), &var)));
                    }
                    let id = resolve_ident(var.as_str());
                    let ghost before = *self;
                    let res = self.resolved(dst, brace, &var, id, span);
                    proof { self.lemma_valid_cells(*old(self)); }
                    match res {
                        Err(e) => {
                            return Err(e);
                        }
                        Ok(()) => {
                            p = next;
                        }
                    }
                }
            }
        }
    }

    /// The names of the parameters, ordered by their number of `__`-separated
    /// parts and then by name, joined by `, `.
    fn known(&self) -> (r: String)
        requires
            distinct(self.keys@),
        ensures
            exists|list: Seq<Seq<char>>| {
                &&& sorted_names(list)
                &&& list.len() == self.keys@.len()
                &&& (forall|a: int| 0 <= a < self.keys@.len() ==> list.contains(#[trigger] self.keys@[a]@))
                &&& (forall|t: int| 0 <= t < list.len() ==> exists|a: int| 0 <= a < self.keys@.len() && #[trigger] list[t] == self.keys@[a]@)
                &&& r@ == names_listed(list)
            },
    {
        let mut list: Vec<(usize, Vec<char>)> = Vec::new();
        let mut i: usize = 0;
        while i < self.keys.len()
            invariant
                i <= self.keys@.len(),
                distinct(self.keys@),
                list@.len() == i,
                forall|t: int| 0 <= t < list@.len() ==> (#[trigger] list@[t]).0 == parts_of(list@[t].1@),
                sorted_names(names_of(list@)),
                forall|a: int| 0 <= a < i ==> names_of(list@).contains(#[trigger] self.keys@[a]@),
                forall|t: int| 0 <= t < list@.len() ==> exists|a: int| 0 <= a < i && #[trigger] names_of(list@)[t] == self.keys@[a]@,
            decreases self.keys@.len() - i,
        {
            let k = chars_of(self.keys[i].as_str());
            let n = parts(&k);
            let ghost lv = names_of(list@);
            let ghost x = k@;
            assert forall|t: int| 0 <= t < lv.len() implies lv[t] != x by {
                let a = choose|a: int| 0 <= a < i && #[trigger] names_of(list@)[t] == self.keys@[a]@;
                assert(self.keys@[a]@ != self.keys@[i as int]@);
            }
            let mut j = list.len();
            while j > 0 && before(n, &k, list[j - 1].0, &list[j - 1].1)
                invariant
                    j <= list@.len(),
                    lv == names_of(list@),
                    n == parts_of(x),
                    k@ == x,
                    forall|t: int| 0 <= t < list@.len() ==> (#[trigger] list@[t]).0 == parts_of(list@[t].1@),
                    forall|t: int| j <= t < lv.len() ==> name_lt(x, #[trigger] lv[t]),
                decreases j,
            {
                j = j - 1;
            }
            proof {
                if j > 0 {
                    lemma_name_total(x, lv[j - 1]);
                }
                assert forall|a: int, b: int| 0 <= a < b < lv.len() + 1 implies
                    name_lt(#[trigger] lv.insert(j as int, x)[a], #[trigger] lv.insert(j as int, x)[b]) by {
                    let v = lv.insert(j as int, x);
                    if b < j {
                    } else if b == j {
                        if a < j - 1 {
                            lemma_name_trans(lv[a], lv[j - 1], x);
                        }
                    } else if a == j {
                        assert(v[b] == lv[b - 1]);
                    } else if a < j {
                        assert(v[b] == lv[b - 1]);
                    } else {
                        assert(v[a] == lv[a - 1] && v[b] == lv[b - 1]);
                    }
                }
            }
            let ghost old_list = list@;
            list.insert(j, (n, k));
            proof {
                let v = lv.insert(j as int, x);
                assert(names_of(list@) =~= v);
                assert forall|t: int| 0 <= t < list@.len() implies (#[trigger] list@[t]).0 == parts_of(list@[t].1@) by {
                    if t < j {
                        assert(list@[t] == old_list[t]);
                    } else if t > j {
                        assert(list@[t] == old_list[t - 1]);
                    }
                }
                assert forall|a: int| 0 <= a < i + 1 implies names_of(list@).contains(#[trigger] self.keys@[a]@) by {
                    if a == i {
                        assert(v[j as int] == x);
                    } else {
                        let t = choose|t: int| 0 <= t < lv.len() && lv[t] == self.keys@[a]@;
                        if t < j {
                            assert(v[t] == lv[t]);
                        } else {
                            assert(v[t + 1] == lv[t]);
                        }
                    }
                }
                assert forall|t: int| 0 <= t < list@.len() implies exists|a: int| 0 <= a < i + 1 && #[trigger] names_of(list@)[t] == self.keys@[a]@ by {
                    if t == j {
                        assert(v[t] == self.keys@[i as int]@);
                    } else if t < j {
                        assert(v[t] == lv[t]);
                        let a = choose|a: int| 0 <= a < i && #[trigger] names_of(old_list)[t] == self.keys@[a]@;
                        assert(v[t] == self.keys@[a]@);
                    } else {
                        assert(v[t] == lv[t - 1]);
                        let a = choose|a: int| 0 <= a < i && #[trigger] names_of(old_list)[t - 1] == self.keys@[a]@;
                        assert(v[t] == self.keys@[a]@);
                    }
                }
            }
            i = i + 1;
        }
        let ghost lv = names_of(list@);
        let mut out = String::new();
        let mut j: usize = 0;
        while j < list.len()
            invariant
                j <= list@.len(),
                lv == names_of(list@),
                out@ == names_listed(lv.take(j as int)),
            decreases list@.len() - j,
        {
            let ghost before_out = out@;
            if j > 0 {
                push_str(&mut out, ", ");
            }
            crate::text::push_chars(&mut out, list[j].1.as_slice());
            proof {
                let t = lv.take(j + 1);
                assert(t.drop_last() =~= lv.take(j as int));
                assert(t.last() == lv[j as int]);
                if j == 0 {
                    assert(out@ =~= lv[0]);
                } else {
                    assert(out@ =~= before_out + ", "@ + lv[j as int]);
                }
            }
            j = j + 1;
        }
        assert(lv.take(lv.len() as int) =~= lv);
        out
    }
}

/// The number of `__` separators in `k`, found from the left without overlap.
pub open spec fn seps(k: Seq<char>) -> nat
    decreases k.len(),
{
    if k.len() < 2 {
        0
    } else if k[0] == '_' && k[1] == '_' {
        1 + seps(k.skip(2))
    } else {
        seps(k.skip(1))
    }
}

/// The number of parts `k` splits into at `__`.
pub open spec fn parts_of(k: Seq<char>) -> nat {
    1 + seps(k)
}

/// Whether name `a` is listed before name `b`: by fewer parts, then by name.
pub open spec fn name_lt(a: Seq<char>, b: Seq<char>) -> bool {
    parts_of(a) < parts_of(b) || (parts_of(a) == parts_of(b) && lex_lt(a, b))
}

/// Whether names are listed in order, each once.
pub open spec fn sorted_names(list: Seq<Seq<char>>) -> bool {
    forall|a: int, b: int| 0 <= a < b < list.len() ==> name_lt(#[trigger] list[a], #[trigger] list[b])
}

/// The names joined by `, `.
pub open spec fn names_listed(list: Seq<Seq<char>>) -> Seq<char>
    decreases list.len(),
{
    if list.len() == 0 {
        Seq::empty()
    } else if list.len() == 1 {
        list[0]
    } else {
        names_listed(list.drop_last()) + ", "@ + list.last()
    }
}

/// The names of a list of counted names.
pub open spec fn names_of(list: Seq<(usize, Vec<char>)>) -> Seq<Seq<char>> {
    list.map_values(|e: (usize, Vec<char>)| e.1@)
}

/// Sorting by code points is transitive.
proof fn lemma_lex_trans(a: Seq<char>, b: Seq<char>, c: Seq<char>)
    requires
        lex_lt(a, b),
        lex_lt(b, c),
    ensures
        lex_lt(a, c),
    decreases a.len(),
{
    if a.len() > 0 && b.len() > 0 && c.len() > 0 && a[0] == b[0] && b[0] == c[0] {
        lemma_lex_trans(a.drop_first(), b.drop_first(), c.drop_first());
    }
}

/// Of two different names, one sorts before the other.
proof fn lemma_lex_total(a: Seq<char>, b: Seq<char>)
    requires
        a != b,
    ensures
        lex_lt(a, b) || lex_lt(b, a),
    decreases a.len(),
{
    if a.len() > 0 && b.len() > 0 && a[0] == b[0] {
        if a.drop_first() == b.drop_first() {
            assert(a =~= seq![a[0]] + a.drop_first());
            assert(b =~= seq![b[0]] + b.drop_first());
        }
        lemma_lex_total(a.drop_first(), b.drop_first());
    } else if a.len() == 0 && b.len() == 0 {
        assert(a =~= b);
    }
}

/// Listing order is transitive.
proof fn lemma_name_trans(a: Seq<char>, b: Seq<char>, c: Seq<char>)
    requires
        name_lt(a, b),
        name_lt(b, c),
    ensures
        name_lt(a, c),
{
    if parts_of(a) == parts_of(b) && parts_of(b) == parts_of(c) {
        lemma_lex_trans(a, b, c);
    }
}

/// No name sorts before itself.
proof fn lemma_lex_irreflexive(a: Seq<char>)
    ensures
        !lex_lt(a, a),
    decreases a.len(),
{
    if a.len() > 0 {
        lemma_lex_irreflexive(a.drop_first());
    }
}

/// Two lists in listing order that hold the same names are the same list.
pub proof fn lemma_listing_unique(a: Seq<Seq<char>>, b: Seq<Seq<char>>)
    requires
        sorted_names(a),
        sorted_names(b),
        a.to_set() == b.to_set(),
    ensures
        a == b,
    decreases a.len(),
{
    if a.len() == 0 {
        if b.len() > 0 {
            assert(b.to_set().contains(b[0]));
        }
        assert(a =~= b);
    } else {
        assert(a.to_set().contains(a[0]));
        assert(b.to_set().contains(a[0]));
        let k = choose|k: int| 0 <= k < b.len() && b[k] == a[0];
        assert(b.to_set().contains(b[0]));
        assert(a.to_set().contains(b[0]));
        let j = choose|j: int| 0 <= j < a.len() && a[j] == b[0];
        lemma_lex_irreflexive(a[0]);
        lemma_lex_irreflexive(b[0]);
        if k > 0 {
            assert(name_lt(b[0], b[k]));
            if j > 0 {
                assert(name_lt(a[0], a[j]));
                lemma_name_trans(a[0], b[0], a[0]);
            }
            assert(false);
        }
        let a1 = a.drop_first();
        let b1 = b.drop_first();
        assert forall|x: Seq<char>| a1.to_set().contains(x) <==> b1.to_set().contains(x) by {
            if a1.to_set().contains(x) {
                let i = choose|i: int| 0 <= i < a1.len() && a1[i] == x;
                assert(a.to_set().contains(x) && a[i + 1] == x);
                assert(name_lt(a[0], a[i + 1]));
                let t = choose|t: int| 0 <= t < b.len() && b[t] == x;
                if t == 0 {
                    assert(false);
                }
                assert(b1[t - 1] == x);
            }
            if b1.to_set().contains(x) {
                let i = choose|i: int| 0 <= i < b1.len() && b1[i] == x;
                assert(b.to_set().contains(x) && b[i + 1] == x);
                assert(name_lt(b[0], b[i + 1]));
                let t = choose|t: int| 0 <= t < a.len() && a[t] == x;
                if t == 0 {
                    assert(false);
                }
                assert(a1[t - 1] == x);
            }
        }
        assert(a1.to_set() =~= b1.to_set());
        lemma_listing_unique(a1, b1);
        assert(a =~= seq![a[0]] + a1);
        assert(b =~= seq![b[0]] + b1);
    }
}

/// The names of the parameters `m`, in listing order, joined by `, `.
pub open spec fn known_text(m: Map<Seq<char>, Param>) -> Seq<char> {
    names_listed(choose|list: Seq<Seq<char>>| sorted_names(list) && list.to_set() == m.dom())
}

/// A listing of the keys is the listing of the parameters they name.
pub proof fn lemma_known_text(keys: Seq<String>, vals: Seq<Value>, list: Seq<Seq<char>>)
    requires
        keys.len() == vals.len(),
        distinct(keys),
        listing(keys, list),
    ensures
        names_listed(list) == known_text(key_map(keys, vals)),
{
    let m = key_map(keys, vals);
    lemma_key_map(keys, vals);
    assert forall|x: Seq<char>| list.to_set().contains(x) <==> m.dom().contains(x) by {
        if list.to_set().contains(x) {
            let t = choose|t: int| 0 <= t < list.len() && list[t] == x;
            let a = choose|a: int| 0 <= a < keys.len() && #[trigger] list[t] == keys[a]@;
            assert(m.contains_key(keys[a]@));
        }
        if m.dom().contains(x) {
            let a = choose|a: int| 0 <= a < keys.len() && keys[a]@ == x;
            assert(list.contains(keys[a]@));
        }
    }
    assert(list.to_set() =~= m.dom());
    let other = choose|l: Seq<Seq<char>>| sorted_names(l) && l.to_set() == m.dom();
    lemma_listing_unique(list, other);
}

/// Of two different names, one is listed before the other.
proof fn lemma_name_total(a: Seq<char>, b: Seq<char>)
    requires
        a != b,
    ensures
        name_lt(a, b) || name_lt(b, a),
{
    lemma_lex_total(a, b);
}

/// The number of parts `k` splits into at `__` (non-overlapping, from the left).
fn parts(k: &Vec<char>) -> (r: usize)
    ensures
        r == parts_of(k@),
{
    let mut n: usize = 1;
    let mut i: usize = 0;
    assert(k@.skip(0) =~= k@);
    while i < k.len() && i + 1 < k.len()
        invariant
            n <= i + 1,
            i <= k@.len(),
            n + seps(k@.skip(i as int)) == parts_of(k@),
        decreases k@.len() - i,
    {
        if k[i] == '_' && k[i + 1] == '_' {
            assert(k@.skip(i as int).skip(2) =~= k@.skip(i + 2));
            n = n + 1;
            i = i + 2;
        } else {
            assert(k@.skip(i as int).skip(1) =~= k@.skip(i + 1));
            i = i + 1;
        }
    }
    n
}

/// Whether `(n, a)` sorts before `(m, b)`: by number, then by code points.
fn before(n: usize, a: &Vec<char>, m: usize, b: &Vec<char>) -> (r: bool)
    ensures
        r == if n != m { n < m } else { lex_lt(a@, b@) },
{
    if n != m {
        return n < m;
    }
    let mut i: usize = 0;
    assert(a@.skip(0) =~= a@ && b@.skip(0) =~= b@);
    while i < a.len() && i < b.len()
        invariant
            i <= a@.len(),
            i <= b@.len(),
            lex_lt(a@, b@) == lex_lt(a@.skip(i as int), b@.skip(i as int)),
            n == m,
        decreases a@.len() - i,
    {
        if a[i] != b[i] {
            let ghost sa = a@.skip(i as int);
            let ghost sb = b@.skip(i as int);
            assert(sa[0] == a@[i as int] && sb[0] == b@[i as int]);
            return a[i] < b[i];
        }
        assert(a@.skip(i as int).drop_first() =~= a@.skip(i + 1));
        assert(b@.skip(i as int).drop_first() =~= b@.skip(i + 1));
        i = i + 1;
    }
    a.len() < b.len()
}

/// The message for a `${` without a closing brace.
pub open spec fn unmatched_text() -> Seq<char> {
    "unmatched opening brace: \"${\" expects a closing \"}\"\nhelp: use \"$${\" to escape and resolve to the literal \"${\""@
}

/// The message for a placeholder with nothing to name: `brace` for `${..}`,
/// `next` the character after the `$`.
pub open spec fn missing_text(brace: bool, next: Option<char>, var: Seq<char>) -> Seq<char> {
    if brace {
        "missing identifier: \"${"@ + var + "}\" is expected to enclose an identifier\nhelp: use \"$${"@
            + var + "}\" to escape and resolve to the literal \"${"@ + var + "}\""@
    } else if next is Some {
        "missing identifier: \"$\" is expected to precede an identifier\nhelp: use \"$$"@
            + seq![next->0] + "\" to escape and resolve to the literal \"$"@ + seq![next->0] + "\""@
    } else {
        "missing identifier: \"$\" is expected to precede an identifier\nhelp: use \"$$\" to escape and resolve to the literal \"$\""@
    }
}

/// The message for a placeholder whose name is not an identifier.
pub open spec fn invalid_text(brace: bool, var: Seq<char>) -> Seq<char> {
    if brace {
        "invalid identifier: \"${"@ + var + "}\" is expected to be an identifier\nhelp: use \"$${"@
            + var + "}\" to escape and resolve to the literal \"${"@ + var + "}\""@
    } else {
        "invalid identifier: \"$"@ + var + "\" is expected to be an identifier\nhelp: use \"$$"@
            + var + "\" to escape and resolve to the literal \"$"@ + var + "\""@
    }
}

/// The message for a placeholder naming an unknown parameter, listing the known ones.
pub open spec fn unknown_text(brace: bool, var: Seq<char>, known: Seq<char>) -> Seq<char> {
    if brace {
        "unknown parameter: "@ + var + "\n known parameters: "@ + known
            + "\nhelp: use \"$${"@ + var + "}\" to escape and resolve to the literal \"${"@ + var + "}\""@
    } else {
        "unknown parameter: "@ + var + "\n known parameters: "@ + known
            + "\nhelp: use \"$$"@ + var + "\" to escape and resolve to the literal \"$"@ + var + "\""@
    }
}

/// The message for the placeholder at `$` position `i` of `v` that fails, with
/// `known` the list of known parameters.
pub open spec fn failure_message(v: Seq<char>, i: int, known: Seq<char>) -> Seq<char> {
    if i + 1 >= v.len() {
        missing_text(false, None, Seq::empty())
    } else {
        let brace = v[i + 1] == '{';
        match token(v, i) {
            Err(_) => unmatched_text(),
            Ok((var, _)) => if all_white(var) {
                missing_text(brace, Some(v[i + 1]), var)
            } else if resolved_ident(var) is None {
                invalid_text(brace, var)
            } else {
                unknown_text(brace, var, known)
            },
        }
    }
}

/// Whether `list` holds the names `keys`, each once, in listing order.
pub open spec fn listing(keys: Seq<String>, list: Seq<Seq<char>>) -> bool {
    &&& sorted_names(list)
    &&& list.len() == keys.len()
    &&& (forall|a: int| 0 <= a < keys.len() ==> list.contains(#[trigger] keys[a]@))
    &&& (forall|t: int| 0 <= t < list.len() ==> exists|a: int| 0 <= a < keys.len() && #[trigger] list[t] == keys[a]@)
}

/// The message for a `${` without a closing brace.
pub fn unmatched_message() -> (s: String)
    ensures
        s@ == unmatched_text(),
{
    let mut s = String::new();
    push_str(&mut s, "unmatched opening brace: \"${\" expects a closing \"}\"\nhelp: use \"$${\" to escape and resolve to the literal \"${\"");
    s
}

/// The message for a placeholder with nothing to name: `brace` for `${..}`,
/// `next` the character after the `$`.
pub fn missing_message(brace: bool, next: Option<char>, var: &String) -> (s: String)
    ensures
        s@ == missing_text(brace, next, var@),
        brace ==> s@ == "missing identifier: \"${"@ + var@ + "}\" is expected to enclose an identifier\nhelp: use \"$${"@
            + var@ + "}\" to escape and resolve to the literal \"${"@ + var@ + "}\""@,
        !brace && next is Some ==> s@ == "missing identifier: \"$\" is expected to precede an identifier\nhelp: use \"$$"@
            + seq![next->0] + "\" to escape and resolve to the literal \"$"@ + seq![next->0] + "\""@,
        !brace && next is None ==> s@ == "missing identifier: \"$\" is expected to precede an identifier\nhelp: use \"$$\" to escape and resolve to the literal \"$\""@,
{
    let mut s = String::new();
    if brace {
        push_str(&mut s, "missing identifier: \"${");
        push_str(&mut s, var.as_str());
        push_str(&mut s, "}\" is expected to enclose an identifier\nhelp: use \"$${");
        push_str(&mut s, var.as_str());
        push_str(&mut s, "}\" to escape and resolve to the literal \"${");
        push_str(&mut s, var.as_str());
        push_str(&mut s, "}\"");
    } else {
        match next {
            Some(c) => {
                push_str(&mut s, "missing identifier: \"$\" is expected to precede an identifier\nhelp: use \"$$");
                push_char(&mut s, c);
                push_str(&mut s, "\" to escape and resolve to the literal \"$");
                push_char(&mut s, c);
                push_str(&mut s, "\"");
            }
            None => {
                push_str(&mut s, "missing identifier: \"$\" is expected to precede an identifier\nhelp: use \"$$\" to escape and resolve to the literal \"$\"");
            }
        }
    }
    s
}

/// The message for a placeholder whose name is not an identifier.
pub fn invalid_message(brace: bool, var: &String) -> (s: String)
    ensures
        s@ == invalid_text(brace, var@),
        brace ==> s@ == "invalid identifier: \"${"@ + var@ + "}\" is expected to be an identifier\nhelp: use \"$${"@
            + var@ + "}\" to escape and resolve to the literal \"${"@ + var@ + "}\""@,
        !brace ==> s@ == "invalid identifier: \"$"@ + var@ + "\" is expected to be an identifier\nhelp: use \"$$"@
            + var@ + "\" to escape and resolve to the literal \"$"@ + var@ + "\""@,
{
    let mut s = String::new();
    if brace {
        push_str(&mut s, "invalid identifier: \"${");
        push_str(&mut s, var.as_str());
        push_str(&mut s, "}\" is expected to be an identifier\nhelp: use \"$${");
        push_str(&mut s, var.as_str());
        push_str(&mut s, "}\" to escape and resolve to the literal \"${");
        push_str(&mut s, var.as_str());
        push_str(&mut s, "}\"");
    } else {
        push_str(&mut s, "invalid identifier: \"$");
        push_str(&mut s, var.as_str());
        push_str(&mut s, "\" is expected to be an identifier\nhelp: use \"$$");
        push_str(&mut s, var.as_str());
        push_str(&mut s, "\" to escape and resolve to the literal \"$");
        push_str(&mut s, var.as_str());
        push_str(&mut s, "\"");
    }
    s
}

/// The message for a placeholder naming an unknown parameter, listing the known ones.
pub fn unknown_message(brace: bool, var: &String, known: &String) -> (s: String)
    ensures
        s@ == unknown_text(brace, var@, known@),
        brace ==> s@ == "unknown parameter: "@ + var@ + "\n known parameters: "@ + known@
            + "\nhelp: use \"$${"@ + var@ + "}\" to escape and resolve to the literal \"${"@ + var@ + "}\""@,
        !brace ==> s@ == "unknown parameter: "@ + var@ + "\n known parameters: "@ + known@
            + "\nhelp: use \"$$"@ + var@ + "\" to escape and resolve to the literal \"$"@ + var@ + "\""@,
{
    let mut s = String::new();
    push_str(&mut s, "unknown parameter: ");
    push_str(&mut s, var.as_str());
    push_str(&mut s, "\n known parameters: ");
    push_str(&mut s, known.as_str());
    if brace {
        push_str(&mut s, "\nhelp: use \"$${");
        push_str(&mut s, var.as_str());
        push_str(&mut s, "}\" to escape and resolve to the literal \"${");
        push_str(&mut s, var.as_str());
        push_str(&mut s, "}\"");
    } else {
        push_str(&mut s, "\nhelp: use \"$$");
        push_str(&mut s, var.as_str());
        push_str(&mut s, "\" to escape and resolve to the literal \"$");
        push_str(&mut s, var.as_str());
        push_str(&mut s, "\"");
    }
    s
}


/// The text `self__`, put in front of a displaced parameter's name.
pub open spec fn self_prefix() -> Seq<char> {
    seq!['s', 'e', 'l', 'f', '_', '_']
}

/// The name `k` displaced `j` times: `self__` repeated `j` times, then `k`.
pub open spec fn chain(k: Seq<char>, j: nat) -> Seq<char>
    decreases j,
{
    if j == 0 {
        k
    } else {
        self_prefix() + chain(k, (j - 1) as nat)
    }
}

/// The parameters after setting `k` to `v` and moving each value it displaces one
/// step down the chain `k`, `self__k`, `self__self__k`, ... up to step `n`.
pub open spec fn shifted(m: Map<Seq<char>, Param>, k: Seq<char>, v: Param, n: nat) -> Map<Seq<char>, Param>
    decreases n,
{
    if n == 0 {
        m.insert(k, v)
    } else {
        shifted(m, k, v, (n - 1) as nat).insert(chain(k, n), m[chain(k, (n - 1) as nat)])
    }
}

/// `m1` is `m0` after displacing into `k` the value `v`, where step `n` of the chain
/// is the first name that `m0` lacks.
pub open spec fn displaced(m0: Map<Seq<char>, Param>, m1: Map<Seq<char>, Param>, k: Seq<char>, v: Param, n: nat) -> bool {
    &&& forall|j: nat| j < n ==> m0.contains_key(#[trigger] chain(k, j))
    &&& !m0.contains_key(chain(k, n))
    &&& m1 == shifted(m0, k, v, n)
}

pub proof fn lemma_chain_len(k: Seq<char>, j: nat)
    ensures
        chain(k, j).len() == k.len() + 6 * j,
    decreases j,
{
    if j > 0 {
        lemma_chain_len(k, (j - 1) as nat);
    }
}

pub proof fn lemma_shifted_other(m: Map<Seq<char>, Param>, k: Seq<char>, v: Param, n: nat, x: Seq<char>)
    requires
        forall|j: nat| j <= n ==> x != #[trigger] chain(k, j),
    ensures
        shifted(m, k, v, n).contains_key(x) == m.contains_key(x),
        shifted(m, k, v, n)[x] == m[x],
    decreases n,
{
    assert(x != chain(k, n));
    if n > 0 {
        lemma_shifted_other(m, k, v, (n - 1) as nat, x);
    }
}

/// The longest key length.
pub open spec fn max_len(keys: Seq<String>) -> nat
    decreases keys.len(),
{
    if keys.len() == 0 {
        0
    } else {
        let rest = max_len(keys.drop_last());
        if keys.last()@.len() > rest { keys.last()@.len() } else { rest }
    }
}

pub proof fn lemma_max_len(keys: Seq<String>)
    ensures
        forall|i: int| 0 <= i < keys.len() ==> #[trigger] keys[i]@.len() <= max_len(keys),
    decreases keys.len(),
{
    if keys.len() > 0 {
        lemma_max_len(keys.drop_last());
        assert forall|i: int| 0 <= i < keys.len() implies #[trigger] keys[i]@.len() <= max_len(keys) by {
            if i < keys.len() - 1 {
                assert(keys.drop_last()[i] == keys[i]);
            }
        }
    }
}

/// What draining values does to the cells and state: each is placed into a `Drain`.
pub open spec fn drained(r: Run, vs: Seq<Param>) -> Run
    decreases vs.len(),
{
    if vs.len() == 0 {
        r
    } else {
        placed::<Drain>(drained(r, vs.drop_last()), vs.last())
    }
}

/// ASCII whitespace taken off the front.
pub open spec fn trim_start(s: Seq<char>) -> Seq<char>
    decreases s.len(),
{
    if s.len() > 0 && ascii_white(s[0]) {
        trim_start(s.drop_first())
    } else {
        s
    }
}

/// ASCII whitespace taken off the back.
pub open spec fn trim_end(s: Seq<char>) -> Seq<char>
    decreases s.len(),
{
    if s.len() > 0 && ascii_white(s.last()) {
        trim_end(s.drop_last())
    } else {
        s
    }
}

/// ASCII whitespace taken off both ends.
pub open spec fn trim(s: Seq<char>) -> Seq<char> {
    trim_end(trim_start(s))
}

/// The result of writing the lines `ls`, each trimmed and with its placeholders
/// replaced, separated by a newline and a tab; an error names the failing line.
pub open spec fn outputted<W: Wrapper>(m: Map<Seq<char>, Param>, r: Run, ls: Seq<Seq<char>>) -> Result<Run, (Failure, int)>
    decreases ls.len(),
{
    if ls.len() == 0 {
        Ok(r)
    } else {
        match outputted::<W>(m, r, ls.drop_last()) {
            Err(e) => Err(e),
            Ok(r1) => {
                let r2 = if ls.len() > 1 { put::<W>(r1, seq!['\n', '\t']) } else { r1 };
                match applied::<W>(m, r2, trim(ls.last()), 0) {
                    Ok(r3) => Ok(r3),
                    Err(f) => Err((f, ls.len() - 1)),
                }
            }
        }
    }
}

/// The text of each given line.
pub open spec fn lines(input: Seq<&Info<String>>) -> Seq<Seq<char>> {
    input.map_values(|info: &Info<String>| info.data@)
}

/// Trims ASCII whitespace off both ends.
pub fn trimmed(s: &str) -> (r: String)
    ensures
        r@ == trim(s@),
{
    let v = chars_of(s);
    let mut a: usize = 0;
    assert(v@.subrange(0, v@.len() as int) == v@);
    while a < v.len() && is_ascii_whitespace(v[a])
        invariant
            a <= v@.len(),
            trim_start(v@) == trim_start(v@.subrange(a as int, v@.len() as int)),
        decreases v@.len() - a,
    {
        assert(v@.subrange(a as int, v@.len() as int).drop_first() == v@.subrange(a + 1, v@.len() as int));
        a = a + 1;
    }
    assert(trim_start(v@.subrange(a as int, v@.len() as int)) == v@.subrange(a as int, v@.len() as int));
    let mut b: usize = v.len();
    while b > a && is_ascii_whitespace(v[b - 1])
        invariant
            a <= b <= v@.len(),
            trim(v@) == trim_end(v@.subrange(a as int, b as int)),
        decreases b,
    {
        assert(v@.subrange(a as int, b as int).drop_last() == v@.subrange(a as int, b - 1));
        b = b - 1;
    }
    piece(&v, a, b)
}

impl Params {
    /// Sets `key` to `val`; a value it replaces moves on to `self__key`,
    /// displacing in turn what stood there, until a free name is reached.
    pub fn displace(&mut self, key: &str, val: Value)
        requires
            old(self).wf(),
            old(self).valid(val@),
        ensures
            final(self).wf(),
            exists|n: nat| displaced(old(self).map(), final(self).map(), key@, val@, n),
            final(self).state == old(self).state,
            final(self).cells == old(self).cells,
    {
        let ghost m0 = self.map();
        let ghost bound = max_len(self.keys@);
        let ghost keys0 = self.keys@;
        proof { lemma_max_len(self.keys@); }
        let mut cur = key.to_owned();
        let mut carry = val;
        let ghost mut j: nat = 0;
        loop
            invariant
                self.wf(),
                self.valid(carry@),
                self.state == old(self).state,
                self.cells == old(self).cells,
                self.keys@ == keys0,
                bound == max_len(keys0),
                forall|i: int| 0 <= i < keys0.len() ==> #[trigger] keys0[i]@.len() <= bound,
                m0 == old(self).map(),
                cur@ == chain(key@, j),
                forall|i: nat| i < j ==> m0.contains_key(#[trigger] chain(key@, i)),
                j == 0 ==> self.map() == m0 && carry@ == val@,
                j > 0 ==> self.map() == shifted(m0, key@, val@, (j - 1) as nat)
                    && carry@ == m0[chain(key@, (j - 1) as nat)],
            decreases if cur@.len() <= bound { bound + 1 - cur@.len() } else { 0 },
        {
            proof {
                lemma_key_map(self.keys@, self.vals@);
                lemma_chain_len(key@, j);
                if j > 0 {
                    assert forall|i: nat| i <= (j - 1) as nat implies cur@ != #[trigger] chain(key@, i) by {
                        lemma_chain_len(key@, i);
                    }
                    lemma_shifted_other(m0, key@, val@, (j - 1) as nat, cur@);
                }
            }
            let ghost before = self.map();
            proof {
                assert forall|k: Seq<char>| #[trigger] before.contains_key(k) implies self.valid(before[k]) by {
                    let t = choose|t: int| 0 <= t < self.keys@.len() && self.keys@[t]@ == k;
                    assert(self.valid(self.vals@[t]@));
                }
            }
            let present = self.put(cur.as_str(), carry);
            match present {
                None => {
                    proof {
                        assert(!m0.contains_key(chain(key@, j)));
                        assert(displaced(m0, self.map(), key@, val@, j));
                    }
                    return;
                }
                Some(o) => {
                    proof {
                        let i = choose|i: int| 0 <= i < keys0.len() && keys0[i]@ == cur@;
                        assert(keys0[i]@.len() <= bound);
                        assert(m0.contains_key(chain(key@, j)));
                        assert(o@ == m0[chain(key@, j)]);
                        assert(self.valid(o@));
                    }
                    carry = o;
                    let mut next = String::new();
                    proof { reveal_strlit("self__"); assert("self__"@ =~= self_prefix()); }
                    push_str(&mut next, "self__");
                    push_str(&mut next, cur.as_str());
                    cur = next;
                    proof { j = j + 1; }
                }
            }
        }
    }
}


impl Params {
    /// Frees the name `key`: a value standing there moves on to `self__key`,
    /// displacing in turn what stood there, until a free name is reached.
    pub fn ensure(&mut self, key: &str)
        requires
            old(self).wf(),
        ensures
            final(self).wf(),
            old(self).map().contains_key(key@) ==> exists|n: nat|
                displaced(old(self).map().remove(key@), final(self).map(), chain(key@, 1), old(self).map()[key@], n),
            !old(self).map().contains_key(key@) ==> final(self).map() == old(self).map(),
            final(self).state == old(self).state,
            final(self).cells == old(self).cells,
    {
        proof { lemma_key_map(self.keys@, self.vals@); }
        match self.find(key) {
            None => {}
            Some(i) => {
                let ghost m0 = self.map();
                let ghost k0 = self.keys@;
                let ghost v0 = self.vals@;
                assert(m0.contains_key(k0[i as int]@));
                assert(self.valid(v0[i as int]@));
                assert(m0[key@] == v0[i as int]@);
                let _k = self.keys.remove(i);
                let v = self.vals.remove(i);
                proof {
                    assert(distinct(self.keys@)) by {
                        assert forall|a: int, b: int| 0 <= a < self.keys@.len() && 0 <= b < self.keys@.len() && a != b
                            implies self.keys@[a]@ != self.keys@[b]@ by {
                            let a0 = if a < i { a } else { a + 1 };
                            let b0 = if b < i { b } else { b + 1 };
                            assert(self.keys@[a] == k0[a0]);
                            assert(self.keys@[b] == k0[b0]);
                        }
                    }
                    lemma_key_map(self.keys@, self.vals@);
                    assert(self.map() =~= m0.remove(key@)) by {
                        assert forall|k: Seq<char>| #[trigger] self.map().contains_key(k) <==> m0.remove(key@).contains_key(k) by {
                            if self.map().contains_key(k) {
                                let a = choose|a: int| 0 <= a < self.keys@.len() && self.keys@[a]@ == k;
                                let a0 = if a < i { a } else { a + 1 };
                                assert(self.keys@[a] == k0[a0]);
                                assert(m0.contains_key(k0[a0]@));
                            }
                            if m0.remove(key@).contains_key(k) {
                                let a0 = choose|a: int| 0 <= a < k0.len() && k0[a]@ == k;
                                let a = if a0 < i { a0 } else { a0 - 1 };
                                assert(self.keys@[a] == k0[a0]);
                                assert(self.map().contains_key(self.keys@[a]@));
                            }
                        }
                        assert forall|k: Seq<char>| #[trigger] self.map().contains_key(k)
                            implies self.map()[k] == m0.remove(key@)[k] by {
                            let a = choose|a: int| 0 <= a < self.keys@.len() && self.keys@[a]@ == k;
                            let a0 = if a < i { a } else { a + 1 };
                            assert(self.keys@[a] == k0[a0]);
                            assert(self.vals@[a] == v0[a0]);
                            assert(m0.contains_key(k0[a0]@));
                        }
                    }
                    assert forall|a: int| 0 <= a < self.vals@.len() implies self.valid(#[trigger] self.vals@[a]@) by {
                        let a0 = if a < i { a } else { a + 1 };
                        assert(self.vals@[a] == v0[a0]);
                        assert(old(self).valid(v0[a0]@));
                    }
                }
                let mut name = String::new();
                proof { reveal_strlit("self__"); assert("self__"@ =~= self_prefix()); }
                push_str(&mut name, "self__");
                push_str(&mut name, key);
                proof {
                    assert(name@ =~= self_prefix() + key@);
                    assert(chain(key@, 0) == key@);
                }
                let ghost vv = v;
                let ghost m1 = self.map();
                self.displace(name.as_str(), v);
                proof {
                    let n = choose|n: nat| displaced(m1, self.map(), name@, vv@, n);
                    assert(displaced(old(self).map().remove(key@), self.map(), chain(key@, 1), old(self).map()[key@], n));
                }
            }
        }
    }

    /// Places each value into a `Drain`: binds not yet placed get their positions.
    pub fn drain(&mut self, vals: &[Value]) -> (r: Result<(), Error>)
        requires
            old(self).wf(),
            forall|i: int| 0 <= i < vals@.len() ==> old(self).valid(#[trigger] vals@[i]@),
        ensures
            final(self).wf(),
            r is Ok,
            final(self).keys == old(self).keys,
            final(self).vals == old(self).vals,
            run_of(Drain, final(self).cells@, final(self).state@)
                == drained(run_of(Drain, old(self).cells@, old(self).state@), vals@.map_values(|v: Value| v@)),
    {
        let mut i: usize = 0;
        let mut sink = Drain;
        while i < vals.len()
            invariant
                i <= vals@.len(),
                old(self).wf(),
                self.wf(),
                self.keys == old(self).keys,
                self.vals == old(self).vals,
                self.cells@.len() == old(self).cells@.len(),
                forall|j: int| 0 <= j < vals@.len() ==> old(self).valid(#[trigger] vals@[j]@),
                run_of(sink, self.cells@, self.state@)
                    == drained(run_of(Drain, old(self).cells@, old(self).state@), vals@.map_values(|v: Value| v@).take(i as int)),
            decreases vals@.len() - i,
        {
            assert(old(self).valid(vals@[i as int]@));
            place_value(&mut self.cells, &mut self.state, &mut sink, &vals[i]);
            proof {
                self.lemma_valid_cells(*old(self));
                assert(vals@.map_values(|v: Value| v@).take(i + 1).drop_last() == vals@.map_values(|v: Value| v@).take(i as int));
            }
            i = i + 1;
        }
        assert(vals@.map_values(|v: Value| v@).take(vals@.len() as int) == vals@.map_values(|v: Value| v@));
        Ok(())
    }

    /// Writes each line, trimmed and with its placeholders replaced, separating
    /// lines by a newline and a tab. An error carries the span of its line.
    pub fn output<W: Wrapper>(&mut self, dst: &mut W, input: &[&Info<String>]) -> (r: Result<(), Error>)
        requires
            old(self).wf(),
        ensures
            final(self).wf(),
            final(self).keys == old(self).keys,
            final(self).vals == old(self).vals,
            final(self).cells@.len() == old(self).cells@.len(),
            match outputted::<W>(old(self).map(), run_of(*old(dst), old(self).cells@, old(self).state@), lines(input@)) {
                Ok(run) => r is Ok && run_of(*final(dst), final(self).cells@, final(self).state@) == run,
                Err((f, i)) => r matches Err(e) && e.fault == f.0 && e.message@ == f.1 && 0 <= i < input@.len() && e.span == input@[i].span,
            },
    {
        let ghost m = self.map();
        let ghost r0 = run_of(*dst, self.cells@, self.state@);
        let mut i: usize = 0;
        while i < input.len()
            invariant
                i <= input@.len(),
                old(self).wf(),
                self.wf(),
                self.keys == old(self).keys,
                self.vals == old(self).vals,
                self.cells@.len() == old(self).cells@.len(),
                m == self.map(),
                m == old(self).map(),
                r0 == run_of(*old(dst), old(self).cells@, old(self).state@),
                outputted::<W>(m, r0, lines(input@).take(i as int)) == Ok::<Run, (Failure, int)>(run_of(*dst, self.cells@, self.state@)),
            decreases input@.len() - i,
        {
            let ghost ls = lines(input@).take(i + 1);
            assert(ls.drop_last() == lines(input@).take(i as int));
            assert(ls.last() == input@[i as int].data@);
            if i > 0 {
                proof { reveal_strlit("\n\t"); assert("\n\t"@ =~= seq!['\n', '\t']); }
                dst.push_str("\n\t");
            }
            let info = input[i];
            let line = trimmed(info.data.as_str());
            let res = self.apply(dst, line.as_str(), info.span);
            match res {
                Ok(()) => {}
                Err(e) => {
                    proof {
                        assert(lines(input@).take(input@.len() as int) == lines(input@));
                        lemma_outputted_err::<W>(m, r0, lines(input@), i as int);
                    }
                    return Err(e);
                }
            }
            i = i + 1;
        }
        assert(lines(input@).take(input@.len() as int) == lines(input@));
        Ok(())
    }
}

/// An error on line `i` is the error of the whole output.
pub proof fn lemma_outputted_err<W: Wrapper>(m: Map<Seq<char>, Param>, r: Run, ls: Seq<Seq<char>>, i: int)
    requires
        0 <= i < ls.len(),
        outputted::<W>(m, r, ls.take(i + 1)) is Err,
    ensures
        outputted::<W>(m, r, ls) == outputted::<W>(m, r, ls.take(i + 1)),
    decreases ls.len() - i,
{
    if i + 1 < ls.len() {
        assert(ls.take(i + 2).drop_last() == ls.take(i + 1));
        lemma_outputted_err::<W>(m, r, ls, i + 1);
    } else {
        assert(ls.take(i + 1) == ls);
    }
}

} // verus!
