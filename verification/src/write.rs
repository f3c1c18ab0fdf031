use vstd::prelude::*;
use crate::escape::{escape, Escape};
use crate::text::{push_str as append, chars_of};

verus! {

/// The digit character for a value below ten.
pub open spec fn digit(n: nat) -> char {
    if n == 0 { '0' } else if n == 1 { '1' } else if n == 2 { '2' } else if n == 3 { '3' }
    else if n == 4 { '4' } else if n == 5 { '5' } else if n == 6 { '6' } else if n == 7 { '7' }
    else if n == 8 { '8' } else { '9' }
}

/// The decimal notation of a natural number, as `Display` writes it.
pub open spec fn decimal(n: nat) -> Seq<char>
    decreases n,
{
    if n < 10 {
        seq![digit(n)]
    } else {
        decimal(n / 10).push(digit(n % 10))
    }
}

/// Writes a number in decimal notation.
pub fn decimal_string(n: usize) -> (s: String)
    ensures
        s@ == decimal(n as nat),
    decreases n,
{
    let d = n % 10;
    let c = if d == 0 { '0' } else if d == 1 { '1' } else if d == 2 { '2' } else if d == 3 { '3' }
        else if d == 4 { '4' } else if d == 5 { '5' } else if d == 6 { '6' } else if d == 7 { '7' }
        else if d == 8 { '8' } else { '9' };
    if n < 10 {
        let mut s = String::new();
        crate::text::push_char(&mut s, c);
        assert(s@ == seq![digit(n as nat)]);
        s
    } else {
        let mut s = decimal_string(n / 10);
        crate::text::push_char(&mut s, c);
        s
    }
}

/// Whether `a` sorts before `b`, comparing characters by code point.
pub open spec fn lex_lt(a: Seq<char>, b: Seq<char>) -> bool
    decreases a.len(),
{
    if a.len() == 0 {
        b.len() > 0
    } else if b.len() == 0 {
        false
    } else if a[0] != b[0] {
        a[0] < b[0]
    } else {
        lex_lt(a.drop_first(), b.drop_first())
    }
}

/// Inserts `(name, value)` into a list kept sorted by name, replacing an equal name.
pub open spec fn note(ns: Seq<(Seq<char>, usize)>, name: Seq<char>, value: usize) -> Seq<(Seq<char>, usize)>
    decreases ns.len(),
{
    if ns.len() == 0 {
        seq![(name, value)]
    } else if ns[0].0 == name {
        ns.update(0, (name, value))
    } else if lex_lt(name, ns[0].0) {
        seq![(name, value)] + ns
    } else {
        seq![ns[0]] + note(ns.drop_first(), name, value)
    }
}

/// A destination for generated text.
///
/// Text given to `push_str` is rendered by the destination (kept, escaped or
/// dropped); text given to `push_inner` bypasses any escaping. Destinations that
/// are `outer` write binds as named format arguments and note them.
pub trait Wrapper: Sized {
    /// The text held so far.
    spec fn text(&self) -> Seq<char>;

    /// The named binds noted so far, sorted by name.
    spec fn noted(&self) -> Seq<(Seq<char>, usize)>;

    /// What `push_str(s)` appends.
    spec fn rendered(s: Seq<char>) -> Seq<char>;

    /// What `push_inner(s)` appends.
    spec fn raw(s: Seq<char>) -> Seq<char>;

    /// Whether binds are written as named format arguments.
    spec fn is_outer() -> bool;

    fn push_str(&mut self, s: &str)
        ensures
            final(self).text() == old(self).text() + Self::rendered(s@),
            final(self).noted() == old(self).noted(),
    ;

    fn push_inner(&mut self, s: &str)
        ensures
            final(self).text() == old(self).text() + Self::raw(s@),
            final(self).noted() == old(self).noted(),
    ;

    fn outer(&self) -> (b: bool)
        ensures
            b == Self::is_outer(),
    ;

    fn state(&mut self, name: &str, value: usize)
        ensures
            final(self).text() == old(self).text(),
            final(self).noted() == if Self::is_outer() {
                note(old(self).noted(), name@, value)
            } else {
                old(self).noted()
            },
    ;
}

/// A destination that discards all text.
pub struct Drain;

impl Wrapper for Drain {
    open spec fn text(&self) -> Seq<char> {
        Seq::empty()
    }

    open spec fn noted(&self) -> Seq<(Seq<char>, usize)> {
        Seq::empty()
    }

    open spec fn rendered(s: Seq<char>) -> Seq<char> {
        Seq::empty()
    }

    open spec fn raw(s: Seq<char>) -> Seq<char> {
        Seq::empty()
    }

    open spec fn is_outer() -> bool {
        false
    }

    fn push_str(&mut self, s: &str) {
    }

    fn push_inner(&mut self, s: &str) {
    }

    fn outer(&self) -> (b: bool) {
        false
    }

    fn state(&mut self, name: &str, value: usize) {
    }
}

impl Wrapper for String {
    open spec fn text(&self) -> Seq<char> {
        self@
    }

    open spec fn noted(&self) -> Seq<(Seq<char>, usize)> {
        Seq::empty()
    }

    open spec fn rendered(s: Seq<char>) -> Seq<char> {
        s
    }

    open spec fn raw(s: Seq<char>) -> Seq<char> {
        s
    }

    open spec fn is_outer() -> bool {
        false
    }

    fn push_str(&mut self, s: &str) {
        append(self, s);
    }

    fn push_inner(&mut self, s: &str) {
        append(self, s);
    }

    fn outer(&self) -> (b: bool) {
        false
    }

    fn state(&mut self, name: &str, value: usize) {
    }
}


/// A destination that builds a format string: text is escaped, and binds are
/// written as named arguments `{name}` and noted, sorted by name.
pub struct Format {
    pub escape: Escape<String>,
    pub state: Vec<(String, usize)>,
}

/// The noted binds as names with their fields.
pub open spec fn noted_of(state: Seq<(String, usize)>) -> Seq<(Seq<char>, usize)> {
    state.map_values(|e: (String, usize)| (e.0@, e.1))
}

/// Whether `a` sorts before `b`.
pub fn less(a: &String, b: &String) -> (r: bool)
    ensures
        r == lex_lt(a@, b@),
{
    let x = chars_of(a.as_str());
    let y = chars_of(b.as_str());
    let mut i: usize = 0;
    assert(x@.skip(0) == x@ && y@.skip(0) == y@);
    while i < x.len() && i < y.len() && x[i] == y[i]
        invariant
            i <= x@.len(),
            i <= y@.len(),
            x@ == a@,
            y@ == b@,
            lex_lt(a@, b@) == lex_lt(x@.skip(i as int), y@.skip(i as int)),
        decreases x@.len() - i,
    {
        assert(x@.skip(i as int).drop_first() == x@.skip(i + 1));
        assert(y@.skip(i as int).drop_first() == y@.skip(i + 1));
        i = i + 1;
    }
    if i < x.len() && i < y.len() {
        x[i] < y[i]
    } else {
        i == x.len() && i < y.len()
    }
}

pub proof fn lemma_note_skip(ns: Seq<(Seq<char>, usize)>, name: Seq<char>, value: usize, i: int)
    requires
        0 <= i < ns.len(),
        ns[i].0 != name,
        !lex_lt(name, ns[i].0),
    ensures
        note(ns.skip(i), name, value) == seq![ns[i]] + note(ns.skip(i + 1), name, value),
{
    assert(ns.skip(i).drop_first() == ns.skip(i + 1));
}

impl Format {
    /// An empty format string with nothing noted.
    pub fn new() -> (f: Format)
        ensures
            f.text() == Seq::<char>::empty(),
            f.noted() == Seq::<(Seq<char>, usize)>::empty(),
    {
        Format { escape: Escape(String::new()), state: Vec::new() }
    }

    /// The format string and the noted binds.
    pub fn into_inner(self) -> (r: (String, Vec<(String, usize)>))
        ensures
            r.0@ == self.text(),
            noted_of(r.1@) == self.noted(),
    {
        (self.escape.into_inner(), self.state)
    }
}

impl Wrapper for Format {
    open spec fn text(&self) -> Seq<char> {
        self.escape.0@
    }

    open spec fn noted(&self) -> Seq<(Seq<char>, usize)> {
        noted_of(self.state@)
    }

    open spec fn rendered(s: Seq<char>) -> Seq<char> {
        escape(s)
    }

    open spec fn raw(s: Seq<char>) -> Seq<char> {
        s
    }

    open spec fn is_outer() -> bool {
        true
    }

    fn push_str(&mut self, s: &str) {
        self.escape.write_str(s);
    }

    fn push_inner(&mut self, s: &str) {
        append(&mut self.escape.0, s);
    }

    fn outer(&self) -> (b: bool) {
        true
    }

    fn state(&mut self, name: &str, value: usize) {
        let n = name.to_owned();
        let ghost ns = noted_of(self.state@);
        let mut i: usize = 0;
        assert(ns.skip(0) == ns && ns.take(0) + note(ns, name@, value) == note(ns, name@, value));
        while i < self.state.len()
            invariant
                i <= self.state@.len(),
                ns == noted_of(old(self).state@),
                self.state == old(self).state,
                self.escape == old(self).escape,
                n@ == name@,
                note(ns, name@, value) == ns.take(i as int) + note(ns.skip(i as int), name@, value),
            decreases self.state@.len() - i,
        {
            if self.state[i].0 == n {
                let ghost before = self.state@;
                self.state.set(i, (n, value));
                proof {
                    assert(ns.skip(i as int)[0].0 == name@);
                    assert(noted_of(self.state@) =~= ns.take(i as int) + ns.skip(i as int).update(0, (name@, value)));
                }
                return;
            }
            if less(&n, &self.state[i].0) {
                self.state.insert(i, (n, value));
                proof {
                    assert(noted_of(self.state@) =~= ns.take(i as int) + (seq![(name@, value)] + ns.skip(i as int)));
                }
                return;
            }
            proof { lemma_note_skip(ns, name@, value, i as int); }
            assert(ns.take(i + 1) =~= ns.take(i as int) + seq![ns[i as int]]);
            i = i + 1;
        }
        self.state.push((n, value));
        proof {
            assert(ns.skip(i as int) =~= Seq::<(Seq<char>, usize)>::empty());
            assert(ns.take(i as int) == ns);
            assert(noted_of(self.state@) =~= ns + seq![(name@, value)]);
        }
    }
}

} // verus!
