use vstd::prelude::*;
use crate::text::{chars_of, push_str, string_of};

verus! {

/// A step of a query built at run time.
pub enum Step {
    /// Appends literal text.
    Push(String),
    /// Takes off the first of the suffixes that the query ends with; if none does,
    /// gives up on the query when `true`.
    Cut(Vec<String>, bool),
    /// Writes a format string whose named arguments are the listed fields,
    /// binding each field's value first (in the listed order).
    Write(String, Vec<(String, usize)>),
    /// Runs the steps only when the field's optional value is present.
    Present(usize, Vec<Step>),
}

/// What a step does, with its text as plain values.
pub enum Piece {
    Text(Seq<char>),
    Cut(Seq<Seq<char>>, bool),
    Write(Seq<char>, Seq<(Seq<char>, usize)>),
    Present(usize, Seq<Piece>),
}

/// What a step does.
pub open spec fn piece_of(s: Step) -> Piece
    decreases s, 0int,
{
    match s {
        Step::Push(t) => Piece::Text(t@),
        Step::Cut(list, opt) => Piece::Cut(list@.map_values(|t: String| t@), opt),
        Step::Write(f, names) => Piece::Write(f@, names@.map_values(|e: (String, usize)| (e.0@, e.1))),
        Step::Present(i, body) => Piece::Present(i, pieces_upto(body@, body@.len() as int)),
    }
}

/// What the first `n` steps do.
pub open spec fn pieces_upto(v: Seq<Step>, n: int) -> Seq<Piece>
    decreases v, n,
{
    if n <= 0 || n > v.len() {
        Seq::empty()
    } else {
        pieces_upto(v, n - 1).push(piece_of(v[n - 1]))
    }
}

/// What the steps do.
pub open spec fn pieces(v: Seq<Step>) -> Seq<Piece> {
    pieces_upto(v, v.len() as int)
}

/// The pieces with the pending text added, where there is any.
pub open spec fn flush(stream: Seq<Piece>, pending: Seq<char>) -> Seq<Piece> {
    if pending.len() > 0 { stream.push(Piece::Text(pending)) } else { stream }
}

/// The pieces and pending text after taking the first of the suffixes off the
/// pending text; where it ends with none, a `Cut` piece does so at run time.
pub open spec fn cut_model(ps: Seq<Piece>, p: Seq<char>, strs: Seq<Seq<char>>, optional: bool) -> (Seq<Piece>, Seq<char>) {
    match cut_suffix(p, strs) {
        Some(t) => (ps, t),
        None => (flush(ps, p).push(Piece::Cut(strs, optional)), Seq::<char>::empty()),
    }
}

/// Adding a step adds what it does.
pub proof fn lemma_pieces_push(v: Seq<Step>, x: Step)
    ensures
        pieces(v.push(x)) == pieces(v).push(piece_of(x)),
{
    assert(v.push(x).take(v.len() as int) =~= v.take(v.len() as int));
    lemma_pieces_prefix(v.push(x), v, v.len() as int);
}

/// The pieces of a prefix depend only on it.
pub proof fn lemma_pieces_prefix(v: Seq<Step>, w: Seq<Step>, n: int)
    requires
        0 <= n <= v.len(),
        n <= w.len(),
        v.take(n) == w.take(n),
    ensures
        pieces_upto(v, n) == pieces_upto(w, n),
    decreases n,
{
    if n > 0 {
        assert(v[n - 1] == v.take(n)[n - 1]);
        assert(w[n - 1] == w.take(n)[n - 1]);
        assert(v.take(n - 1) =~= v.take(n).take(n - 1));
        assert(w.take(n - 1) =~= w.take(n).take(n - 1));
        lemma_pieces_prefix(v, w, n - 1);
    }
}

/// The text of an optional string.
pub open spec fn text_of(o: Option<String>) -> Option<Seq<char>> {
    match o {
        Some(s) => Some(s@),
        None => None,
    }
}

/// `s` without the first suffix of the list that it ends with, if any.
pub open spec fn cut_suffix(s: Seq<char>, strs: Seq<Seq<char>>) -> Option<Seq<char>>
    decreases strs.len(),
{
    if strs.len() == 0 {
        None
    } else if strs[0].len() <= s.len() && s.skip(s.len() - strs[0].len()) == strs[0] {
        Some(s.take(s.len() - strs[0].len()))
    } else {
        cut_suffix(s, strs.drop_first())
    }
}

/// The text of each string slice.
pub open spec fn views(strs: Seq<&str>) -> Seq<Seq<char>> {
    strs.map_values(|s: &str| s@)
}

/// Whether `s` ends with `t`.
pub fn ends_with(s: &Vec<char>, t: &Vec<char>) -> (b: bool)
    ensures
        b == (t@.len() <= s@.len() && s@.skip(s@.len() - t@.len()) == t@),
{
    if t.len() > s.len() {
        return false;
    }
    let off = s.len() - t.len();
    let mut i: usize = 0;
    while i < t.len()
        invariant
            off as int + t@.len() == s@.len(),
            s@.len() <= usize::MAX,
            i <= t@.len(),
            forall|j: int| 0 <= j < i ==> s@[off + j] == t@[j],
        decreases t@.len() - i,
    {
        if s[off + i] != t[i] {
            assert(s@.skip(off as int)[i as int] != t@[i as int]);
            return false;
        }
        i = i + 1;
    }
    assert(s@.skip(off as int) =~= t@);
    true
}

/// Takes off the first listed suffix that `s` ends with; returns whether one was.
pub fn cut_string(s: &mut String, strs: &[&str]) -> (b: bool)
    ensures
        b == cut_suffix(old(s)@, views(strs@)) is Some,
        final(s)@ == match cut_suffix(old(s)@, views(strs@)) {
            Some(t) => t,
            None => old(s)@,
        },
        cut_suffix(old(s)@, views(strs@)) is None ==> *final(s) == *old(s),
{
    let v = chars_of(s.as_str());
    let mut i: usize = 0;
    assert(views(strs@).skip(0) == views(strs@));
    while i < strs.len()
        invariant
            i <= strs@.len(),
            v@ == s@,
            *s == *old(s),
            cut_suffix(v@, views(strs@)) == cut_suffix(v@, views(strs@).skip(i as int)),
        decreases strs@.len() - i,
    {
        let t = chars_of(strs[i]);
        assert(views(strs@).skip(i as int)[0] == t@);
        assert(views(strs@).skip(i as int).drop_first() == views(strs@).skip(i + 1));
        if ends_with(&v, &t) {
            let keep = v.len() - t.len();
            *s = string_of(&v.as_slice()[0..keep]);
            return true;
        }
        i = i + 1;
    }
    assert(views(strs@).skip(i as int) =~= Seq::<Seq<char>>::empty());
    false
}

/// A query under construction.
///
/// A static query is built in `string`; a dynamic one as `stream` steps, with
/// literal text gathered in `pending` until the next step. `checking` holds the
/// query as the compile-time check sees it. `saved` holds the steps outside an
/// optional field while the field's own steps are built.
pub struct Build {
    pub string: Option<String>,
    pub pending: Option<String>,
    pub checking: Option<String>,
    pub stream: Option<Vec<Step>>,
    pub saved: Option<Vec<Step>>,
    pub optional: bool,
}

impl Build {
    /// A build is static (a string) or dynamic (pending text and steps).
    pub open spec fn wf(&self) -> bool {
        &&& (self.pending is Some <==> self.stream is Some)
        &&& (self.string is Some <==> self.pending is None)
    }

    /// What a dynamic build holds: the pieces of its steps, and its pending text.
    pub open spec fn model(&self) -> Option<(Seq<Piece>, Seq<char>)> {
        match (self.stream, self.pending) {
            (Some(s), Some(p)) => Some((pieces(s@), p@)),
            _ => None,
        }
    }

    /// A new build: dynamic queries are built as steps, static ones as a string;
    /// checked queries also keep the text for the compile-time check; a query that
    /// may end up incomplete gives up at run time where it cannot be cut.
    pub fn new(dynamic: bool, checked: bool, certain: bool) -> (b: Build)
        ensures
            b.wf(),
            text_of(b.pending) == if dynamic { Some(Seq::<char>::empty()) } else { None },
            text_of(b.checking) == if checked { Some(Seq::<char>::empty()) } else { None },
            text_of(b.string) == if dynamic { None } else { Some(Seq::<char>::empty()) },
            (b.stream matches Some(s) ==> s@.len() == 0) && (b.stream is Some <==> dynamic),
            b.saved is None,
            b.optional == !certain,
    {
        Build {
            pending: if dynamic { Some(String::new()) } else { None },
            checking: if checked { Some(String::new()) } else { None },
            string: if dynamic { None } else { Some(String::new()) },
            stream: if dynamic { Some(Vec::new()) } else { None },
            saved: None,
            optional: !certain,
        }
    }

    /// Moves the pending text into a `Push` step.
    pub fn put(&mut self)
        requires
            old(self).wf(),
        ensures
            final(self).wf(),
            final(self).string == old(self).string,
            final(self).checking == old(self).checking,
            final(self).saved == old(self).saved,
            final(self).optional == old(self).optional,
            text_of(final(self).pending) == match old(self).pending {
                Some(_) => Some(Seq::<char>::empty()),
                None => None,
            },
            (final(self).stream is Some) == (old(self).stream is Some),
            old(self).stream matches Some(s0) ==> final(self).stream matches Some(s1) && match old(self).pending {
                Some(p) => if p@.len() > 0 { s1@ == s0@.push(Step::Push(p)) } else { s1@ == s0@ },
                None => s1@ == s0@,
            },
            old(self).model() matches Some((ps, p)) ==> final(self).model() == Some((flush(ps, p), Seq::<char>::empty())),
    {
        let pending = self.pending.take();
        match pending {
            Some(p) => {
                let mut stream = self.stream.take().unwrap();
                if p.as_str().is_empty() == false {
                    proof { lemma_pieces_push(stream@, Step::Push(p)); }
                    stream.push(Step::Push(p));
                }
                self.stream = Some(stream);
                self.pending = Some(String::new());
            }
            None => {}
        }
    }

    /// Adds a step after flushing the pending text.
    pub fn add(&mut self, step: Step)
        requires
            old(self).wf(),
        ensures
            final(self).wf(),
            final(self).string == old(self).string,
            final(self).checking == old(self).checking,
            final(self).saved == old(self).saved,
            final(self).optional == old(self).optional,
            text_of(final(self).pending) == match old(self).pending {
                Some(_) => Some(Seq::<char>::empty()),
                None => None,
            },
            (final(self).stream is Some) == (old(self).stream is Some),
            old(self).stream matches Some(s0) ==> final(self).stream matches Some(s1) && match old(self).pending {
                Some(p) => if p@.len() > 0 { s1@ == s0@.push(Step::Push(p)).push(step) } else { s1@ == s0@.push(step) },
                None => s1@ == s0@.push(step),
            },
            old(self).model() matches Some((ps, p)) ==> final(self).model() == Some((flush(ps, p).push(piece_of(step)), Seq::<char>::empty())),
    {
        self.put();
        match self.stream.take() {
            Some(mut s) => {
                proof { lemma_pieces_push(s@, step); }
                s.push(step);
                self.stream = Some(s);
            }
            None => {}
        }
    }

    /// Appends literal text to every form of the query.
    pub fn str(&mut self, s: &str)
        requires
            old(self).wf(),
        ensures
            final(self).wf(),
            text_of(final(self).checking) == match old(self).checking { Some(c) => Some(c@ + s@), None => None },
            text_of(final(self).pending) == match old(self).pending { Some(c) => Some(c@ + s@), None => None },
            text_of(final(self).string) == match old(self).string { Some(c) => Some(c@ + s@), None => None },
            final(self).stream == old(self).stream,
            final(self).model() == match old(self).model() { Some((ps, p)) => Some((ps, p + s@)), None => None },
            final(self).saved == old(self).saved,
            final(self).optional == old(self).optional,
    {
        if let Some(c) = &mut self.checking {
            push_str(c, s);
        }
        if let Some(c) = &mut self.pending {
            push_str(c, s);
        }
        if let Some(c) = &mut self.string {
            push_str(c, s);
        }
    }

    /// Appends `mac` to the checked query and `fun` to the built one.
    pub fn duo(&mut self, mac: &str, fun: &str)
        requires
            old(self).wf(),
        ensures
            final(self).wf(),
            text_of(final(self).checking) == match old(self).checking { Some(c) => Some(c@ + mac@), None => None },
            text_of(final(self).pending) == match old(self).pending { Some(c) => Some(c@ + fun@), None => None },
            text_of(final(self).string) == match old(self).string { Some(c) => Some(c@ + fun@), None => None },
            final(self).stream == old(self).stream,
            final(self).model() == match old(self).model() { Some((ps, p)) => Some((ps, p + fun@)), None => None },
            final(self).saved == old(self).saved,
            final(self).optional == old(self).optional,
    {
        if let Some(c) = &mut self.checking {
            push_str(c, mac);
        }
        if let Some(c) = &mut self.pending {
            push_str(c, fun);
        }
        if let Some(c) = &mut self.string {
            push_str(c, fun);
        }
    }

    /// Takes off the first listed suffix from every form of the query. Pending text
    /// that ends with none of them leaves a `Cut` step for run time. Returns whether
    /// the checked and the static query each ended with one of them.
    pub fn cut(&mut self, strs: &[&str]) -> (r: bool)
        requires
            old(self).wf(),
        ensures
            final(self).wf(),
            final(self).saved == old(self).saved,
            final(self).optional == old(self).optional,
            text_of(final(self).checking) == match old(self).checking {
                Some(c) => match cut_suffix(c@, views(strs@)) { Some(t) => Some(t), None => Some(c@) },
                None => None,
            },
            text_of(final(self).string) == match old(self).string {
                Some(c) => match cut_suffix(c@, views(strs@)) { Some(t) => Some(t), None => Some(c@) },
                None => None,
            },
            match (old(self).pending, old(self).stream) {
                (Some(p), Some(s0)) => match cut_suffix(p@, views(strs@)) {
                    Some(t) => text_of(final(self).pending) == Some(t) && final(self).stream == old(self).stream,
                    None => {
                        &&& text_of(final(self).pending) == Some(Seq::<char>::empty())
                        &&& final(self).stream matches Some(s1)
                        &&& s1@.len() == s0@.len() + if p@.len() > 0 { 2int } else { 1int }
                        &&& (p@.len() > 0 ==> s1@[s0@.len() as int] == Step::Push(p))
                        &&& s1@.take(s0@.len() as int) == s0@
                        &&& s1@.last() matches Step::Cut(list, opt)
                        &&& opt == old(self).optional
                        &&& list@.map_values(|t: String| t@) == views(strs@)
                    },
                },
                _ => final(self).pending == old(self).pending && final(self).stream == old(self).stream,
            },
            r == ((old(self).checking matches Some(c) ==> cut_suffix(c@, views(strs@)) is Some)
                && (old(self).string matches Some(c) ==> cut_suffix(c@, views(strs@)) is Some)),
            old(self).model() matches Some((ps, p)) ==> final(self).model() == Some(cut_model(ps, p, views(strs@), old(self).optional)),
    {
        if let Some(p) = &mut self.pending {
            let ghost p0 = *p;
            let cut = cut_string(p, strs);
            if !cut {
                let mut list: Vec<String> = Vec::new();
                let mut i: usize = 0;
                while i < strs.len()
                    invariant
                        i <= strs@.len(),
                        list@.map_values(|t: String| t@) == views(strs@).take(i as int),
                    decreases strs@.len() - i,
                {
                    let o = strs[i].to_owned();
                    assert(views(strs@)[i as int] == o@);
                    let ghost l0 = list@;
                    list.push(o);
                    assert(list@ == l0.push(o));
                    assert(views(strs@).take(i + 1) =~= views(strs@).take(i as int).push(o@));
                    i = i + 1;
                    assert(list@.map_values(|t: String| t@) =~= views(strs@).take(i as int));
                }
                assert(views(strs@).take(strs@.len() as int) == views(strs@));
                let opt = self.optional;
                self.add(Step::Cut(list, opt));
            }
        }
        let mut res = true;
        if let Some(c) = &mut self.checking {
            let cut = cut_string(c, strs);
            res = res && cut;
        }
        if let Some(c) = &mut self.string {
            let cut = cut_string(c, strs);
            res = res && cut;
        }
        res
    }

    /// Starts the steps of an optional field: flushes pending text and sets the
    /// steps so far aside. Returns whether it did (only for an optional field of a
    /// dynamic query).
    pub fn opt_open(&mut self, optional: bool) -> (r: bool)
        requires
            old(self).wf(),
            old(self).saved is None,
        ensures
            final(self).wf(),
            r == (optional && old(self).stream is Some),
            final(self).string == old(self).string,
            final(self).checking == old(self).checking,
            final(self).optional == old(self).optional,
            !r ==> *final(self) == *old(self),
            r ==> (final(self).stream matches Some(s) && s@.len() == 0),
            r ==> text_of(final(self).pending) == Some(Seq::<char>::empty()),
            r ==> (final(self).saved matches Some(saved) && old(self).stream matches Some(s0) && match old(self).pending {
                Some(p) => if p@.len() > 0 { saved@ == s0@.push(Step::Push(p)) } else { saved@ == s0@ },
                None => saved@ == s0@,
            }),
            r ==> (old(self).model() matches Some((ps, p)) && final(self).saved matches Some(sv)
                && pieces(sv@) == flush(ps, p) && final(self).model() == Some((Seq::<Piece>::empty(), Seq::<char>::empty()))),
    {
        if optional && self.stream.is_some() {
            self.put();
            let outer = self.stream.take();
            self.saved = outer;
            self.stream = Some(Vec::new());
            true
        } else {
            false
        }
    }

    /// Ends the steps of an optional field: they become a `Present` step of the
    /// steps set aside.
    pub fn opt_close(&mut self, field: usize, opened: bool)
        requires
            old(self).wf(),
            opened ==> old(self).saved is Some && old(self).stream is Some,
        ensures
            final(self).wf(),
            final(self).string == old(self).string,
            final(self).checking == old(self).checking,
            final(self).optional == old(self).optional,
            !opened ==> *final(self) == *old(self),
            opened ==> final(self).saved is None,
            opened ==> text_of(final(self).pending) == Some(Seq::<char>::empty()),
            opened ==> {
                &&& final(self).stream matches Some(s)
                &&& old(self).saved matches Some(saved)
                &&& old(self).stream matches Some(body0)
                &&& s@.len() == saved@.len() + 1
                &&& s@.take(saved@.len() as int) == saved@
                &&& s@.last() matches Step::Present(f, body)
                &&& f == field
                &&& match old(self).pending {
                    Some(p) => if p@.len() > 0 { body@ == body0@.push(Step::Push(p)) } else { body@ == body0@ },
                    None => body@ == body0@,
                }
            },
            opened ==> (old(self).saved matches Some(sv) && old(self).model() matches Some((ps, p))
                && final(self).model() == Some((pieces(sv@).push(Piece::Present(field, flush(ps, p))), Seq::<char>::empty()))),
    {
        if opened {
            self.put();
            let body = self.stream.take().unwrap();
            let mut outer = self.saved.take().unwrap();
            proof { lemma_pieces_push(outer@, Step::Present(field, body)); }
            outer.push(Step::Present(field, body));
            self.stream = Some(outer);
        }
    }
}


/// The fields among `rest` whose values are optional, in order.
pub open spec fn optional_among(rest: Seq<usize>, opts: Seq<bool>) -> Seq<usize>
    decreases rest.len(),
{
    if rest.len() == 0 {
        Seq::empty()
    } else {
        let before = optional_among(rest.drop_last(), opts);
        let f = rest.last();
        if f < opts.len() && opts[f as int] { before.push(f) } else { before }
    }
}

/// A finished query: its text (static, or as steps run at run time), the text
/// the compile-time check sees, and the fields bound, by position.
pub struct Done {
    pub query: Option<String>,
    pub check: Option<String>,
    pub steps: Option<Vec<Step>>,
    /// The fields bound by the query, in the order of their bind positions.
    pub args: Vec<usize>,
    /// The other fields.
    pub rest: Vec<usize>,
    /// The fields whose values a dynamic query reads: the bound ones, then the
    /// optional ones among the rest.
    pub binds: Vec<usize>,
    /// Whether the query is built as an `Option`, given up where it cannot be cut.
    pub optional: bool,
}

impl Build {
    /// Finishes the query: flushes the pending text and hands over each form of the
    /// query with the bound fields and the rest. `opts` tells, by field, whether its
    /// value is optional.
    pub fn done(self, args: Vec<usize>, rest: Vec<usize>, opts: &[bool]) -> (d: Done)
        requires
            self.wf(),
        ensures
            d.query == self.string,
            d.check == self.checking,
            d.args == args,
            d.rest == rest,
            d.optional == self.optional,
            d.binds@ == args@ + optional_among(rest@, opts@),
            (d.steps is Some) == (self.stream is Some),
            self.stream matches Some(s0) ==> d.steps matches Some(s1) && match self.pending {
                Some(p) => if p@.len() > 0 { s1@ == s0@.push(Step::Push(p)) } else { s1@ == s0@ },
                None => s1@ == s0@,
            },
            self.model() matches Some((ps, p)) ==> d.steps matches Some(s) && pieces(s@) == flush(ps, p),
    {
        let mut b = self;
        b.put();
        let mut binds: Vec<usize> = Vec::new();
        let mut i: usize = 0;
        while i < args.len()
            invariant
                i <= args@.len(),
                binds@ == args@.take(i as int),
            decreases args@.len() - i,
        {
            binds.push(args[i]);
            i = i + 1;
            assert(binds@ =~= args@.take(i as int));
        }
        assert(args@.take(args@.len() as int) =~= args@);
        let mut j: usize = 0;
        while j < rest.len()
            invariant
                j <= rest@.len(),
                binds@ == args@ + optional_among(rest@.take(j as int), opts@),
            decreases rest@.len() - j,
        {
            let f = rest[j];
            assert(rest@.take(j + 1).drop_last() =~= rest@.take(j as int));
            if f < opts.len() && opts[f] {
                binds.push(f);
            }
            j = j + 1;
            assert(binds@ =~= args@ + optional_among(rest@.take(j as int), opts@));
        }
        assert(rest@.take(rest@.len() as int) =~= rest@);
        Done {
            query: b.string,
            check: b.checking,
            steps: b.stream,
            args,
            rest,
            binds,
            optional: b.optional,
        }
    }
}

} // verus!
