use vstd::prelude::*;
use crate::builder::cut_suffix;
use crate::escape::escape;
use crate::params::{Param, Run, applied, token, name_end, lemma_name_end, put, placed, first_from, lemma_first_from, chain, shifted, displaced, lemma_chain_len, lemma_shifted_other};
use crate::query::{ensured, displaced_map, free_step};
use crate::construct::{agree, agreeing, picked, contracted};
use crate::write::{Wrapper, decimal};
use crate::ident::xid_continue;

verus! {

/// Text without a `$` is written as it is.
pub proof fn law_plain_text<W: Wrapper>(m: Map<Seq<char>, Param>, r: Run, v: Seq<char>)
    requires
        forall|k: int| 0 <= k < v.len() ==> v[k] != '$',
    ensures
        applied::<W>(m, r, v, 0) == Ok::<Run, crate::error::Failure>(put::<W>(r, v)),
{
    lemma_first_from(v, 0, '$');
    assert(v.subrange(0, v.len() as int) =~= v);
}

/// `$$` stands for a single `$`: `$$` followed by text without a `$` writes a `$`
/// and then that text.
pub proof fn law_dollar_dollar<W: Wrapper>(m: Map<Seq<char>, Param>, r: Run, rest: Seq<char>)
    requires
        forall|k: int| 0 <= k < rest.len() ==> rest[k] != '$',
    ensures
        applied::<W>(m, r, seq!['$', '$'] + rest, 0) == Ok::<Run, crate::error::Failure>(put::<W>(put::<W>(r, seq!['$']), rest)),
{
    let v = seq!['$', '$'] + rest;
    assert(v[0] == '$');
    assert(v[1] == '$');
    assert(first_from(v, 0, '$') == Some(0int));
    assert(v.subrange(0, 1) =~= seq!['$']);
    lemma_first_from(v, 2, '$');
    assert forall|k: int| 2 <= k < v.len() implies v[k] != '$' by {
        assert(v[k] == rest[k - 2]);
    }
    assert(first_from(v, 2, '$') is None);
    assert(v.subrange(2, v.len() as int) =~= rest);
    assert(applied::<W>(m, put::<W>(r, seq!['$']), v, 2) == Ok::<Run, crate::error::Failure>(put::<W>(put::<W>(r, seq!['$']), rest)));
}

/// Escaping distributes over concatenation.
pub proof fn law_escape_concat(a: Seq<char>, b: Seq<char>)
    ensures
        escape(a + b) == escape(a) + escape(b),
    decreases b.len(),
{
    if b.len() == 0 {
        assert(a + b =~= a);
        assert(escape(a) + escape(b) =~= escape(a));
    } else {
        assert((a + b).drop_last() =~= a + b.drop_last());
        assert((a + b).last() == b.last());
        law_escape_concat(a, b.drop_last());
        let c = b.last();
        let tail = if c == '{' || c == '}' { seq![c, c] } else { seq![c] };
        assert(escape(a + b) == escape(a + b.drop_last()) + tail);
        assert(escape(b) == escape(b.drop_last()) + tail);
        assert(escape(a) + escape(b.drop_last()) + tail =~= escape(a) + (escape(b.drop_last()) + tail));
    }
}

/// Text without braces is its own escape.
pub proof fn law_escape_plain(s: Seq<char>)
    requires
        forall|k: int| 0 <= k < s.len() ==> s[k] != '{' && s[k] != '}',
    ensures
        escape(s) == s,
    decreases s.len(),
{
    if s.len() > 0 {
        assert forall|k: int| 0 <= k < s.drop_last().len() implies s.drop_last()[k] != '{' && s.drop_last()[k] != '}' by {
            assert(s.drop_last()[k] == s[k]);
        }
        law_escape_plain(s.drop_last());
        assert(s.drop_last().push(s.last()) =~= s);
    }
}

/// A bind is placed once: placing the same field again writes the same position
/// and binds nothing more.
pub proof fn law_bind_once<W: Wrapper>(r: Run, c: usize)
    requires
        !W::is_outer(),
        c < r.cells.len(),
    ensures
        placed::<W>(placed::<W>(r, Param::Cell(c)), Param::Cell(c)).state == placed::<W>(r, Param::Cell(c)).state,
        placed::<W>(placed::<W>(r, Param::Cell(c)), Param::Cell(c)).cells == placed::<W>(r, Param::Cell(c)).cells,
        placed::<W>(r, Param::Cell(c)).state.len() <= r.state.len() + 1,
{
}

/// The position a bind is placed at is the number of binds placed before it,
/// plus one.
pub proof fn law_bind_position<W: Wrapper>(r: Run, c: usize)
    requires
        !W::is_outer(),
        c < r.cells.len(),
        r.cells[c as int].0.index is None,
    ensures
        placed::<W>(r, Param::Cell(c)).text == r.text + W::rendered(seq!['$']) + W::rendered(decimal((r.state.len() + 1) as nat)),
        placed::<W>(r, Param::Cell(c)).state == r.state.push(r.cells[c as int].0.value),
        placed::<W>(r, Param::Cell(c)).cells[c as int].0.index == Some((r.state.len() + 1) as usize),
{
}

/// After freeing a name, no parameter has it.
pub proof fn law_ensure_frees(m: Map<Seq<char>, Param>, k: Seq<char>)
    ensures
        !ensured(m, k).contains_key(k),
{
    if m.contains_key(k) {
        let n = free_step(m.remove(k), chain(k, 1));
        assert forall|j: nat| j <= n implies k != #[trigger] chain(chain(k, 1), j) by {
            lemma_chain_len(chain(k, 1), j);
            lemma_chain_len(k, 1);
        }
        crate::params::lemma_shifted_other(m.remove(k), chain(k, 1), m[k], n, k);
    }
}

/// Setting a parameter gives it the value set.
pub proof fn law_set_get(m: Map<Seq<char>, Param>, k: Seq<char>, v: Param)
    ensures
        displaced_map(m, k, v).contains_key(k),
        displaced_map(m, k, v)[k] == v,
{
    let n = free_step(m, k);
    assert forall|j: nat| 1 <= j <= n implies k != #[trigger] chain(k, j) by {
        lemma_chain_len(k, j);
    }
    lemma_shifted_keeps(m, k, v, n);
}

/// Shifting leaves the name itself with the value set.
proof fn lemma_shifted_keeps(m: Map<Seq<char>, Param>, k: Seq<char>, v: Param, n: nat)
    requires
        forall|j: nat| 1 <= j <= n ==> k != #[trigger] chain(k, j),
    ensures
        shifted(m, k, v, n).contains_key(k),
        shifted(m, k, v, n)[k] == v,
    decreases n,
{
    if n > 0 {
        assert(k != chain(k, n));
        lemma_shifted_keeps(m, k, v, (n - 1) as nat);
    }
}

/// Taking off a suffix the text ends with leaves the text before it.
pub proof fn law_cut(s: Seq<char>, t: Seq<char>)
    ensures
        cut_suffix(s + t, seq![t]) == Some(s),
{
    let u = s + t;
    assert(u.skip(u.len() - t.len()) =~= t);
    assert(u.take(u.len() - t.len()) =~= s);
}


/// A displaced value moves one step down the chain.
proof fn lemma_shifted_at(m: Map<Seq<char>, Param>, k: Seq<char>, v: Param, n: nat, i: nat)
    requires
        1 <= i <= n,
    ensures
        shifted(m, k, v, n).contains_key(chain(k, i)),
        shifted(m, k, v, n)[chain(k, i)] == m[chain(k, (i - 1) as nat)],
    decreases n,
{
    if n > i {
        lemma_chain_len(k, n);
        lemma_chain_len(k, i);
        assert(chain(k, n) != chain(k, i));
        lemma_shifted_at(m, k, v, (n - 1) as nat, i);
    }
}

/// Displacing loses no parameter: the value set stands at its name, and every
/// value that stood before still stands at some name.
pub proof fn law_displace_keeps(m0: Map<Seq<char>, Param>, m1: Map<Seq<char>, Param>, k: Seq<char>, v: Param, n: nat)
    requires
        displaced(m0, m1, k, v, n),
    ensures
        m1.contains_key(k),
        m1[k] == v,
        forall|x: Seq<char>| #[trigger] m0.contains_key(x) ==> exists|y: Seq<char>| m1.contains_key(y) && m1[y] == m0[x],
{
    assert forall|j: nat| 1 <= j <= n implies k != #[trigger] chain(k, j) by {
        lemma_chain_len(k, j);
    }
    lemma_shifted_keeps(m0, k, v, n);
    assert forall|x: Seq<char>| #[trigger] m0.contains_key(x) implies exists|y: Seq<char>| m1.contains_key(y) && m1[y] == m0[x] by {
        if exists|j: nat| j <= n && x == #[trigger] chain(k, j) {
            let j = choose|j: nat| j <= n && x == #[trigger] chain(k, j);
            if j == n {
                assert(false);
            }
            lemma_shifted_at(m0, k, v, n, j + 1);
            assert(m1.contains_key(chain(k, j + 1)) && m1[chain(k, j + 1)] == m0[x]);
        } else {
            lemma_shifted_other(m0, k, v, n, x);
            assert(m1.contains_key(x) && m1[x] == m0[x]);
        }
    }
}


/// `${name}` stands for the same parameter as `$name`: for a name of identifier
/// characters, both write the same, or both fail with the same fault (their
/// messages quote the placeholder as it was written).
pub proof fn law_braced_name<W: Wrapper>(m: Map<Seq<char>, Param>, r: Run, x: Seq<char>)
    requires
        x.len() > 0,
        forall|k: int| 0 <= k < x.len() ==> #[trigger] xid_continue(x[k]) && x[k] != '$' && x[k] != '}' && x[k] != '{' && x[k] != '#',
    ensures
        match (applied::<W>(m, r, seq!['$', '{'] + x + seq!['}'], 0), applied::<W>(m, r, seq!['$'] + x, 0)) {
            (Ok(a), Ok(b)) => a == b,
            (Err(f), Err(g)) => f.0 == g.0,
            _ => false,
        },
{
    let v = seq!['$', '{'] + x + seq!['}'];
    let w = seq!['$'] + x;
    assert(v[0] == '$' && w[0] == '$');
    assert(first_from(v, 0, '$') == Some(0int));
    assert(first_from(w, 0, '$') == Some(0int));
    assert(v[1] == '{');
    assert(v[1] != '$');
    assert(w[1] == x[0]);
    assert(w[1] != '$');
    lemma_first_from(v, 2, '}');
    assert forall|j: int| 2 <= j < v.len() - 1 implies v[j] != '}' by {
        assert(v[j] == x[j - 2]);
        assert(xid_continue(x[j - 2]));
    }
    assert(v[v.len() - 1] == '}');
    assert(first_from(v, 2, '}') == Some(v.len() - 1));
    assert(v.subrange(2, v.len() - 1) =~= x);
    assert(token(v, 0) == Ok::<(Seq<char>, int), crate::error::Fault>((x, v.len() as int)));
    assert(!(w[1] == 'r' && 2 < w.len() && w[2] == '#')) by {
        if 2 < w.len() {
            assert(w[2] == x[1]);
            assert(xid_continue(x[1]));
        }
    }
    lemma_name_end(w, 1);
    assert(name_end(w, 1) == w.len()) by {
        assert forall|k: int| 1 <= k < w.len() implies #[trigger] xid_continue(w[k]) by {
            assert(w[k] == x[k - 1]);
            assert(xid_continue(x[k - 1]));
        }
        name_end_all(w, 1);
    }
    assert(w.subrange(1, w.len() as int) =~= x);
    assert(token(w, 0) == Ok::<(Seq<char>, int), crate::error::Fault>((x, w.len() as int)));
    assert(v.subrange(0, 0) =~= w.subrange(0, 0));
    if let Some(id) = crate::ident::resolved_ident(x) {
        if m.contains_key(id) {
            let r1 = placed::<W>(put::<W>(r, v.subrange(0, 0)), m[id]);
            assert(first_from(v, v.len() as int, '$') is None);
            assert(first_from(w, w.len() as int, '$') is None);
            assert(v.subrange(v.len() as int, v.len() as int) =~= w.subrange(w.len() as int, w.len() as int));
            assert(applied::<W>(m, r1, v, v.len() as int) == applied::<W>(m, r1, w, w.len() as int));
        }
    }
}

/// Identifier characters up to the end make up the whole name.
proof fn name_end_all(w: Seq<char>, from: int)
    requires
        1 <= from <= w.len(),
        forall|k: int| 1 <= k < w.len() ==> #[trigger] xid_continue(w[k]),
    ensures
        name_end(w, from) == w.len(),
    decreases w.len() - from,
{
    if from < w.len() {
        assert(xid_continue(w[from]));
        name_end_all(w, from + 1);
    }
}


/// Paths that share their last `j` parts share each shorter tail too.
proof fn lemma_agree_shorter(r: Seq<Seq<char>>, p: Seq<Seq<char>>, i: int, j: int)
    requires
        0 <= i <= j,
        agree(r, p, j),
    ensures
        agree(r, p, i),
{
    assert(r.subrange(r.len() - i, r.len() as int) =~= r.subrange(r.len() - j, r.len() as int).subrange(j - i, j));
    assert(p.subrange(p.len() - i, p.len() as int) =~= p.subrange(p.len() - j, p.len() as int).subrange(j - i, j));
}

/// Where `p` and `q` share their last `j` parts, a path shares them with one
/// exactly when it shares them with the other.
proof fn lemma_agree_swap(r: Seq<Seq<char>>, p: Seq<Seq<char>>, q: Seq<Seq<char>>, j: int)
    requires
        agree(q, p, j),
    ensures
        agree(r, p, j) == agree(r, q, j),
{
}

/// Where `p` and `q` share their last `j` parts, as many paths share them with each.
proof fn lemma_agreeing_same(all: Seq<(Seq<Seq<char>>, Seq<char>)>, p: Seq<Seq<char>>, q: Seq<Seq<char>>, j: int)
    requires
        agree(q, p, j),
    ensures
        agreeing(all, p, j) == agreeing(all, q, j),
    decreases all.len(),
{
    if all.len() > 0 {
        lemma_agree_swap(all.last().0, p, q, j);
        lemma_agreeing_same(all.drop_last(), p, q, j);
    }
}

/// Fewer paths share a longer tail; a path sharing the shorter tail but not the
/// longer one makes them strictly fewer.
proof fn lemma_agreeing_drop(all: Seq<(Seq<Seq<char>>, Seq<char>)>, p: Seq<Seq<char>>, j: int, k: int)
    requires
        1 <= j,
    ensures
        agreeing(all, p, j) <= agreeing(all, p, j - 1),
        0 <= k < all.len() && agree(all[k].0, p, j - 1) && !agree(all[k].0, p, j) ==> agreeing(all, p, j) < agreeing(all, p, j - 1),
    decreases all.len(),
{
    if all.len() > 0 {
        let r = all.last().0;
        if agree(r, p, j) {
            lemma_agree_shorter(r, p, j - 1, j);
        }
        if 0 <= k < all.len() - 1 {
            assert(all.drop_last()[k] == all[k]);
        }
        lemma_agreeing_drop(all.drop_last(), p, j, k);
    }
}

/// A path shares its own tails.
proof fn lemma_agreeing_self(all: Seq<(Seq<Seq<char>>, Seq<char>)>, p: Seq<Seq<char>>, j: int, a: int, b: int)
    requires
        0 <= a < all.len(),
        0 <= b < all.len(),
        a != b,
        agree(all[a].0, p, j),
        agree(all[b].0, p, j),
    ensures
        agreeing(all, p, j) >= 2,
    decreases all.len(),
{
    let n = all.len() - 1;
    if a == n || b == n {
        let other = if a == n { b } else { a };
        assert(all.drop_last()[other] == all[other]);
        lemma_agreeing_one(all.drop_last(), p, j, other);
    } else {
        assert(all.drop_last()[a] == all[a]);
        assert(all.drop_last()[b] == all[b]);
        lemma_agreeing_self(all.drop_last(), p, j, a, b);
    }
}

/// A path that shares the tail counts.
proof fn lemma_agreeing_one(all: Seq<(Seq<Seq<char>>, Seq<char>)>, p: Seq<Seq<char>>, j: int, a: int)
    requires
        0 <= a < all.len(),
        agree(all[a].0, p, j),
    ensures
        agreeing(all, p, j) >= 1,
    decreases all.len(),
{
    if a < all.len() - 1 {
        assert(all.drop_last()[a] == all[a]);
        lemma_agreeing_one(all.drop_last(), p, j, a);
    }
}

/// The parts picked among a longer tail end with those picked among a shorter one.
proof fn lemma_picked_suffix(all: Seq<(Seq<Seq<char>>, Seq<char>)>, p: Seq<Seq<char>>, m: int, n: int)
    requires
        1 <= m <= n,
    ensures
        exists|pre: Seq<Seq<char>>| picked(all, p, n) == pre + picked(all, p, m),
    decreases n - m,
{
    if m == n {
        assert(picked(all, p, n) == Seq::<Seq<char>>::empty() + picked(all, p, m));
    } else {
        lemma_picked_suffix(all, p, m, n - 1);
        let pre = choose|pre: Seq<Seq<char>>| picked(all, p, n - 1) == pre + picked(all, p, m);
        if agreeing(all, p, n - 1) > 1 && agreeing(all, p, n) < agreeing(all, p, n - 1) {
            assert(picked(all, p, n) == (seq![p[p.len() - n]] + pre) + picked(all, p, m));
        } else {
            assert(picked(all, p, n) == pre + picked(all, p, m));
        }
    }
}

/// Paths that share their last `j` parts pick the same parts among them.
proof fn lemma_picked_same(all: Seq<(Seq<Seq<char>>, Seq<char>)>, p: Seq<Seq<char>>, q: Seq<Seq<char>>, j: int)
    requires
        1 <= j,
        agree(q, p, j),
    ensures
        picked(all, p, j) == picked(all, q, j),
    decreases j,
{
    lemma_agreeing_same(all, p, q, j);
    if j > 1 {
        lemma_agree_shorter(q, p, j - 1, j);
        lemma_agreeing_same(all, p, q, j - 1);
        lemma_picked_same(all, p, q, j - 1);
        assert(p.subrange(p.len() - j, p.len() as int)[0] == q.subrange(q.len() - j, q.len() as int)[0]);
    } else {
        assert(p.subrange(p.len() - 1, p.len() as int)[0] == q.subrange(q.len() - 1, q.len() as int)[0]);
    }
}

/// The first length of tail, from `j` on, that two paths do not share.
spec fn first_apart(p: Seq<Seq<char>>, q: Seq<Seq<char>>, j: int) -> int
    decreases p.len() + 1 - j,
{
    if j > p.len() || !agree(q, p, j) { j } else { first_apart(p, q, j + 1) }
}

proof fn lemma_first_apart(p: Seq<Seq<char>>, q: Seq<Seq<char>>, j: int)
    requires
        1 <= j <= p.len() + 1,
        forall|i: int| 1 <= i < j ==> agree(q, p, i),
    ensures
        j <= first_apart(p, q, j) <= p.len() + 1,
        first_apart(p, q, j) > p.len() || !agree(q, p, first_apart(p, q, j)),
        forall|i: int| 1 <= i < first_apart(p, q, j) ==> agree(q, p, i),
    decreases p.len() + 1 - j,
{
    if !(j > p.len() || !agree(q, p, j)) {
        lemma_first_apart(p, q, j + 1);
    }
}

/// Different paths of the list shorten to different parts: the shortened paths
/// still tell the structs apart.
pub proof fn law_contract_distinct(all: Seq<(Seq<Seq<char>>, Seq<char>)>, a: int, b: int)
    requires
        0 <= a < all.len(),
        0 <= b < all.len(),
        all[a].0 != all[b].0,
    ensures
        contracted(all, all[a].0) != contracted(all, all[b].0),
{
    if all[a].0.len() < all[b].0.len() {
        lemma_contract_distinct(all, b, a);
    } else {
        lemma_contract_distinct(all, a, b);
    }
}

/// The law above, for a second path no longer than the first.
proof fn lemma_contract_distinct(all: Seq<(Seq<Seq<char>>, Seq<char>)>, a: int, b: int)
    requires
        0 <= a < all.len(),
        0 <= b < all.len(),
        all[a].0 != all[b].0,
        all[b].0.len() <= all[a].0.len(),
    ensures
        contracted(all, all[a].0) != contracted(all, all[b].0),
{
    let p = all[a].0;
    let q = all[b].0;
    if p.len() == 0 || q.len() == 0 {
        if p.len() > 0 {
            assert(contracted(all, p).len() > 0) by { lemma_picked_suffix(all, p, 1, p.len() as int); }
        } else if q.len() > 0 {
            assert(contracted(all, q).len() > 0) by { lemma_picked_suffix(all, q, 1, q.len() as int); }
        } else {
            assert(p =~= q);
        }
        return;
    }
    // Here q is no longer than p.
    lemma_first_apart(p, q, 1);
    let jj = first_apart(p, q, 1);
    if jj > p.len() {
        // q would share all of p's parts, and is no longer: the same path.
        assert(agree(q, p, p.len() as int));
        assert(q.len() >= p.len());
        assert(p.subrange(0, p.len() as int) =~= p);
        assert(q.subrange(0, q.len() as int) =~= q);
        assert(p =~= q);
        return;
    }
    assert(!agree(q, p, jj));
    lemma_picked_suffix(all, p, jj, p.len() as int);
    let pre_p = choose|pre: Seq<Seq<char>>| picked(all, p, p.len() as int) == pre + picked(all, p, jj);
    if jj == 1 {
        // The last parts differ.
        lemma_picked_suffix(all, q, 1, q.len() as int);
        let pre_q = choose|pre: Seq<Seq<char>>| picked(all, q, q.len() as int) == pre + picked(all, q, 1);
        assert(!(p.subrange(p.len() - 1, p.len() as int) == q.subrange(q.len() - 1, q.len() as int)));
        assert(p.last() != q.last()) by {
            if p.last() == q.last() {
                assert(p.subrange(p.len() - 1, p.len() as int) =~= q.subrange(q.len() - 1, q.len() as int));
            }
        }
        let cp = contracted(all, p);
        let cq = contracted(all, q);
        assert(cp.last() == p.last());
        assert(cq.last() == q.last());
        return;
    }
    // The tails of length jj - 1 are shared: the same parts are picked among them.
    lemma_agree_shorter(q, p, jj - 1, jj - 1);
    lemma_picked_same(all, p, q, jj - 1);
    let common = picked(all, p, jj - 1);
    // At jj, q stops sharing p's tail: p picks its part there.
    lemma_agree_shorter(p, p, jj - 1, jj);
    assert(agree(p, p, jj)) by {
        assert(p.subrange(p.len() - jj, p.len() as int) =~= p.subrange(p.len() - jj, p.len() as int));
    }
    assert(agree(p, p, jj - 1));
    lemma_agreeing_self(all, p, jj - 1, a, b);
    lemma_agreeing_drop(all, p, jj, b);
    assert(picked(all, p, jj) == seq![p[p.len() - jj]] + common);
    if jj <= q.len() {
        // Symmetrically q picks its part there, and the two parts differ.
        lemma_agree_shorter(q, q, jj - 1, jj);
        assert(agree(q, q, jj)) by {
            assert(q.subrange(q.len() - jj, q.len() as int) =~= q.subrange(q.len() - jj, q.len() as int));
        }
        assert(agree(p, q, jj - 1)) by {
            assert(p.subrange(p.len() - (jj - 1), p.len() as int) =~= q.subrange(q.len() - (jj - 1), q.len() as int));
        }
        assert(agree(q, q, jj - 1));
        lemma_agreeing_self(all, q, jj - 1, b, a);
        assert(!agree(p, q, jj)) by {
            if agree(p, q, jj) {
                assert(q.subrange(q.len() - jj, q.len() as int) =~= p.subrange(p.len() - jj, p.len() as int));
            }
        }
        lemma_agreeing_drop(all, q, jj, a);
        lemma_picked_suffix(all, q, jj, q.len() as int);
        let pre_q = choose|pre: Seq<Seq<char>>| picked(all, q, q.len() as int) == pre + picked(all, q, jj);
        assert(picked(all, q, jj) == seq![q[q.len() - jj]] + picked(all, q, jj - 1));
        assert(p[p.len() - jj] != q[q.len() - jj]) by {
            if p[p.len() - jj] == q[q.len() - jj] {
                let qs = q.subrange(q.len() - jj, q.len() as int);
                let ps = p.subrange(p.len() - jj, p.len() as int);
                assert(qs =~= ps) by {
                    assert forall|t: int| 0 <= t < jj implies #[trigger] qs[t] == ps[t] by {
                        if t > 0 {
                            assert(q.subrange(q.len() - (jj - 1), q.len() as int)[t - 1] == p.subrange(p.len() - (jj - 1), p.len() as int)[t - 1]);
                        }
                    }
                }
            }
        }
        let cp = contracted(all, p);
        let cq = contracted(all, q);
        assert(cp == pre_p + (seq![p[p.len() - jj]] + common));
        assert(cq == pre_q + (seq![q[q.len() - jj]] + common));
        assert(cp[cp.len() - common.len() - 1] == p[p.len() - jj]);
        assert(cq[cq.len() - common.len() - 1] == q[q.len() - jj]);
        if cp == cq {
            assert(cp.len() == cq.len());
        }
    } else {
        // q is a tail of p: all its picks are the common ones, and p picks more.
        assert(jj == q.len() + 1);
        let cq = contracted(all, q);
        assert(cq == picked(all, q, q.len() as int));
        assert(cq == common);
        let cp = contracted(all, p);
        assert(cp == pre_p + (seq![p[p.len() - jj]] + common));
        assert(cp.len() > cq.len());
    }
}

} // verus!
