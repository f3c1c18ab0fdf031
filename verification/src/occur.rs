use vstd::prelude::*;

verus! {

/// How often an attribute may be given: once and required, at most once, or any
/// number of times (`list`: its values form a list, which may not be given both
/// empty and again).
#[derive(Clone, Copy, PartialEq, Eq, Structural)]
pub enum Card {
    One,
    Opt,
    Many { list: bool },
}

/// An attribute as given: which of the known ones, and whether without values.
#[derive(Clone, Copy, PartialEq, Eq, Structural)]
pub struct Occurrence {
    pub name: usize,
    pub empty: bool,
}

/// The first of `occ[..k]` naming the same attribute as `occ[k]`.
pub open spec fn first_before(occ: Seq<Occurrence>, k: int, from: int) -> Option<int>
    decreases k - from,
{
    if from < 0 || from >= k {
        None
    } else if occ[from].name == occ[k].name {
        Some(from)
    } else {
        first_before(occ, k, from + 1)
    }
}

/// Whether `occ[k]` gives its attribute once too often: again where it may be
/// given at most once; for a list, where it or the first one is without values.
pub open spec fn repeats(cards: Seq<Card>, occ: Seq<Occurrence>, k: int) -> bool {
    match first_before(occ, k, 0) {
        None => false,
        Some(j) => match cards[occ[k].name as int] {
            Card::One => true,
            Card::Opt => true,
            Card::Many { list } => list && (occ[j].empty || occ[k].empty),
        },
    }
}

/// Whether every occurrence names a known attribute.
pub open spec fn known(cards: Seq<Card>, occ: Seq<Occurrence>) -> bool {
    forall|k: int| 0 <= k < occ.len() ==> (#[trigger] occ[k]).name < cards.len()
}

/// The first occurrence, from `from` on, that gives its attribute once too often.
pub open spec fn first_repeat(cards: Seq<Card>, occ: Seq<Occurrence>, from: int) -> Option<int>
    decreases occ.len() - from,
{
    if from < 0 || from >= occ.len() {
        None
    } else if repeats(cards, occ, from) {
        Some(from)
    } else {
        first_repeat(cards, occ, from + 1)
    }
}

/// The first required attribute, from `from` on, that is not given.
pub open spec fn first_absent(cards: Seq<Card>, occ: Seq<Occurrence>, from: int) -> Option<int>
    decreases cards.len() - from,
{
    if from < 0 || from >= cards.len() {
        None
    } else if cards[from] == Card::One && !(exists|k: int| 0 <= k < occ.len() && (#[trigger] occ[k]).name == from) {
        Some(from)
    } else {
        first_absent(cards, occ, from + 1)
    }
}

fn find_first(occ: &[Occurrence], k: usize) -> (r: Option<usize>)
    requires
        k < occ@.len(),
    ensures
        match first_before(occ@, k as int, 0) {
            Some(j) => r == Some(j as usize) && 0 <= j < k,
            None => r is None,
        },
{
    let mut j: usize = 0;
    while j < k
        invariant
            j <= k,
            k < occ@.len(),
            first_before(occ@, k as int, 0) == first_before(occ@, k as int, j as int),
        decreases k - j,
    {
        if occ[j].name == occ[k].name {
            return Some(j);
        }
        j = j + 1;
    }
    None
}

/// Which of the known attribute names `name` is: the position of the first that
/// equals it; `None` where none does, and the attribute is unknown.
pub fn position(names: &[String], name: &str) -> (r: Option<usize>)
    ensures
        r matches Some(i) ==> i < names@.len() && names@[i as int]@ == name@
            && forall|j: int| 0 <= j < i ==> names@[j]@ != name@,
        r is None ==> forall|j: int| 0 <= j < names@.len() ==> names@[j]@ != name@,
{
    let n = name.to_owned();
    let mut i: usize = 0;
    while i < names.len()
        invariant
            i <= names@.len(),
            n@ == name@,
            forall|j: int| 0 <= j < i ==> names@[j]@ != name@,
        decreases names@.len() - i,
    {
        if names[i] == n {
            return Some(i);
        }
        i = i + 1;
    }
    None
}

/// The first occurrence that gives its attribute once too often (see `repeats`).
pub fn repeated(cards: &[Card], occ: &[Occurrence]) -> (r: Option<usize>)
    requires
        known(cards@, occ@),
    ensures
        match first_repeat(cards@, occ@, 0) {
            Some(k) => r == Some(k as usize),
            None => r is None,
        },
{
    let mut k: usize = 0;
    while k < occ.len()
        invariant
            k <= occ@.len(),
            known(cards@, occ@),
            first_repeat(cards@, occ@, 0) == first_repeat(cards@, occ@, k as int),
        decreases occ@.len() - k,
    {
        let again = match find_first(occ, k) {
            None => false,
            Some(j) => {
                assert(occ@[k as int].name < cards@.len());
                match cards[occ[k].name] {
                    Card::One => true,
                    Card::Opt => true,
                    Card::Many { list } => list && (occ[j].empty || occ[k].empty),
                }
            }
        };
        if again {
            return Some(k);
        }
        k = k + 1;
    }
    None
}

/// The first required attribute that is not given.
pub fn absent(cards: &[Card], occ: &[Occurrence]) -> (r: Option<usize>)
    ensures
        match first_absent(cards@, occ@, 0) {
            Some(i) => r == Some(i as usize),
            None => r is None,
        },
{
    let mut i: usize = 0;
    while i < cards.len()
        invariant
            i <= cards@.len(),
            first_absent(cards@, occ@, 0) == first_absent(cards@, occ@, i as int),
        decreases cards@.len() - i,
    {
        if cards[i] == Card::One {
            let mut k: usize = 0;
            let mut seen = false;
            while k < occ.len()
                invariant
                    k <= occ@.len(),
                    seen == exists|x: int| 0 <= x < k && (#[trigger] occ@[x]).name == i,
                decreases occ@.len() - k,
            {
                if occ[k].name == i {
                    seen = true;
                }
                k = k + 1;
            }
            if !seen {
                return Some(i);
            }
        }
        i = i + 1;
    }
    None
}

} // verus!
