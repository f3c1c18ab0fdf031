use vstd::prelude::*;

verus! {

/// A value of a dynamic query and the position it is bound at: `None` until
/// bound, `Some(0)` where binding failed, else its 1-based position.
pub struct Bind<T> {
    pub value: T,
    pub index: Option<usize>,
}

impl<T> Bind<T> {
    /// A value not bound yet.
    pub fn new(value: T) -> (b: Self)
        ensures
            b.value == value,
            b.index is None,
    {
        Bind { value, index: None }
    }

    /// Whether the value is bound already.
    pub fn is_bound(&self) -> (b: bool)
        ensures
            b == (self.index is Some),
    {
        self.index.is_some()
    }

    /// The position the value is bound at: the one it has, else `fresh`, which
    /// it keeps from then on. A value is bound once, however often it is used.
    pub fn bound(&mut self, fresh: usize) -> (i: usize)
        ensures
            final(self).value == old(self).value,
            match old(self).index {
                Some(j) => i == j && final(self).index == old(self).index,
                None => i == fresh && final(self).index == Some(fresh),
            },
    {
        match self.index {
            Some(j) => j,
            None => {
                self.index = Some(fresh);
                fresh
            }
        }
    }

    /// Binds the value unless it is bound already, and gives its position.
    ///
    /// `args` is the argument list, as the number of arguments it holds or the
    /// error it failed with; `adder` adds the value to it. A bound value keeps its
    /// position, and neither `adder` is called nor `args` touched. Otherwise, on a
    /// list that holds `n` arguments the value is added: it is bound at `n + 1`
    /// and the list grows by one, or, where adding failed, the list takes the
    /// error. On a failed list nothing is added and the value is bound at 0, as is
    /// every later value.
    pub fn bind<E, F: FnOnce(T) -> Result<(), E>>(&mut self, args: &mut Result<usize, E>, adder: F) -> (i: usize)
        where
            T: Copy,
        requires
            *old(args) matches Ok(n) ==> n < usize::MAX,
            old(self).index is None && *old(args) is Ok ==> call_requires(adder, (old(self).value,)),
        ensures
            final(self).value == old(self).value,
            final(self).index == Some(i),
            match old(self).index {
                Some(j) => i == j && *final(args) == *old(args),
                None => match *old(args) {
                    Ok(n) => exists|res: Result<(), E>| #[trigger] call_ensures(adder, (old(self).value,), res) && match res {
                        Ok(()) => i == n + 1 && *final(args) == Ok::<usize, E>((n + 1) as usize),
                        Err(e) => i == 0 && *final(args) == Err::<usize, E>(e),
                    },
                    Err(_) => i == 0 && *final(args) == *old(args),
                },
            },
    {
        if let Some(j) = self.index {
            return j;
        }
        let fresh = match args {
            Ok(n) => match adder(self.value) {
                Ok(()) => {
                    *n = *n + 1;
                    *n
                }
                Err(e) => {
                    *args = Err(e);
                    0
                }
            },
            Err(_) => 0,
        };
        self.index = Some(fresh);
        fresh
    }
}

} // verus!
