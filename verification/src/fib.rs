use vstd::prelude::*;

verus! {

/// One step of the Fibonacci recurrence: the next pair after `(a, b)`.
pub fn next_fib(a: u64, b: u64) -> (r: (u64, u64))
    requires
        a + b <= u64::MAX,
    ensures
        r.0 == b,
        r.1 == a + b,
{
    (b, a + b)
}

/// A running Fibonacci generator holding the two latest values.
#[derive(Clone, Copy, Debug)]
pub struct Fibnacci {
    pub a: u64,
    pub b: u64,
}

impl Fibnacci {
    /// Starts the sequence at `1, 1`.
    pub fn new() -> (r: Self)
        ensures
            r.a == 1,
            r.b == 1,
    {
        Fibnacci { a: 1, b: 1 }
    }

    /// Hands out the next value and advances the pair.
    pub fn next(&mut self) -> (r: Option<u64>)
        requires
            old(self).a + old(self).b <= u64::MAX,
        ensures
            final(self).a == old(self).b,
            final(self).b == old(self).a + old(self).b,
            r == Some(old(self).b),
    {
        let next = self.b;
        let t = self.a + self.b;
        self.a = self.b;
        self.b = t;
        Some(next)
    }
}

} // verus!
