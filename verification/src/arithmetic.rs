//! The arithmetic of the number type that prices, indicator values and
//! objectives are made of. The library computes with such numbers through the
//! operations that its caller supplies; it asks only that each operation
//! accepts every argument and returns one result per argument.
use vstd::prelude::*;

verus! {

/// `f` accepts every pair of numbers and always answers a pair alike.
pub open spec fn binary<P, R, F: Fn(&P, &P) -> R>(f: F) -> bool {
    &&& forall|a: P, b: P| call_requires(f, (&a, &b))
    &&& forall|a: P, b: P, r1: R, r2: R|
        call_ensures(f, (&a, &b), r1) && call_ensures(f, (&a, &b), r2) ==> r1 == r2
}

/// Whether the comparison `less` puts `a` before `b`.
pub open spec fn precedes<P, L: Fn(&P, &P) -> bool>(less: L, a: P, b: P) -> bool {
    call_ensures(less, (&a, &b), true)
}

/// `f` accepts every integer and always answers an integer alike.
pub open spec fn injection<P, F: Fn(i64) -> P>(f: F) -> bool {
    &&& forall|n: i64| call_requires(f, (n,))
    &&& forall|n: i64, r1: P, r2: P|
        call_ensures(f, (n,), r1) && call_ensures(f, (n,), r2) ==> r1 == r2
}

/// The operations on numbers of type `P` that the library computes with, and
/// the two bounds that it starts a search from.
pub struct Arithmetic<P, A, S, D, L, C> {
    /// `a + b`
    pub add: A,
    /// `a - b`
    pub sub: S,
    /// `a / b`
    pub div: D,
    /// `a < b`
    pub less: L,
    /// The number that stands for an integer.
    pub from_int: C,
    /// The largest finite number.
    pub largest: P,
    /// A number above every finite one.
    pub infinity: P,
}

impl<P, A, S, D, L, C> Arithmetic<P, A, S, D, L, C> where
    A: Fn(&P, &P) -> P,
    S: Fn(&P, &P) -> P,
    D: Fn(&P, &P) -> P,
    L: Fn(&P, &P) -> bool,
    C: Fn(i64) -> P,
 {
    /// Every operation accepts every argument and is single-valued.
    pub open spec fn wf(&self) -> bool {
        &&& binary::<P, P, A>(self.add)
        &&& binary::<P, P, S>(self.sub)
        &&& binary::<P, P, D>(self.div)
        &&& binary::<P, bool, L>(self.less)
        &&& injection::<P, C>(self.from_int)
    }

    /// The sum `a + b`.
    pub open spec fn sum(&self, a: P, b: P) -> P {
        choose|r: P| call_ensures(self.add, (&a, &b), r)
    }

    /// The difference `a - b`.
    pub open spec fn difference(&self, a: P, b: P) -> P {
        choose|r: P| call_ensures(self.sub, (&a, &b), r)
    }

    /// The quotient `a / b`.
    pub open spec fn quotient(&self, a: P, b: P) -> P {
        choose|r: P| call_ensures(self.div, (&a, &b), r)
    }

    /// Whether `a < b`.
    pub open spec fn lt(&self, a: P, b: P) -> bool {
        precedes(self.less, a, b)
    }

    /// The number that stands for the integer `n`.
    pub open spec fn number(&self, n: i64) -> P {
        choose|r: P| call_ensures(self.from_int, (n,), r)
    }

    /// Adds two numbers.
    pub fn plus(&self, a: &P, b: &P) -> (r: P)
        requires
            self.wf(),
        ensures
            r == self.sum(*a, *b),
    {
        (self.add)(a, b)
    }

    /// Subtracts `b` from `a`.
    pub fn minus(&self, a: &P, b: &P) -> (r: P)
        requires
            self.wf(),
        ensures
            r == self.difference(*a, *b),
    {
        (self.sub)(a, b)
    }

    /// Divides `a` by `b`.
    pub fn over(&self, a: &P, b: &P) -> (r: P)
        requires
            self.wf(),
        ensures
            r == self.quotient(*a, *b),
    {
        (self.div)(a, b)
    }

    /// Compares two numbers.
    pub fn below(&self, a: &P, b: &P) -> (r: bool)
        requires
            self.wf(),
        ensures
            r == self.lt(*a, *b),
    {
        (self.less)(a, b)
    }

    /// Turns an integer into a number.
    pub fn count(&self, n: i64) -> (r: P)
        requires
            self.wf(),
        ensures
            r == self.number(n),
    {
        (self.from_int)(n)
    }
}

} // verus!
