//! The arithmetic on pixel values.
//!
//! The network is evaluated in whatever arithmetic the program brings. Nothing
//! is taken for granted about it: a contract says which operations were applied
//! to which values, in which order, and the result of an operation is whatever
//! the operation gave. `call_ensures` is that relation between the arguments of
//! an operation and a result it may give.

use vstd::prelude::*;

verus! {

/// The operations the network needs on values of type `T`.
pub trait Arith<T> {
    /// The value an empty plane is filled with.
    fn zero(&self) -> T;

    /// The factor of both scaled residuals, which is also the slope of the
    /// activation below zero: one fifth.
    fn fifth(&self) -> T;

    /// `a + b`.
    fn plus(&self, a: T, b: T) -> T;

    /// `a * b`.
    fn times(&self, a: T, b: T) -> T;

    /// `acc + w * x`, rounded once or twice: one step of a convolution.
    fn mul_acc(&self, w: T, x: T, acc: T) -> T;

    /// Is `v` at least zero?
    fn at_least_zero(&self, v: T) -> bool;
}

/// `r` is a zero of `ops`.
pub open spec fn zero_is<T, A: Arith<T>>(ops: &A, r: T) -> bool {
    call_ensures(<A as Arith<T>>::zero, (ops,), r)
}

/// `r` is one fifth.
pub open spec fn fifth_is<T, A: Arith<T>>(ops: &A, r: T) -> bool {
    call_ensures(<A as Arith<T>>::fifth, (ops,), r)
}

/// `r` is `a + b`.
pub open spec fn plus_is<T, A: Arith<T>>(ops: &A, a: T, b: T, r: T) -> bool {
    call_ensures(<A as Arith<T>>::plus, (ops, a, b), r)
}

/// `r` is `a * b`.
pub open spec fn times_is<T, A: Arith<T>>(ops: &A, a: T, b: T, r: T) -> bool {
    call_ensures(<A as Arith<T>>::times, (ops, a, b), r)
}

/// `r` is `acc + w * x`.
pub open spec fn mul_acc_is<T, A: Arith<T>>(ops: &A, w: T, x: T, acc: T, r: T) -> bool {
    call_ensures(<A as Arith<T>>::mul_acc, (ops, w, x, acc), r)
}

/// `b` says whether `v` is at least zero.
pub open spec fn at_least_zero_is<T, A: Arith<T>>(ops: &A, v: T, b: bool) -> bool {
    call_ensures(<A as Arith<T>>::at_least_zero, (ops, v), b)
}

/// Every operation gives one result for its operands.
pub open spec fn single_valued<T, A: Arith<T>>(ops: &A) -> bool {
    &&& forall|r: T, s: T| #[trigger] fifth_is(ops, r) && #[trigger] fifth_is(ops, s) ==> r == s
    &&& forall|a: T, b: T, r: T, s: T|
        #[trigger] plus_is(ops, a, b, r) && #[trigger] plus_is(ops, a, b, s) ==> r == s
    &&& forall|a: T, b: T, r: T, s: T|
        #[trigger] times_is(ops, a, b, r) && #[trigger] times_is(ops, a, b, s) ==> r == s
    &&& forall|w: T, x: T, acc: T, r: T, s: T|
        #[trigger] mul_acc_is(ops, w, x, acc, r) && #[trigger] mul_acc_is(ops, w, x, acc, s) ==> r
            == s
    &&& forall|v: T|
        !(#[trigger] at_least_zero_is(ops, v, true) && #[trigger] at_least_zero_is(ops, v, false))
}

/// `r` is the leaky rectifier of `v`: `v` itself from zero up, a fifth of it
/// below.
pub open spec fn leaky_is<T, A: Arith<T>>(ops: &A, v: T, r: T) -> bool {
    ||| at_least_zero_is(ops, v, true) && r == v
    ||| {
        &&& at_least_zero_is(ops, v, false)
        &&& exists|s: T| #[trigger] fifth_is(ops, s) && times_is(ops, s, v, r)
    }
}

/// `r` is `scaled * 0.2 + base`: one element of a scaled residual.
pub open spec fn residual_is<T, A: Arith<T>>(ops: &A, scaled: T, base: T, r: T) -> bool {
    exists|s: T, m: T|
        {
            &&& fifth_is(ops, s)
            &&& #[trigger] times_is(ops, scaled, s, m)
            &&& plus_is(ops, m, base, r)
        }
}

/// The leaky rectifier with slope one fifth.
pub fn leaky_relu<T: Copy, A: Arith<T>>(ops: &A, v: T) -> (r: T)
    ensures
        leaky_is(ops, v, r),
{
    if ops.at_least_zero(v) {
        v
    } else {
        let s = ops.fifth();
        assert(fifth_is(ops, s));
        ops.times(s, v)
    }
}

/// One element of a scaled residual.
pub fn residual<T: Copy, A: Arith<T>>(ops: &A, scaled: T, base: T) -> (r: T)
    ensures
        residual_is(ops, scaled, base, r),
{
    let s = ops.fifth();
    let m = ops.times(scaled, s);
    let r = ops.plus(m, base);
    assert(fifth_is(ops, s) && times_is(ops, scaled, s, m) && plus_is(ops, m, base, r));
    r
}

} // verus!
