//! What one element of a 3x3 convolution is.

use vstd::prelude::*;

use crate::arith::leaky_is;
use crate::arith::mul_acc_is;
use crate::arith::plus_is;
use crate::arith::single_valued;
use crate::arith::times_is;
use crate::arith::Arith;
use crate::conv::tap_pos;
use crate::grid::cell;
use crate::grid::lemma_uncell;

verus! {

/// The operands of a convolution of an `h` by `w` image: `c_in` channels of
/// source values, the weights in `[c_out][c_in][3][3]` order and the biases.
pub struct Taps<T> {
    pub src: Seq<T>,
    pub c_in: int,
    pub wt: Seq<T>,
    pub bias: Seq<T>,
    pub h: int,
    pub w: int,
}

/// What is added to one element after the activation: `factor * operand`.
pub struct Residual<T> {
    pub operand: T,
    pub factor: T,
}

impl<T> Taps<T> {
    /// Does tap `k` (row `k / 3`, column `k % 3`) of the element at (`y`, `x`)
    /// read inside the image?
    pub open spec fn inside(self, y: int, x: int, k: int) -> bool {
        0 <= y + k / 3 - 1 < self.h && 0 <= x + k % 3 - 1 < self.w
    }

    /// The value that tap `k` reads from channel `ci`.
    pub open spec fn source(self, y: int, x: int, k: int, ci: int) -> T {
        self.src[cell(self.h, self.w, ci, y + k / 3 - 1, x + k % 3 - 1)]
    }

    /// The weight of tap `k` from channel `ci` to channel `oc`.
    pub open spec fn weight(self, oc: int, k: int, ci: int) -> T {
        self.wt[tap_pos(self.c_in, oc, k, ci)]
    }

    /// `r` is `from` after the first `n` channels of tap `k` were accumulated,
    /// in order.
    pub open spec fn tap_sum<A: Arith<T>>(
        self,
        ops: &A,
        oc: int,
        y: int,
        x: int,
        k: int,
        from: T,
        n: nat,
        r: T,
    ) -> bool
        decreases n,
    {
        if n == 0 {
            r == from
        } else {
            let ci = n - 1;
            exists|p: T|
                {
                    &&& self.tap_sum(ops, oc, y, x, k, from, ci as nat, p)
                    &&& #[trigger] mul_acc_is(
                        ops,
                        self.weight(oc, k, ci),
                        self.source(y, x, k, ci),
                        p,
                        r,
                    )
                }
        }
    }

    /// `r` is `from` after tap `k` was accumulated, if it lies inside the image.
    pub open spec fn tap<A: Arith<T>>(
        self,
        ops: &A,
        oc: int,
        y: int,
        x: int,
        k: int,
        from: T,
        r: T,
    ) -> bool {
        if self.inside(y, x, k) {
            self.tap_sum(ops, oc, y, x, k, from, self.c_in as nat, r)
        } else {
            r == from
        }
    }

    /// `r` is the bias after the first `n` taps were accumulated, in order, the
    /// taps outside the image left out.
    pub open spec fn pixel_sum<A: Arith<T>>(
        self,
        ops: &A,
        oc: int,
        y: int,
        x: int,
        n: nat,
        r: T,
    ) -> bool
        decreases n,
    {
        if n == 0 {
            r == self.bias[oc]
        } else {
            let k = n - 1;
            exists|p: T|
                {
                    &&& self.pixel_sum(ops, oc, y, x, k as nat, p)
                    &&& #[trigger] self.tap(ops, oc, y, x, k, p, r)
                }
        }
    }

    /// `r` is the element of channel `oc` at (`y`, `x`): the bias and all nine
    /// taps, then the activation if there is one, then the scaled residual if
    /// there is one.
    pub open spec fn value<A: Arith<T>>(
        self,
        ops: &A,
        act: bool,
        res: Option<(Seq<T>, T)>,
        oc: int,
        y: int,
        x: int,
        r: T,
    ) -> bool {
        exists|s: T|
            {
                &&& #[trigger] self.pixel_sum(ops, oc, y, x, 9, s)
                &&& finished(ops, act, self.res_at(res, oc, y, x), s, r)
            }
    }

    /// The residual operand of one element, and its factor.
    pub open spec fn res_at(self, res: Option<(Seq<T>, T)>, oc: int, y: int, x: int) -> Option<
        Residual<T>,
    > {
        match res {
            Some((v, f)) => Some(
                Residual { operand: v[cell(self.h, self.w, oc, y, x)], factor: f },
            ),
            None => None,
        }
    }

    /// `out` is the whole convolution to `c_out` channels.
    pub open spec fn plane<A: Arith<T>>(
        self,
        ops: &A,
        c_out: int,
        act: bool,
        res: Option<(Seq<T>, T)>,
        out: Seq<T>,
    ) -> bool {
        &&& out.len() == c_out * self.h * self.w
        &&& forall|oc: int, y: int, x: int|
            0 <= oc < c_out && 0 <= y < self.h && 0 <= x < self.w ==> self.value(
                ops,
                act,
                res,
                oc,
                y,
                x,
                #[trigger] out[cell(self.h, self.w, oc, y, x)],
            )
    }
}

/// `v` is the accumulated `s` after the activation.
pub open spec fn activated<T, A: Arith<T>>(ops: &A, act: bool, s: T, v: T) -> bool {
    if act {
        leaky_is(ops, s, v)
    } else {
        v == s
    }
}

/// `r` is `v + f * b`.
pub open spec fn scaled_add<T, A: Arith<T>>(ops: &A, v: T, f: T, b: T, r: T) -> bool {
    exists|m: T| #[trigger] times_is(ops, f, b, m) && plus_is(ops, v, m, r)
}

/// `r` is `v` with the residual added: an operand and its factor, if there is
/// one.
pub open spec fn joined<T, A: Arith<T>>(ops: &A, res: Option<Residual<T>>, v: T, r: T) -> bool {
    match res {
        Some(b) => scaled_add(ops, v, b.factor, b.operand, r),
        None => r == v,
    }
}

/// `r` is the accumulated `s` after the activation and the residual.
pub open spec fn finished<T, A: Arith<T>>(
    ops: &A,
    act: bool,
    res: Option<Residual<T>>,
    s: T,
    r: T,
) -> bool {
    exists|v: T| #[trigger] activated(ops, act, s, v) && joined(ops, res, v, r)
}

/// The channels of one tap, accumulated from equal values with equal weights.
pub proof fn lemma_tap_once<T, A: Arith<T>>(
    ops: &A,
    a: Taps<T>,
    b: Taps<T>,
    oc: int,
    y: int,
    x: int,
    y1: int,
    x1: int,
    k: int,
    from: T,
    n: nat,
    r: T,
    s: T,
)
    requires
        single_valued(ops),
        a.wt == b.wt,
        a.c_in == b.c_in,
        forall|ci: int|
            0 <= ci < n ==> #[trigger] a.source(y, x, k, ci) == b.source(y1, x1, k, ci),
        a.tap_sum(ops, oc, y, x, k, from, n, r),
        b.tap_sum(ops, oc, y1, x1, k, from, n, s),
    ensures
        r == s,
    decreases n,
{
    if n > 0 {
        let ci = n - 1;
        let p = choose|p: T|
            {
                &&& a.tap_sum(ops, oc, y, x, k, from, ci as nat, p)
                &&& #[trigger] mul_acc_is(ops, a.weight(oc, k, ci), a.source(y, x, k, ci), p, r)
            };
        let q = choose|q: T|
            {
                &&& b.tap_sum(ops, oc, y1, x1, k, from, ci as nat, q)
                &&& #[trigger] mul_acc_is(ops, b.weight(oc, k, ci), b.source(y1, x1, k, ci), q, s)
            };
        lemma_tap_once(ops, a, b, oc, y, x, y1, x1, k, from, ci as nat, p, q);
    }
}

/// The activation and the residual of one value.
pub proof fn lemma_finished_once<T, A: Arith<T>>(
    ops: &A,
    act: bool,
    res: Option<Residual<T>>,
    v: T,
    r: T,
    s: T,
)
    requires
        single_valued(ops),
        finished(ops, act, res, v, r),
        finished(ops, act, res, v, s),
    ensures
        r == s,
{
    let p = choose|p: T| #[trigger] activated(ops, act, v, p) && joined(ops, res, p, r);
    let q = choose|q: T| #[trigger] activated(ops, act, v, q) && joined(ops, res, q, s);
    assert(p == q);
}

impl<T> Taps<T> {
    /// Where the arithmetic gives one result for its operands, so do the taps of a
    /// pixel.
    pub proof fn lemma_pixel_sum_once<A: Arith<T>>(
        self,
        ops: &A,
        oc: int,
        y: int,
        x: int,
        n: nat,
        r: T,
        s: T,
    )
        requires
            single_valued(ops),
            self.pixel_sum(ops, oc, y, x, n, r),
            self.pixel_sum(ops, oc, y, x, n, s),
        ensures
            r == s,
        decreases n,
    {
        if n > 0 {
            let k = n - 1;
            let p = choose|p: T|
                {
                    &&& self.pixel_sum(ops, oc, y, x, k as nat, p)
                    &&& #[trigger] self.tap(ops, oc, y, x, k, p, r)
                };
            let q = choose|q: T|
                {
                    &&& self.pixel_sum(ops, oc, y, x, k as nat, q)
                    &&& #[trigger] self.tap(ops, oc, y, x, k, q, s)
                };
            self.lemma_pixel_sum_once(ops, oc, y, x, k as nat, p, q);
            if self.inside(y, x, k) {
                lemma_tap_once(ops, self, self, oc, y, x, y, x, k, p, self.c_in as nat, r, s);
            }
        }
    }

    /// Where the arithmetic gives one result for its operands, so does a whole
    /// convolution, however it is grouped and split.
    pub proof fn plane_is_a_function<A: Arith<T>>(
        self,
        ops: &A,
        c_out: int,
        act: bool,
        res: Option<(Seq<T>, T)>,
        a: Seq<T>,
        b: Seq<T>,
    )
        requires
            single_valued(ops),
            0 <= c_out,
            0 < self.h,
            0 < self.w,
            self.plane(ops, c_out, act, res, a),
            self.plane(ops, c_out, act, res, b),
        ensures
            a == b,
    {
        let (h, w) = (self.h, self.w);
        assert forall|i: int| 0 <= i < a.len() implies a[i] == b[i] by {
            lemma_uncell(c_out, h, w, i);
            let (oc, y, x) = ((i / w) / h, (i / w) % h, i % w);
            let (r, s) = (a[cell(h, w, oc, y, x)], b[cell(h, w, oc, y, x)]);
            let at = self.res_at(res, oc, y, x);
            assert(self.value(ops, act, res, oc, y, x, r));
            assert(self.value(ops, act, res, oc, y, x, s));
            let p = choose|p: T|
                #[trigger] self.pixel_sum(ops, oc, y, x, 9, p) && finished(ops, act, at, p, r);
            let q = choose|q: T|
                #[trigger] self.pixel_sum(ops, oc, y, x, 9, q) && finished(ops, act, at, q, s);
            self.lemma_pixel_sum_once(ops, oc, y, x, 9, p, q);
            lemma_finished_once(ops, act, at, p, r, s);
        }
        assert(a =~= b);
    }
}

} // verus!
