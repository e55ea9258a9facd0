//! The RRDBNet graph, as a relation between an image and what the network makes
//! of it.
//!
//! The graph is stated over the kernels it is built from, so that one statement
//! serves the host and a device: a kernel is a relation between its operands and
//! a result it may give.

use vstd::prelude::*;

use crate::model::dense_layer;
use crate::model::Geometry;
use crate::shuffle::unshuffled;
use crate::shuffle::upsampled;

verus! {

/// The kernels of the graph. Values are planar.
#[verifier::reject_recursive_types(T)]
pub struct Kernels<T> {
    /// `conv(l, src, c_in, h, w, act, out)`: `out` is convolution `l` of the
    /// `c_in` channels `src`, activated or not.
    pub conv: spec_fn(int, Seq<T>, int, int, int, bool, Seq<T>) -> bool,
    /// `residual(branch, base, out)`: `out` is `branch * 0.2 + base`.
    pub residual: spec_fn(Seq<T>, Seq<T>, Seq<T>) -> bool,
    /// `join(base, branch, out)`: `out` is `base + branch`.
    pub join: spec_fn(Seq<T>, Seq<T>, Seq<T>) -> bool,
}

/// The network at work: its kernels, its geometry, and the rows and columns it
/// works on.
#[verifier::reject_recursive_types(T)]
pub struct Net<T> {
    pub k: Kernels<T>,
    pub g: Geometry,
    pub h: int,
    pub w: int,
}

impl<T> Net<T> {
    /// `out` is `branch * 0.2 + base`.
    pub open spec fn residual(self, branch: Seq<T>, base: Seq<T>, out: Seq<T>) -> bool {
        (self.k.residual)(branch, base, out)
    }

    /// What enters the first convolution: the image, unshuffled for the x2
    /// model. `ih` and `iw` are the image's rows and columns.
    pub open spec fn entered(self, image: Seq<T>, ih: int, iw: int) -> Seq<T> {
        if self.g.scale == 2 {
            unshuffled(image, self.g.in_ch as int, ih, iw)
        } else {
            image
        }
    }

    /// `ws` is the workspace of the dense block whose first convolution is `l`,
    /// after `n` convolutions: the block's input, and behind it their results.
    /// Each convolution reads all that stands before its own result.
    pub open spec fn grown(self, l: int, x: Seq<T>, n: nat, ws: Seq<T>) -> bool
        decreases n,
    {
        if n == 0 {
            ws == x
        } else {
            exists|prev: Seq<T>, out: Seq<T>|
                {
                    &&& self.grown(l, x, (n - 1) as nat, prev)
                    &&& #[trigger] self.grows(l + n - 1, n - 1, prev, out)
                    &&& ws == prev + out
                }
        }
    }

    /// One more convolution of a dense block.
    pub proof fn lemma_grown(self, l: int, x: Seq<T>, n: nat, prev: Seq<T>, out: Seq<T>)
        requires
            self.grown(l, x, n, prev),
            self.grows(l + n, n as int, prev, out),
        ensures
            self.grown(l, x, n + 1, prev + out),
    {
        let m = n + 1;
        assert(self.grown(l, x, (m - 1) as nat, prev));
        assert(self.grows(l + m - 1, m - 1, prev, out));
    }

    /// `out` is convolution `l`, which reads `ws`: the block's input and `n`
    /// results.
    pub open spec fn grows(self, l: int, n: int, ws: Seq<T>, out: Seq<T>) -> bool {
        (self.k.conv)(
            l,
            ws,
            self.g.num_feat + n * self.g.num_grow_ch,
            self.h,
            self.w,
            true,
            out,
        )
    }

    /// `out` is the fifth convolution `l` of a dense block, which reads all of
    /// `ws` and is not activated.
    pub open spec fn gathers(self, l: int, ws: Seq<T>, out: Seq<T>) -> bool {
        (self.k.conv)(l, ws, self.g.dense(), self.h, self.w, false, out)
    }

    /// `out` is the dense block whose first convolution is `l`, on `x`.
    pub open spec fn dense(self, l: int, x: Seq<T>, out: Seq<T>) -> bool {
        exists|ws: Seq<T>, x5: Seq<T>|
            {
                &&& self.grown(l, x, 4, ws)
                &&& #[trigger] self.gathers(l + 4, ws, x5)
                &&& self.residual(x5, x, out)
            }
    }

    /// `out` is the first `n` dense blocks of block `b`, on `x`.
    pub open spec fn denses(self, b: int, x: Seq<T>, n: nat, out: Seq<T>) -> bool
        decreases n,
    {
        if n == 0 {
            out == x
        } else {
            exists|p: Seq<T>|
                {
                    &&& self.denses(b, x, (n - 1) as nat, p)
                    &&& #[trigger] self.dense(dense_layer(b, n - 1, 0), p, out)
                }
        }
    }

    /// `out` is block `b` on `x`: three dense blocks and a scaled residual.
    pub open spec fn rrdb(self, b: int, x: Seq<T>, out: Seq<T>) -> bool {
        exists|x3: Seq<T>|
            {
                &&& self.denses(b, x, 3, x3)
                &&& #[trigger] self.residual(x3, x, out)
            }
    }

    /// `out` is the first `n` blocks on `x`.
    pub open spec fn body(self, x: Seq<T>, n: nat, out: Seq<T>) -> bool
        decreases n,
    {
        if n == 0 {
            out == x
        } else {
            exists|p: Seq<T>|
                {
                    &&& self.body(x, (n - 1) as nat, p)
                    &&& #[trigger] self.rrdb(n - 1, p, out)
                }
        }
    }

    /// `out` is the first convolution of `x`.
    pub open spec fn first(self, x: Seq<T>, out: Seq<T>) -> bool {
        (self.k.conv)(0, x, self.g.first_in(), self.h, self.w, false, out)
    }

    /// `out` is a convolution `l` from and to the feature channels, with `f`
    /// times the working rows and columns.
    pub open spec fn feature(self, l: int, f: int, x: Seq<T>, act: bool, out: Seq<T>) -> bool {
        (self.k.conv)(l, x, self.g.num_feat as int, self.h * f, self.w * f, act, out)
    }

    /// `s` is the first convolution of the image, and `x` the first `n` blocks
    /// on it.
    pub open spec fn at_body(self, image: Seq<T>, ih: int, iw: int, n: nat, s: Seq<T>, x: Seq<T>) -> bool {
        &&& self.first(self.entered(image, ih, iw), s)
        &&& self.body(s, n, x)
    }

    /// `out` is the trunk of the network on the image: the body, a convolution,
    /// and the global skip from the first convolution.
    pub open spec fn trunk(self, image: Seq<T>, ih: int, iw: int, out: Seq<T>) -> bool {
        exists|s: Seq<T>, x: Seq<T>|
            {
                &&& #[trigger] self.at_body(image, ih, iw, self.g.num_block as nat, s, x)
                &&& self.closed(x, s, out)
            }
    }

    /// `out` closes the trunk: the body's convolution of `x`, joined to the first
    /// convolution `s`.
    pub open spec fn closed(self, x: Seq<T>, s: Seq<T>, out: Seq<T>) -> bool {
        exists|f: Seq<T>|
            {
                &&& #[trigger] self.feature(15 * self.g.num_block + 1, 1, x, false, f)
                &&& (self.k.join)(s, f, out)
            }
    }

    /// `out` is upsampling stage `n` on `x`, which has `f` times the working rows
    /// and columns.
    pub open spec fn up(self, n: int, f: int, x: Seq<T>, out: Seq<T>) -> bool {
        self.feature(
            15 * self.g.num_block + 2 + n,
            f * 2,
            upsampled(x, self.g.num_feat as int, self.h * f, self.w * f),
            true,
            out,
        )
    }

    /// `out` is the trunk and the first `n` upsampling stages on the image.
    pub open spec fn risen(self, image: Seq<T>, ih: int, iw: int, n: int, out: Seq<T>) -> bool {
        if n <= 0 {
            self.trunk(image, ih, iw, out)
        } else if n == 1 {
            exists|t: Seq<T>|
                #[trigger] self.trunk(image, ih, iw, t) && self.up(0, 1, t, out)
        } else {
            exists|t: Seq<T>, u: Seq<T>|
                {
                    &&& self.trunk(image, ih, iw, t)
                    &&& #[trigger] self.up(0, 1, t, u)
                    &&& self.up(1, 2, u, out)
                }
        }
    }

    /// `out` is everything but the last convolution on the image.
    pub open spec fn high(self, image: Seq<T>, ih: int, iw: int, out: Seq<T>) -> bool {
        exists|u: Seq<T>|
            {
                &&& #[trigger] self.risen(image, ih, iw, 2, u)
                &&& self.feature(15 * self.g.num_block + 4, 4, u, true, out)
            }
    }

    /// `out` is the network on the image.
    pub open spec fn network(self, image: Seq<T>, ih: int, iw: int, out: Seq<T>) -> bool {
        exists|x: Seq<T>|
            {
                &&& #[trigger] self.high(image, ih, iw, x)
                &&& self.feature(15 * self.g.num_block + 5, 4, x, false, out)
            }
    }
}

impl<T> Kernels<T> {
    /// Every kernel gives one result for its operands, where there are pixels.
    pub open spec fn functional(self) -> bool {
        &&& forall|
            l: int,
            src: Seq<T>,
            c: int,
            h: int,
            w: int,
            act: bool,
            a: Seq<T>,
            b: Seq<T>,
        |
            0 < h && 0 < w && #[trigger] (self.conv)(l, src, c, h, w, act, a)
                && #[trigger] (self.conv)(
                l,
                src,
                c,
                h,
                w,
                act,
                b,
            ) ==> a == b
        &&& forall|x: Seq<T>, y: Seq<T>, a: Seq<T>, b: Seq<T>|
            #[trigger] (self.residual)(x, y, a) && #[trigger] (self.residual)(x, y, b) ==> a == b
        &&& forall|x: Seq<T>, y: Seq<T>, a: Seq<T>, b: Seq<T>|
            #[trigger] (self.join)(x, y, a) && #[trigger] (self.join)(x, y, b) ==> a == b
    }
}

impl<T> Net<T> {
    proof fn lemma_grown_once(self, l: int, x: Seq<T>, n: nat, a: Seq<T>, b: Seq<T>)
        requires
            self.k.functional(),
            0 < self.h,
            0 < self.w,
            self.grown(l, x, n, a),
            self.grown(l, x, n, b),
        ensures
            a == b,
        decreases n,
    {
        if n > 0 {
            let (p1, o1) = choose|p: Seq<T>, o: Seq<T>|
                {
                    &&& self.grown(l, x, (n - 1) as nat, p)
                    &&& #[trigger] self.grows(l + n - 1, n - 1, p, o)
                    &&& a == p + o
                };
            let (p2, o2) = choose|p: Seq<T>, o: Seq<T>|
                {
                    &&& self.grown(l, x, (n - 1) as nat, p)
                    &&& #[trigger] self.grows(l + n - 1, n - 1, p, o)
                    &&& b == p + o
                };
            self.lemma_grown_once(l, x, (n - 1) as nat, p1, p2);
        }
    }

    proof fn lemma_dense_once(self, l: int, x: Seq<T>, a: Seq<T>, b: Seq<T>)
        requires
            self.k.functional(),
            0 < self.h,
            0 < self.w,
            self.dense(l, x, a),
            self.dense(l, x, b),
        ensures
            a == b,
    {
        let (w1, v1) = choose|w: Seq<T>, v: Seq<T>|
            {
                &&& self.grown(l, x, 4, w)
                &&& #[trigger] self.gathers(l + 4, w, v)
                &&& self.residual(v, x, a)
            };
        let (w2, v2) = choose|w: Seq<T>, v: Seq<T>|
            {
                &&& self.grown(l, x, 4, w)
                &&& #[trigger] self.gathers(l + 4, w, v)
                &&& self.residual(v, x, b)
            };
        self.lemma_grown_once(l, x, 4, w1, w2);
    }

    proof fn lemma_denses_once(self, b: int, x: Seq<T>, n: nat, a: Seq<T>, c: Seq<T>)
        requires
            self.k.functional(),
            0 < self.h,
            0 < self.w,
            self.denses(b, x, n, a),
            self.denses(b, x, n, c),
        ensures
            a == c,
        decreases n,
    {
        if n > 0 {
            let p1 = choose|p: Seq<T>|
                {
                    &&& self.denses(b, x, (n - 1) as nat, p)
                    &&& #[trigger] self.dense(dense_layer(b, n - 1, 0), p, a)
                };
            let p2 = choose|p: Seq<T>|
                {
                    &&& self.denses(b, x, (n - 1) as nat, p)
                    &&& #[trigger] self.dense(dense_layer(b, n - 1, 0), p, c)
                };
            self.lemma_denses_once(b, x, (n - 1) as nat, p1, p2);
            self.lemma_dense_once(dense_layer(b, n - 1, 0), p1, a, c);
        }
    }

    proof fn lemma_rrdb_once(self, b: int, x: Seq<T>, a: Seq<T>, c: Seq<T>)
        requires
            self.k.functional(),
            0 < self.h,
            0 < self.w,
            self.rrdb(b, x, a),
            self.rrdb(b, x, c),
        ensures
            a == c,
    {
        let p1 = choose|p: Seq<T>| self.denses(b, x, 3, p) && #[trigger] self.residual(p, x, a);
        let p2 = choose|p: Seq<T>| self.denses(b, x, 3, p) && #[trigger] self.residual(p, x, c);
        self.lemma_denses_once(b, x, 3, p1, p2);
    }

    proof fn lemma_body_once(self, x: Seq<T>, n: nat, a: Seq<T>, b: Seq<T>)
        requires
            self.k.functional(),
            0 < self.h,
            0 < self.w,
            self.body(x, n, a),
            self.body(x, n, b),
        ensures
            a == b,
        decreases n,
    {
        if n > 0 {
            let p1 = choose|p: Seq<T>|
                self.body(x, (n - 1) as nat, p) && #[trigger] self.rrdb(n - 1, p, a);
            let p2 = choose|p: Seq<T>|
                self.body(x, (n - 1) as nat, p) && #[trigger] self.rrdb(n - 1, p, b);
            self.lemma_body_once(x, (n - 1) as nat, p1, p2);
            self.lemma_rrdb_once(n - 1, p1, a, b);
        }
    }

    proof fn lemma_trunk_once(self, image: Seq<T>, ih: int, iw: int, a: Seq<T>, b: Seq<T>)
        requires
            self.k.functional(),
            0 < self.h,
            0 < self.w,
            self.trunk(image, ih, iw, a),
            self.trunk(image, ih, iw, b),
        ensures
            a == b,
    {
        let n = self.g.num_block as nat;
        let l = 15 * self.g.num_block + 1;
        let (s1, x1) = choose|s: Seq<T>, x: Seq<T>|
            #[trigger] self.at_body(image, ih, iw, n, s, x) && self.closed(x, s, a);
        let (s2, x2) = choose|s: Seq<T>, x: Seq<T>|
            #[trigger] self.at_body(image, ih, iw, n, s, x) && self.closed(x, s, b);
        assert(s1 == s2);
        self.lemma_body_once(s1, n, x1, x2);
        let f1 = choose|f: Seq<T>|
            #[trigger] self.feature(l, 1, x1, false, f) && (self.k.join)(s1, f, a);
        let f2 = choose|f: Seq<T>|
            #[trigger] self.feature(l, 1, x2, false, f) && (self.k.join)(s2, f, b);
        assert(f1 == f2);
    }

    proof fn lemma_risen_once(self, image: Seq<T>, ih: int, iw: int, a: Seq<T>, b: Seq<T>)
        requires
            self.k.functional(),
            0 < self.h,
            0 < self.w,
            self.risen(image, ih, iw, 2, a),
            self.risen(image, ih, iw, 2, b),
        ensures
            a == b,
    {
        let (t1, u1) = choose|t: Seq<T>, u: Seq<T>|
            {
                &&& self.trunk(image, ih, iw, t)
                &&& #[trigger] self.up(0, 1, t, u)
                &&& self.up(1, 2, u, a)
            };
        let (t2, u2) = choose|t: Seq<T>, u: Seq<T>|
            {
                &&& self.trunk(image, ih, iw, t)
                &&& #[trigger] self.up(0, 1, t, u)
                &&& self.up(1, 2, u, b)
            };
        self.lemma_trunk_once(image, ih, iw, t1, t2);
        assert(u1 == u2);
    }

    /// Where every kernel gives one result for its operands, the network gives one
    /// result for an image: two passes with the same kernels, on the host or on a
    /// device, agree.
    pub proof fn network_is_a_function(
        self,
        image: Seq<T>,
        ih: int,
        iw: int,
        a: Seq<T>,
        b: Seq<T>,
    )
        requires
            self.k.functional(),
            0 < self.h,
            0 < self.w,
            self.network(image, ih, iw, a),
            self.network(image, ih, iw, b),
        ensures
            a == b,
    {
        let l = 15 * self.g.num_block;
        let x1 = choose|x: Seq<T>|
            #[trigger] self.high(image, ih, iw, x) && self.feature(l + 5, 4, x, false, a);
        let x2 = choose|x: Seq<T>|
            #[trigger] self.high(image, ih, iw, x) && self.feature(l + 5, 4, x, false, b);
        let z1 = choose|z: Seq<T>|
            #[trigger] self.risen(image, ih, iw, 2, z) && self.feature(l + 4, 4, z, true, x1);
        let z2 = choose|z: Seq<T>|
            #[trigger] self.risen(image, ih, iw, 2, z) && self.feature(l + 4, 4, z, true, x2);
        self.lemma_risen_once(image, ih, iw, z1, z2);
        assert(x1 == x2);
    }
}

} // verus!
