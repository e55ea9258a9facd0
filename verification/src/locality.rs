//! How far a pixel of the result looks: a network run on a crop gives the same
//! pixels as one run on the whole image, except near the sides at which the crop
//! cuts the image.

use vstd::prelude::*;

use crate::arith::plus_is;
use crate::arith::residual_is;
use crate::arith::single_valued;
use crate::arith::Arith;
use crate::forward::conv_is;
use crate::forward::host_kernels;
use crate::forward::residuals;
use crate::forward::sums;
use crate::graph::Kernels;
use crate::graph::Net;
use crate::grid::cell;
use crate::grid::lemma_cell;
use crate::model::dense_layer;
use crate::model::lemma_dense_number;
use crate::model::Geometry;
use crate::model::Model;
use crate::shuffle::unshuffled;
use crate::shuffle::upsampled;
use crate::taps::finished;
use crate::taps::lemma_finished_once;
use crate::taps::lemma_tap_once;
use crate::taps::Taps;

verus! {

/// `p` lies in the `len` pixels from `at` on, at least `m` pixels away from an end
/// that cuts the `n` pixels there are.
pub open spec fn deep_along(n: int, at: int, len: int, m: int, p: int) -> bool {
    &&& at <= p < at + len
    &&& 0 < at ==> at + m <= p
    &&& at + len < n ==> p + m < at + len
}

/// A crop of `h` by `w` pixels at (`y`, `x`), of an image of `wh` by `ww` pixels.
pub struct Crop {
    pub wh: int,
    pub ww: int,
    pub y: int,
    pub x: int,
    pub h: int,
    pub w: int,
}

impl Crop {
    /// The crop is not empty, and lies in the image.
    pub open spec fn wf(self) -> bool {
        &&& 0 <= self.y && 0 < self.h && self.y + self.h <= self.wh
        &&& 0 <= self.x && 0 < self.w && self.x + self.w <= self.ww
    }

    /// The pixel lies in the crop, at least `m` pixels away from every side at
    /// which the crop cuts the image.
    pub open spec fn deep(self, m: int, y: int, x: int) -> bool {
        &&& deep_along(self.wh, self.y, self.h, m, y)
        &&& deep_along(self.ww, self.x, self.w, m, x)
    }

    /// The crop, with `f` times the rows and columns.
    pub open spec fn times(self, f: int) -> Crop {
        Crop {
            wh: self.wh * f,
            ww: self.ww * f,
            y: self.y * f,
            x: self.x * f,
            h: self.h * f,
            w: self.w * f,
        }
    }
}

/// The whole `a` and the crop `b` have `nc` channels, and agree on the pixels that
/// lie `m` deep.
pub open spec fn twins<T>(c: Crop, nc: int, m: int, a: Seq<T>, b: Seq<T>) -> bool {
    &&& a.len() == nc * c.wh * c.ww
    &&& b.len() == nc * c.h * c.w
    &&& forall|ch: int, y: int, x: int|
        0 <= ch < nc && c.deep(m, y, x) ==> #[trigger] a[cell(c.wh, c.ww, ch, y, x)] == b[cell(
            c.h,
            c.w,
            ch,
            y - c.y,
            x - c.x,
        )]
}

/// What agrees on many pixels agrees on fewer.
proof fn lemma_fewer<T>(c: Crop, nc: int, m: int, n: int, a: Seq<T>, b: Seq<T>)
    requires
        twins(c, nc, m, a, b),
        m <= n,
    ensures
        twins(c, nc, n, a, b),
{
    assert forall|ch: int, y: int, x: int|
        0 <= ch < nc && c.deep(n, y, x) implies #[trigger] a[cell(c.wh, c.ww, ch, y, x)] == b[cell(
        c.h,
        c.w,
        ch,
        y - c.y,
        x - c.x,
    )] by {
        assert(c.deep(m, y, x));
    }
}

/// Channels behind channels.
proof fn lemma_behind<T>(
    c: Crop,
    n1: int,
    n2: int,
    m: int,
    a1: Seq<T>,
    b1: Seq<T>,
    a2: Seq<T>,
    b2: Seq<T>,
)
    requires
        c.wf(),
        0 <= n1,
        0 <= n2,
        twins(c, n1, m, a1, b1),
        twins(c, n2, m, a2, b2),
    ensures
        twins(c, n1 + n2, m, a1 + a2, b1 + b2),
{
    let (a, b) = (a1 + a2, b1 + b2);
    assert((n1 + n2) * c.wh * c.ww == n1 * c.wh * c.ww + n2 * c.wh * c.ww) by (nonlinear_arith);
    assert((n1 + n2) * c.h * c.w == n1 * c.h * c.w + n2 * c.h * c.w) by (nonlinear_arith);
    assert forall|ch: int, y: int, x: int|
        0 <= ch < n1 + n2 && c.deep(m, y, x) implies #[trigger] a[cell(c.wh, c.ww, ch, y, x)]
        == b[cell(c.h, c.w, ch, y - c.y, x - c.x)] by {
        let (y1, x1) = (y - c.y, x - c.x);
        if ch < n1 {
            lemma_cell(n1, c.wh, c.ww, ch, y, x);
            lemma_cell(n1, c.h, c.w, ch, y1, x1);
            assert(a1[cell(c.wh, c.ww, ch, y, x)] == b1[cell(c.h, c.w, ch, y1, x1)]);
        } else {
            let d = ch - n1;
            lemma_cell(n2, c.wh, c.ww, d, y, x);
            lemma_cell(n2, c.h, c.w, d, y1, x1);
            assert(cell(c.wh, c.ww, ch, y, x) == n1 * c.wh * c.ww + cell(c.wh, c.ww, d, y, x))
                by (nonlinear_arith)
                requires
                    d == ch - n1,
            ;
            assert(cell(c.h, c.w, ch, y1, x1) == n1 * c.h * c.w + cell(c.h, c.w, d, y1, x1))
                by (nonlinear_arith)
                requires
                    d == ch - n1,
            ;
            assert(a2[cell(c.wh, c.ww, d, y, x)] == b2[cell(c.h, c.w, d, y1, x1)]);
        }
    }
}

/// Doubling the pixels doubles the depth.
proof fn lemma_doubled<T>(c: Crop, nc: int, m: int, a: Seq<T>, b: Seq<T>)
    requires
        c.wf(),
        0 <= nc,
        twins(c, nc, m, a, b),
    ensures
        c.times(2).wf(),
        twins(
            c.times(2),
            nc,
            m * 2,
            upsampled(a, nc, c.wh, c.ww),
            upsampled(b, nc, c.h, c.w),
        ),
{
    let d = c.times(2);
    let (u, v) = (upsampled(a, nc, c.wh, c.ww), upsampled(b, nc, c.h, c.w));
    assert(0 <= nc * (c.wh * 2) * (c.ww * 2) && 0 <= nc * (c.h * 2) * (c.w * 2))
        by (nonlinear_arith)
        requires
            0 <= nc,
            0 <= c.wh,
            0 <= c.ww,
            0 <= c.h,
            0 <= c.w,
    ;
    assert forall|ch: int, y: int, x: int|
        0 <= ch < nc && d.deep(m * 2, y, x) implies #[trigger] u[cell(d.wh, d.ww, ch, y, x)]
        == v[cell(d.h, d.w, ch, y - d.y, x - d.x)] by {
        lemma_cell(nc, d.wh, d.ww, ch, y, x);
        lemma_cell(nc, d.h, d.w, ch, y - d.y, x - d.x);
        assert(c.deep(m, y / 2, x / 2));
        assert((y - d.y) / 2 == y / 2 - c.y && (x - d.x) / 2 == x / 2 - c.x);
        assert(a[cell(c.wh, c.ww, ch, y / 2, x / 2)] == b[cell(
            c.h,
            c.w,
            ch,
            y / 2 - c.y,
            x / 2 - c.x,
        )]);
    }
}

/// Unshuffling halves the depth. The crop stands at an even place.
pub proof fn lemma_unshuffled<T>(c: Crop, nc: int, m: int, a: Seq<T>, b: Seq<T>)
    requires
        c.wf(),
        0 <= nc,
        twins(c.times(2), nc, m * 2, a, b),
    ensures
        twins(
            c,
            nc * 4,
            m,
            unshuffled(a, nc, c.wh * 2, c.ww * 2),
            unshuffled(b, nc, c.h * 2, c.w * 2),
        ),
{
    let d = c.times(2);
    let (u, v) = (unshuffled(a, nc, d.wh, d.ww), unshuffled(b, nc, d.h, d.w));
    assert(0 <= nc * 4 * c.wh * c.ww && 0 <= nc * 4 * c.h * c.w) by (nonlinear_arith)
        requires
            0 <= nc,
            0 <= c.wh,
            0 <= c.ww,
            0 <= c.h,
            0 <= c.w,
    ;
    assert forall|ch: int, y: int, x: int|
        0 <= ch < nc * 4 && c.deep(m, y, x) implies #[trigger] u[cell(c.wh, c.ww, ch, y, x)]
        == v[cell(c.h, c.w, ch, y - c.y, x - c.x)] by {
        lemma_cell(nc * 4, c.wh, c.ww, ch, y, x);
        lemma_cell(nc * 4, c.h, c.w, ch, y - c.y, x - c.x);
        let (sy, sx) = (2 * y + (ch % 4) / 2, 2 * x + ch % 2);
        assert(d.deep(m * 2, sy, sx));
        assert(a[cell(d.wh, d.ww, ch / 4, sy, sx)] == b[cell(
            d.h,
            d.w,
            ch / 4,
            sy - d.y,
            sx - d.x,
        )]);
    }
}

impl<T> Kernels<T> {
    /// The kernels look no further than a 3x3 convolution does, and give one result
    /// for what they see: a convolution's results agree one pixel deeper than its
    /// operands, and the others' as deep as their operands.
    pub open spec fn local(self, g: Geometry) -> bool {
        &&& forall|l: int, c: Crop, m: int, act: bool, x: Seq<T>, y: Seq<T>, a: Seq<T>, b: Seq<T>|
            self.sees_near(g, l, c, m, act, x, y, a, b)
        &&& forall|
            c: Crop,
            m: int,
            x1: Seq<T>,
            y1: Seq<T>,
            x2: Seq<T>,
            y2: Seq<T>,
            a: Seq<T>,
            b: Seq<T>,
        |
            self.sees_itself(g, c, m, x1, y1, x2, y2, a, b)
    }

    /// Convolution `l` of the twins `x` and `y`, one the whole and one the crop,
    /// gives twins.
    pub open spec fn sees_near(
        self,
        g: Geometry,
        l: int,
        c: Crop,
        m: int,
        act: bool,
        x: Seq<T>,
        y: Seq<T>,
        a: Seq<T>,
        b: Seq<T>,
    ) -> bool {
        ({
            &&& 0 <= l < g.layers()
            &&& c.wf()
            &&& 0 <= m
            &&& twins(c, g.layer_in(l), m, x, y)
            &&& (self.conv)(l, x, g.layer_in(l), c.wh, c.ww, act, a)
            &&& (self.conv)(l, y, g.layer_in(l), c.h, c.w, act, b)
        }) ==> twins(c, g.layer_out(l), m + 1, a, b)
    }

    /// The scaled residual and the join of twins are twins.
    pub open spec fn sees_itself(
        self,
        g: Geometry,
        c: Crop,
        m: int,
        x1: Seq<T>,
        y1: Seq<T>,
        x2: Seq<T>,
        y2: Seq<T>,
        a: Seq<T>,
        b: Seq<T>,
    ) -> bool {
        ({
            &&& c.wf()
            &&& twins(c, g.num_feat as int, m, x1, y1)
            &&& twins(c, g.num_feat as int, m, x2, y2)
            &&& {
                ||| (self.residual)(x1, x2, a) && (self.residual)(y1, y2, b)
                ||| (self.join)(x1, x2, a) && (self.join)(y1, y2, b)
            }
        }) ==> twins(c, g.num_feat as int, m, a, b)
    }
}

/// Two runs of one network: on a whole image, and on a crop of it.
#[verifier::reject_recursive_types(T)]
pub struct Runs<T> {
    pub k: Kernels<T>,
    pub g: Geometry,
    /// The crop, at the working size.
    pub c: Crop,
}

impl<T> Runs<T> {
    /// The network on the whole image.
    pub open spec fn whole(self) -> Net<T> {
        Net { k: self.k, g: self.g, h: self.c.wh, w: self.c.ww }
    }

    /// The network on the crop.
    pub open spec fn part(self) -> Net<T> {
        Net { k: self.k, g: self.g, h: self.c.h, w: self.c.w }
    }

    /// The kernels are local, and the crop is one.
    pub open spec fn wf(self) -> bool {
        self.k.local(self.g) && self.c.wf()
    }

    /// Twins of the feature channels at the working size.
    pub open spec fn features(self, m: int, a: Seq<T>, b: Seq<T>) -> bool {
        twins(self.c, self.g.num_feat as int, m, a, b)
    }

    proof fn lemma_grown(self, b: int, r: int, n: nat, m: int, x: Seq<T>, y: Seq<T>, p: Seq<T>, q: Seq<T>)
        requires
            self.wf(),
            0 <= m,
            0 <= b < self.g.num_block,
            0 <= r < 3,
            n <= 4,
            self.features(m, x, y),
            self.whole().grown(dense_layer(b, r, 0), x, n, p),
            self.part().grown(dense_layer(b, r, 0), y, n, q),
        ensures
            twins(self.c, self.g.num_feat + n * self.g.num_grow_ch, m + n, p, q),
        decreases n,
    {
        let l = dense_layer(b, r, 0);
        let (g, c) = (self.g, self.c);
        if n == 0 {
            assert(g.num_feat + 0 * g.num_grow_ch == g.num_feat);
        } else {
            let k = n - 1;
            let (p1, o1) = choose|v: Seq<T>, o: Seq<T>|
                {
                    &&& self.whole().grown(l, x, (n - 1) as nat, v)
                    &&& #[trigger] self.whole().grows(l + n - 1, n - 1, v, o)
                    &&& p == v + o
                };
            let (q1, o2) = choose|v: Seq<T>, o: Seq<T>|
                {
                    &&& self.part().grown(l, y, (n - 1) as nat, v)
                    &&& #[trigger] self.part().grows(l + n - 1, n - 1, v, o)
                    &&& q == v + o
                };
            self.lemma_grown(b, r, k as nat, m, x, y, p1, q1);
            lemma_dense_number(b, r, k);
            assert(l + n - 1 == dense_layer(b, r, k));
            assert(self.k.sees_near(g, l + n - 1, c, m + k, true, p1, q1, o1, o2));
            lemma_fewer(c, g.num_feat + k * g.num_grow_ch, m + k, m + n, p1, q1);
            assert(0 <= k * g.num_grow_ch) by (nonlinear_arith)
                requires
                    0 <= k,
                    0 <= g.num_grow_ch,
            ;
            lemma_behind(
                c,
                g.num_feat + k * g.num_grow_ch,
                g.num_grow_ch as int,
                m + n,
                p1,
                q1,
                o1,
                o2,
            );
            assert(k * g.num_grow_ch + g.num_grow_ch == n * g.num_grow_ch) by (nonlinear_arith)
                requires
                    k == n - 1,
            ;
        }
    }

    proof fn lemma_dense(self, b: int, r: int, m: int, x: Seq<T>, y: Seq<T>, p: Seq<T>, q: Seq<T>)
        requires
            self.wf(),
            0 <= m,
            0 <= b < self.g.num_block,
            0 <= r < 3,
            self.features(m, x, y),
            self.whole().dense(dense_layer(b, r, 0), x, p),
            self.part().dense(dense_layer(b, r, 0), y, q),
        ensures
            self.features(m + 5, p, q),
    {
        let l = dense_layer(b, r, 0);
        let (g, c) = (self.g, self.c);
        let (w1, v1) = choose|w: Seq<T>, v: Seq<T>|
            {
                &&& self.whole().grown(l, x, 4, w)
                &&& #[trigger] self.whole().gathers(l + 4, w, v)
                &&& self.whole().residual(v, x, p)
            };
        let (w2, v2) = choose|w: Seq<T>, v: Seq<T>|
            {
                &&& self.part().grown(l, y, 4, w)
                &&& #[trigger] self.part().gathers(l + 4, w, v)
                &&& self.part().residual(v, y, q)
            };
        self.lemma_grown(b, r, 4, m, x, y, w1, w2);
        lemma_dense_number(b, r, 4);
        assert(l + 4 == dense_layer(b, r, 4));
        assert(self.k.sees_near(g, l + 4, c, m + 4, false, w1, w2, v1, v2));
        lemma_fewer(c, g.num_feat as int, m, m + 5, x, y);
        assert(self.k.sees_itself(g, c, m + 5, v1, v2, x, y, p, q));
    }

    proof fn lemma_denses(self, b: int, n: nat, m: int, x: Seq<T>, y: Seq<T>, p: Seq<T>, q: Seq<T>)
        requires
            self.wf(),
            0 <= m,
            0 <= b < self.g.num_block,
            n <= 3,
            self.features(m, x, y),
            self.whole().denses(b, x, n, p),
            self.part().denses(b, y, n, q),
        ensures
            self.features(m + 5 * n, p, q),
        decreases n,
    {
        if n > 0 {
            let p1 = choose|v: Seq<T>|
                {
                    &&& self.whole().denses(b, x, (n - 1) as nat, v)
                    &&& #[trigger] self.whole().dense(dense_layer(b, n - 1, 0), v, p)
                };
            let q1 = choose|v: Seq<T>|
                {
                    &&& self.part().denses(b, y, (n - 1) as nat, v)
                    &&& #[trigger] self.part().dense(dense_layer(b, n - 1, 0), v, q)
                };
            self.lemma_denses(b, (n - 1) as nat, m, x, y, p1, q1);
            self.lemma_dense(b, n - 1, m + 5 * (n - 1), p1, q1, p, q);
        }
    }

    proof fn lemma_rrdb(self, b: int, m: int, x: Seq<T>, y: Seq<T>, p: Seq<T>, q: Seq<T>)
        requires
            self.wf(),
            0 <= m,
            0 <= b < self.g.num_block,
            self.features(m, x, y),
            self.whole().rrdb(b, x, p),
            self.part().rrdb(b, y, q),
        ensures
            self.features(m + 15, p, q),
    {
        let p1 = choose|v: Seq<T>|
            self.whole().denses(b, x, 3, v) && #[trigger] self.whole().residual(v, x, p);
        let q1 = choose|v: Seq<T>|
            self.part().denses(b, y, 3, v) && #[trigger] self.part().residual(v, y, q);
        self.lemma_denses(b, 3, m, x, y, p1, q1);
        lemma_fewer(self.c, self.g.num_feat as int, m, m + 15, x, y);
        assert(self.k.sees_itself(self.g, self.c, m + 15, p1, q1, x, y, p, q));
    }

    proof fn lemma_body(self, n: nat, m: int, x: Seq<T>, y: Seq<T>, p: Seq<T>, q: Seq<T>)
        requires
            self.wf(),
            0 <= m,
            n <= self.g.num_block,
            self.features(m, x, y),
            self.whole().body(x, n, p),
            self.part().body(y, n, q),
        ensures
            self.features(m + 15 * n, p, q),
        decreases n,
    {
        if n > 0 {
            let p1 = choose|v: Seq<T>|
                self.whole().body(x, (n - 1) as nat, v) && #[trigger] self.whole().rrdb(n - 1, v, p);
            let q1 = choose|v: Seq<T>|
                self.part().body(y, (n - 1) as nat, v) && #[trigger] self.part().rrdb(n - 1, v, q);
            self.lemma_body((n - 1) as nat, m, x, y, p1, q1);
            self.lemma_rrdb(n - 1, m + 15 * (n - 1), p1, q1, p, q);
        }
    }

    proof fn lemma_trunk(
        self,
        x: Seq<T>,
        xh: int,
        xw: int,
        y: Seq<T>,
        yh: int,
        yw: int,
        p: Seq<T>,
        q: Seq<T>,
    )
        requires
            self.wf(),
            twins(
                self.c,
                self.g.first_in(),
                0,
                self.whole().entered(x, xh, xw),
                self.part().entered(y, yh, yw),
            ),
            self.whole().trunk(x, xh, xw, p),
            self.part().trunk(y, yh, yw, q),
        ensures
            self.features(15 * self.g.num_block + 2, p, q),
    {
        let (g, c) = (self.g, self.c);
        let n = g.num_block as nat;
        let l = 15 * g.num_block + 1;
        let (s1, x1) = choose|s: Seq<T>, v: Seq<T>|
            #[trigger] self.whole().at_body(x, xh, xw, n, s, v) && self.whole().closed(v, s, p);
        let (s2, x2) = choose|s: Seq<T>, v: Seq<T>|
            #[trigger] self.part().at_body(y, yh, yw, n, s, v) && self.part().closed(v, s, q);
        let (e1, e2) = (self.whole().entered(x, xh, xw), self.part().entered(y, yh, yw));
        assert(self.k.sees_near(g, 0, c, 0, false, e1, e2, s1, s2));
        self.lemma_body(n, 1, s1, s2, x1, x2);
        let f1 = choose|f: Seq<T>|
            #[trigger] self.whole().feature(l, 1, x1, false, f) && (self.k.join)(s1, f, p);
        let f2 = choose|f: Seq<T>|
            #[trigger] self.part().feature(l, 1, x2, false, f) && (self.k.join)(s2, f, q);
        assert(c.wh * 1 == c.wh && c.ww * 1 == c.ww && c.h * 1 == c.h && c.w * 1 == c.w);
        assert(self.k.sees_near(g, l, c, l as int, false, x1, x2, f1, f2));
        lemma_fewer(c, g.num_feat as int, 1, l + 1, s1, s2);
        assert(self.k.sees_itself(g, c, l + 1, s1, s2, f1, f2, p, q));
    }

    /// A convolution of the feature channels, on planes of `f` times the size.
    proof fn lemma_feature(
        self,
        l: int,
        f: int,
        m: int,
        act: bool,
        x: Seq<T>,
        y: Seq<T>,
        p: Seq<T>,
        q: Seq<T>,
    )
        requires
            self.wf(),
            15 * self.g.num_block < l < self.g.layers(),
            0 <= m,
            self.c.times(f).wf(),
            twins(self.c.times(f), self.g.num_feat as int, m, x, y),
            self.whole().feature(l, f, x, act, p),
            self.part().feature(l, f, y, act, q),
        ensures
            twins(self.c.times(f), self.g.layer_out(l), m + 1, p, q),
    {
        assert(self.k.sees_near(self.g, l, self.c.times(f), m, act, x, y, p, q));
    }

    /// An upsampling stage, on planes of `f` times the size.
    proof fn lemma_up(self, n: int, f: int, m: int, x: Seq<T>, y: Seq<T>, p: Seq<T>, q: Seq<T>)
        requires
            self.wf(),
            0 <= n < 2,
            0 <= m,
            self.c.times(f).wf(),
            twins(self.c.times(f), self.g.num_feat as int, m, x, y),
            self.whole().up(n, f, x, p),
            self.part().up(n, f, y, q),
        ensures
            self.c.times(f * 2).wf(),
            twins(self.c.times(f * 2), self.g.num_feat as int, m * 2 + 1, p, q),
    {
        let c = self.c;
        lemma_doubled(c.times(f), self.g.num_feat as int, m, x, y);
        assert(c.wh * f * 2 == c.wh * (f * 2) && c.ww * f * 2 == c.ww * (f * 2))
            by (nonlinear_arith);
        assert(c.y * f * 2 == c.y * (f * 2) && c.x * f * 2 == c.x * (f * 2)) by (nonlinear_arith);
        assert(c.h * f * 2 == c.h * (f * 2) && c.w * f * 2 == c.w * (f * 2)) by (nonlinear_arith);
        assert(c.times(f).times(2) == c.times(f * 2));
        self.lemma_feature(
            15 * self.g.num_block + 2 + n,
            f * 2,
            m * 2,
            true,
            upsampled(x, self.g.num_feat as int, c.wh * f, c.ww * f),
            upsampled(y, self.g.num_feat as int, c.h * f, c.w * f),
            p,
            q,
        );
    }

    /// The network on a crop gives the pixels that it gives on the whole image,
    /// from some depth on: every block looks 15 pixels far and the other
    /// convolutions one each, at the size they work at.
    pub proof fn network_is_local(
        self,
        x: Seq<T>,
        xh: int,
        xw: int,
        y: Seq<T>,
        yh: int,
        yw: int,
        p: Seq<T>,
        q: Seq<T>,
    )
        requires
            self.wf(),
            twins(
                self.c,
                self.g.first_in(),
                0,
                self.whole().entered(x, xh, xw),
                self.part().entered(y, yh, yw),
            ),
            self.whole().network(x, xh, xw, p),
            self.part().network(y, yh, yw, q),
        ensures
            twins(self.c.times(4), self.g.out_ch as int, reach(self.g), p, q),
    {
        let (g, c) = (self.g, self.c);
        let l = 15 * g.num_block;
        let x1 = choose|v: Seq<T>|
            #[trigger] self.whole().high(x, xh, xw, v) && self.whole().feature(l + 5, 4, v, false, p);
        let y1 = choose|v: Seq<T>|
            #[trigger] self.part().high(y, yh, yw, v) && self.part().feature(l + 5, 4, v, false, q);
        let x2 = choose|v: Seq<T>|
            #[trigger] self.whole().risen(x, xh, xw, 2, v) && self.whole().feature(
                l + 4,
                4,
                v,
                true,
                x1,
            );
        let y2 = choose|v: Seq<T>|
            #[trigger] self.part().risen(y, yh, yw, 2, v) && self.part().feature(
                l + 4,
                4,
                v,
                true,
                y1,
            );
        let (x4, x3) = choose|t: Seq<T>, u: Seq<T>|
            {
                &&& self.whole().trunk(x, xh, xw, t)
                &&& #[trigger] self.whole().up(0, 1, t, u)
                &&& self.whole().up(1, 2, u, x2)
            };
        let (y4, y3) = choose|t: Seq<T>, u: Seq<T>|
            {
                &&& self.part().trunk(y, yh, yw, t)
                &&& #[trigger] self.part().up(0, 1, t, u)
                &&& self.part().up(1, 2, u, y2)
            };
        self.lemma_trunk(x, xh, xw, y, yh, yw, x4, y4);
        assert(c.times(1) == c);
        let m = l + 2;
        self.lemma_up(0, 1, m, x4, y4, x3, y3);
        self.lemma_up(1, 2, m * 2 + 1, x3, y3, x2, y2);
        self.lemma_feature(l + 4, 4, m * 4 + 3, true, x2, y2, x1, y1);
        self.lemma_feature(l + 5, 4, m * 4 + 4, false, x1, y1, p, q);
    }
}

/// How far a pixel of the result looks, in pixels of the result.
pub open spec fn reach(g: Geometry) -> int {
    60 * g.num_block + 13
}

/// A pixel and its neighbour along one side of a crop.
proof fn lemma_neighbour(n: int, at: int, len: int, m: int, p: int, d: int)
    requires
        0 <= at,
        at + len <= n,
        0 <= m,
        -1 <= d <= 1,
        deep_along(n, at, len, m + 1, p),
    ensures
        0 <= p + d < n <==> 0 <= p - at + d < len,
        0 <= p + d < n ==> deep_along(n, at, len, m, p + d),
{
}

/// The taps of one pixel, on the whole image and on the crop.
proof fn lemma_pixel_once<T, A: Arith<T>>(
    ops: &A,
    c: Crop,
    m: int,
    a: Taps<T>,
    b: Taps<T>,
    oc: int,
    y: int,
    x: int,
    n: nat,
    r: T,
    s: T,
)
    requires
        single_valued(ops),
        c.wf(),
        0 <= m,
        0 <= a.c_in,
        twins(c, a.c_in, m, a.src, b.src),
        a.h == c.wh,
        a.w == c.ww,
        b.h == c.h,
        b.w == c.w,
        a.wt == b.wt,
        a.bias == b.bias,
        a.c_in == b.c_in,
        c.deep(m + 1, y, x),
        n <= 9,
        a.pixel_sum(ops, oc, y, x, n, r),
        b.pixel_sum(ops, oc, y - c.y, x - c.x, n, s),
    ensures
        r == s,
    decreases n,
{
    if n > 0 {
        let k = n - 1;
        let (y1, x1) = (y - c.y, x - c.x);
        let p = choose|p: T|
            {
                &&& a.pixel_sum(ops, oc, y, x, k as nat, p)
                &&& #[trigger] a.tap(ops, oc, y, x, k, p, r)
            };
        let q = choose|q: T|
            {
                &&& b.pixel_sum(ops, oc, y1, x1, k as nat, q)
                &&& #[trigger] b.tap(ops, oc, y1, x1, k, q, s)
            };
        lemma_pixel_once(ops, c, m, a, b, oc, y, x, k as nat, p, q);
        let (dy, dx) = (k / 3 - 1, k % 3 - 1);
        lemma_neighbour(c.wh, c.y, c.h, m, y, dy);
        lemma_neighbour(c.ww, c.x, c.w, m, x, dx);
        if a.inside(y, x, k) {
            assert forall|ci: int| 0 <= ci < a.c_in implies #[trigger] a.source(y, x, k, ci)
                == b.source(y1, x1, k, ci) by {
                assert(c.deep(m, y + dy, x + dx));
                assert(a.src[cell(c.wh, c.ww, ci, y + dy, x + dx)] == b.src[cell(
                    c.h,
                    c.w,
                    ci,
                    y + dy - c.y,
                    x + dx - c.x,
                )]);
            }
            lemma_tap_once(ops, a, b, oc, y, x, y1, x1, k, p, a.c_in as nat, r, s);
        }
    }
}

/// Where the arithmetic gives one result for its operands, the host's kernels are
/// local.
pub proof fn host_kernels_are_local<T, A: Arith<T>>(ops: &A, model: &Model<T>)
    requires
        single_valued(ops),
        model.wf(),
    ensures
        host_kernels(ops, model).local(model.geom),
{
    let (g, kernels) = (model.geom, host_kernels(ops, model));
    assert forall|l: int, c: Crop, m: int, act: bool, x: Seq<T>, y: Seq<T>, a: Seq<T>, b: Seq<T>|
        kernels.sees_near(g, l, c, m, act, x, y, a, b) by {
        if 0 <= l < g.layers() && c.wf() && 0 <= m && twins(c, g.layer_in(l), m, x, y) && conv_is(
            ops,
            model.layer(l),
            x,
            g.layer_in(l),
            c.wh,
            c.ww,
            act,
            a,
        ) && conv_is(ops, model.layer(l), y, g.layer_in(l), c.h, c.w, act, b) {
            lemma_conv_local(ops, model, l, c, m, act, x, y, a, b);
        }
    }
    assert forall|
        c: Crop,
        m: int,
        x1: Seq<T>,
        y1: Seq<T>,
        x2: Seq<T>,
        y2: Seq<T>,
        a: Seq<T>,
        b: Seq<T>,
    | kernels.sees_itself(g, c, m, x1, y1, x2, y2, a, b) by {
        let nf = g.num_feat as int;
        if c.wf() && twins(c, nf, m, x1, y1) && twins(c, nf, m, x2, y2) {
            if residuals(ops, x1, x2, a) && residuals(ops, y1, y2, b) {
                lemma_residual_local(ops, c, nf, m, x1, y1, x2, y2, a, b);
            }
            if sums(ops, x1, x2, a) && sums(ops, y1, y2, b) {
                lemma_sum_local(ops, c, nf, m, x1, y1, x2, y2, a, b);
            }
        }
    }
}

proof fn lemma_conv_local<T, A: Arith<T>>(
    ops: &A,
    model: &Model<T>,
    l: int,
    c: Crop,
    m: int,
    act: bool,
    x: Seq<T>,
    y: Seq<T>,
    a: Seq<T>,
    b: Seq<T>,
)
    requires
        single_valued(ops),
        model.wf(),
        0 <= l < model.geom.layers(),
        c.wf(),
        0 <= m,
        twins(c, model.geom.layer_in(l), m, x, y),
        conv_is(ops, model.layer(l), x, model.geom.layer_in(l), c.wh, c.ww, act, a),
        conv_is(ops, model.layer(l), y, model.geom.layer_in(l), c.h, c.w, act, b),
    ensures
        twins(c, model.geom.layer_out(l), m + 1, a, b),
{
    let conv = model.layer(l);
    let (ci, co) = (model.geom.layer_in(l), model.geom.layer_out(l));
    let ta = Taps { src: x, c_in: ci, wt: conv.w@, bias: conv.bias@, h: c.wh, w: c.ww };
    let tb = Taps { src: y, c_in: ci, wt: conv.w@, bias: conv.bias@, h: c.h, w: c.w };
    assert(conv.c_out == co);
    assert forall|ch: int, py: int, px: int|
        0 <= ch < co && c.deep(m + 1, py, px) implies #[trigger] a[cell(c.wh, c.ww, ch, py, px)]
        == b[cell(c.h, c.w, ch, py - c.y, px - c.x)] by {
        let (r, s) = (
            a[cell(c.wh, c.ww, ch, py, px)],
            b[cell(c.h, c.w, ch, py - c.y, px - c.x)],
        );
        assert(ta.value(ops, act, None, ch, py, px, r));
        assert(tb.value(ops, act, None, ch, py - c.y, px - c.x, s));
        let v = choose|v: T|
            {
                &&& #[trigger] ta.pixel_sum(ops, ch, py, px, 9, v)
                &&& finished(ops, act, ta.res_at(None, ch, py, px), v, r)
            };
        let u = choose|u: T|
            {
                &&& #[trigger] tb.pixel_sum(ops, ch, py - c.y, px - c.x, 9, u)
                &&& finished(ops, act, tb.res_at(None, ch, py - c.y, px - c.x), u, s)
            };
        lemma_pixel_once(ops, c, m, ta, tb, ch, py, px, 9, v, u);
        lemma_finished_once(ops, act, None, v, r, s);
    }
}

proof fn lemma_residual_local<T, A: Arith<T>>(
    ops: &A,
    c: Crop,
    nc: int,
    m: int,
    x1: Seq<T>,
    y1: Seq<T>,
    x2: Seq<T>,
    y2: Seq<T>,
    a: Seq<T>,
    b: Seq<T>,
)
    requires
        single_valued(ops),
        c.wf(),
        twins(c, nc, m, x1, y1),
        twins(c, nc, m, x2, y2),
        residuals(ops, x1, x2, a),
        residuals(ops, y1, y2, b),
    ensures
        twins(c, nc, m, a, b),
{
    assert forall|ch: int, y: int, x: int|
        0 <= ch < nc && c.deep(m, y, x) implies #[trigger] a[cell(c.wh, c.ww, ch, y, x)] == b[cell(
        c.h,
        c.w,
        ch,
        y - c.y,
        x - c.x,
    )] by {
        let (i, j) = (cell(c.wh, c.ww, ch, y, x), cell(c.h, c.w, ch, y - c.y, x - c.x));
        lemma_cell(nc, c.wh, c.ww, ch, y, x);
        lemma_cell(nc, c.h, c.w, ch, y - c.y, x - c.x);
        assert(x1[i] == y1[j] && x2[i] == y2[j]);
        assert(residual_is(ops, x1[i], x2[i], a[i]) && residual_is(ops, y1[j], y2[j], b[j]));
    }
}

proof fn lemma_sum_local<T, A: Arith<T>>(
    ops: &A,
    c: Crop,
    nc: int,
    m: int,
    x1: Seq<T>,
    y1: Seq<T>,
    x2: Seq<T>,
    y2: Seq<T>,
    a: Seq<T>,
    b: Seq<T>,
)
    requires
        single_valued(ops),
        c.wf(),
        twins(c, nc, m, x1, y1),
        twins(c, nc, m, x2, y2),
        sums(ops, x1, x2, a),
        sums(ops, y1, y2, b),
    ensures
        twins(c, nc, m, a, b),
{
    assert forall|ch: int, y: int, x: int|
        0 <= ch < nc && c.deep(m, y, x) implies #[trigger] a[cell(c.wh, c.ww, ch, y, x)] == b[cell(
        c.h,
        c.w,
        ch,
        y - c.y,
        x - c.x,
    )] by {
        let (i, j) = (cell(c.wh, c.ww, ch, y, x), cell(c.h, c.w, ch, y - c.y, x - c.x));
        lemma_cell(nc, c.wh, c.ww, ch, y, x);
        lemma_cell(nc, c.h, c.w, ch, y - c.y, x - c.x);
        assert(x1[i] == y1[j] && x2[i] == y2[j]);
        assert(plus_is(ops, x1[i], x2[i], a[i]) && plus_is(ops, y1[j], y2[j], b[j]));
    }
}

/// Where the arithmetic gives one result for its operands, so does every kernel of
/// the host.
pub proof fn host_kernels_are_functional<T, A: Arith<T>>(ops: &A, model: &Model<T>)
    requires
        single_valued(ops),
    ensures
        host_kernels(ops, model).functional(),
{
    let k = host_kernels(ops, model);
    assert forall|
        l: int,
        src: Seq<T>,
        c: int,
        h: int,
        w: int,
        act: bool,
        a: Seq<T>,
        b: Seq<T>,
    |
        0 < h && 0 < w && #[trigger] (k.conv)(l, src, c, h, w, act, a) && #[trigger] (k.conv)(
            l,
            src,
            c,
            h,
            w,
            act,
            b,
        ) implies a == b by {
        let conv = model.layer(l);
        let taps = Taps { src, c_in: c, wt: conv.w@, bias: conv.bias@, h, w };
        taps.plane_is_a_function(ops, conv.c_out as int, act, None, a, b);
    }
    assert forall|x: Seq<T>, y: Seq<T>, a: Seq<T>, b: Seq<T>|
        #[trigger] (k.residual)(x, y, a) && #[trigger] (k.residual)(x, y, b) implies a == b by {
        assert(residuals(ops, x, y, a) && residuals(ops, x, y, b));
        assert forall|i: int| 0 <= i < a.len() implies a[i] == b[i] by {
            assert(residual_is(ops, x[i], y[i], a[i]) && residual_is(ops, x[i], y[i], b[i]));
        }
        assert(a =~= b);
    }
    assert forall|x: Seq<T>, y: Seq<T>, a: Seq<T>, b: Seq<T>|
        #[trigger] (k.join)(x, y, a) && #[trigger] (k.join)(x, y, b) implies a == b by {
        assert(sums(ops, x, y, a) && sums(ops, x, y, b));
        assert forall|i: int| 0 <= i < a.len() implies a[i] == b[i] by {
            assert(plus_is(ops, x[i], y[i], a[i]) && plus_is(ops, x[i], y[i], b[i]));
        }
        assert(a =~= b);
    }
}

} // verus!
